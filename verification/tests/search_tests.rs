use genshin_map_generator::models::{AreaData, Label, MapData, Marker, RegionData, TileRef};
use genshin_map_generator::point::Point;
use genshin_map_generator::rect::{GeometryError, Rect};
use genshin_map_generator::search::{
    area_frame, find_area, matched_label_indices, select_region,
};

fn region(name: &str, area_id: u8, frame: (i64, i64, i64, i64)) -> RegionData {
    RegionData {
        name: String::from(name),
        lx: frame.0,
        ly: frame.1,
        rx: frame.2,
        ry: frame.3,
        area_id,
        children: Vec::new(),
        map_id: 2,
    }
}

fn area(name: &str, map_id: u8) -> AreaData {
    AreaData {
        name: String::from(name),
        icon_url: String::from("icon.png"),
        lx: 0,
        ly: 0,
        rx: 10,
        ry: 10,
        map_id,
    }
}

#[test]
fn select_region_finds_top_level_match() {
    let regions = vec![
        region("Mondstadt", 1, (0, 0, 10, 10)),
        region("Enkanomiya", 2, (5, 5, 20, 20)),
    ];
    assert_eq!(select_region(&regions, "Enka"), Some((1, None)));
    assert_eq!(select_region(&regions, "Mond"), Some((0, None)));
}

#[test]
fn select_region_finds_sub_region() {
    let mut parent = region("Liyue", 1, (0, 0, 10, 10));
    parent.children = vec![
        region("Chasm Surface", 3, (1, 1, 2, 2)),
        region("Chasm Underground", 3, (2, 2, 3, 3)),
    ];
    let regions = vec![region("Mondstadt", 1, (0, 0, 10, 10)), parent];
    assert_eq!(select_region(&regions, "Underground"), Some((1, Some(1))));
    assert_eq!(select_region(&regions, "Chasm"), Some((1, Some(0))));
}

#[test]
fn select_region_prefers_earlier_regions_children() {
    // The walk checks each region and then all of its sub-regions before
    // moving on: an earlier region's matching child wins over a later
    // region that matches itself.
    let mut first = region("Liyue", 1, (0, 0, 10, 10));
    first.children = vec![region("Chasm", 3, (1, 1, 2, 2))];
    let regions = vec![first, region("Chasm Approach", 1, (0, 0, 10, 10))];
    assert_eq!(select_region(&regions, "Chasm"), Some((0, Some(0))));
}

#[test]
fn select_region_without_match() {
    let regions = vec![region("Mondstadt", 1, (0, 0, 10, 10))];
    assert_eq!(select_region(&regions, "Sumeru"), None);
}

#[test]
fn find_area_picks_first_match() {
    let areas = vec![area("Mondstadt", 2), area("Sumeru", 8), area("Sumeru Desert", 8)];
    assert_eq!(find_area(&areas, "Sumeru"), Some(1));
    assert_eq!(find_area(&areas, "Desert"), Some(2));
    assert_eq!(find_area(&areas, "Fontaine"), None);
}

#[test]
fn matched_label_indices_filters_by_name() {
    let labels = vec![
        Label { name: String::from("Teleport Waypoint"), icon: String::from("a.png"), id: 3 },
        Label { name: String::from("Common Chest"), icon: String::from("b.png"), id: 4 },
        Label { name: String::from("Magical Crystal Chunk"), icon: String::from("c.png"), id: 5 },
    ];
    let desired = vec![String::from("Teleport Waypoint"), String::from("Crystal")];
    assert_eq!(matched_label_indices(&labels, &desired), vec![0, 2]);

    let none: Vec<String> = Vec::new();
    assert_eq!(matched_label_indices(&labels, &none), Vec::<usize>::new());
}

#[test]
fn area_frame_bounds_matching_regions() {
    let regions = vec![
        region("A", 1, (0, 0, 10, 10)),
        region("B", 2, (100, 100, 200, 200)),
        region("C", 1, (5, 5, 20, 20)),
    ];
    let origin = Point::new(50, 50);
    // Matching regions are A and C; their absolute frames are
    // (50,50,60,60) and (55,55,70,70).
    assert_eq!(area_frame(&regions, 1, origin), Ok(Rect::new(50, 50, 70, 70)));
}

#[test]
fn area_frame_without_matching_region_fails() {
    let regions = vec![region("A", 1, (0, 0, 10, 10))];
    let origin = Point::new(0, 0);
    assert_eq!(area_frame(&regions, 9, origin), Err(GeometryError::EmptyRegionSet));
}

#[test]
fn region_abs_frame_translates_origin() {
    let rg = region("A", 1, (-5, -10, 5, 10));
    let frame = rg.get_abs_frame(&Point::new(10, 20));
    assert_eq!(frame, Rect::new(5, 10, 15, 30));
    assert_eq!(rg.map_id(), 2);
}

#[test]
fn area_abs_frame_translates_origin() {
    let a = area("Mondstadt", 2);
    let frame = a.get_abs_frame(Point::new(3, 4));
    assert_eq!(frame, Rect::new(3, 4, 13, 14));
}

#[test]
fn map_data_accessors() {
    let map = MapData {
        slices: vec![vec![TileRef { url: String::from("t0.png") }]],
        origin: (12, 34),
        total_size: (1000, 1000),
        padding: (7, 8),
    };
    assert_eq!(map.origin(), Point::new(12, 34));
    assert_eq!(map.padding(), Point::new(7, 8));
}

#[test]
fn marker_pos_is_its_point() {
    let m = Marker { label_id: 3, area_id: 1, x: 15, y: -25 };
    assert_eq!(m.pos(), Point::new(15, -25));
}
