use genshin_map_generator::buffer::PixelBuffer;
use genshin_map_generator::markers::{marker_points, overlay_markers_hd};
use genshin_map_generator::models::Marker;
use genshin_map_generator::point::Point;
use genshin_map_generator::rect::Rect;

fn solid(w: usize, h: usize, color: u32) -> PixelBuffer {
    PixelBuffer::from_data(w, h, vec![color; w * h]).unwrap()
}

#[test]
fn point_transforms_compose() {
    // A marker at absolute (100, 100) seen through viewport (50, 50, 200, 200)
    // lands at viewport-local (50, 50).
    let absolute = Point::new(100, 100);
    let viewport = Rect::new(50, 50, 200, 200);
    let local = absolute.translate_axes(viewport.top_left());
    assert_eq!(local, Point::new(50, 50));
}

#[test]
fn abs_point_adds_origin() {
    let p = Point::new(-30, 40).abs_point(Point::new(130, 60));
    assert_eq!(p, Point::new(100, 100));
}

#[test]
fn marker_points_filters_and_transforms() {
    let markers = vec![
        Marker { label_id: 3, area_id: 1, x: 90, y: 90 },
        Marker { label_id: 4, area_id: 1, x: 1, y: 1 },
        Marker { label_id: 3, area_id: 1, x: 0, y: -10 },
    ];
    let origin = Point::new(10, 10);
    let viewport_top_left = Point::new(50, 50);
    let pts = marker_points(&markers, 3, origin, viewport_top_left);
    // Marker (90, 90): absolute (100, 100), viewport-local (50, 50).
    // Marker (0, -10): absolute (10, 0), viewport-local (-40, -50).
    assert_eq!(pts, vec![Point::new(50, 50), Point::new(-40, -50)]);
}

#[test]
fn marker_points_of_unknown_label_is_empty() {
    let markers = vec![Marker { label_id: 3, area_id: 1, x: 0, y: 0 }];
    let pts = marker_points(&markers, 9, Point::new(0, 0), Point::new(0, 0));
    assert_eq!(pts, Vec::<Point>::new());
}

#[test]
fn overlay_markers_blends_pin_into_map() {
    let mut map = PixelBuffer::new_canvas(64, 64);
    // Opaque blue background square and an oversized opaque red icon.
    let bg = solid(32, 32, 0x0000_FFFF);
    let icon = solid(64, 64, 0xFF00_00FF);
    let entries = vec![(icon, vec![Point::new(16, 32)])];
    overlay_markers_hd(&mut map, &bg, &entries);

    assert_eq!(map.width(), 64);
    assert_eq!(map.height(), 64);
    // The pin's tip is (16, 32): the 32x32 images cover (0,0)..(32,32).
    // The icon was resized to 32x32 (not left at 64x64), and an opaque
    // source replaces the transparent destination.
    assert_eq!(map.pixel(5, 5), 0xFF00_00FF);
    // Outside the pin nothing changed.
    assert_eq!(map.pixel(40, 40), 0);
    assert_eq!(map.pixel(33, 5), 0);
}

#[test]
fn overlay_markers_without_entries_changes_nothing() {
    let mut map = PixelBuffer::new_canvas(8, 8);
    let bg = solid(4, 4, 0x0000_FFFF);
    let entries: Vec<(PixelBuffer, Vec<Point>)> = Vec::new();
    overlay_markers_hd(&mut map, &bg, &entries);
    for y in 0..8 {
        for x in 0..8 {
            assert_eq!(map.pixel(x, y), 0);
        }
    }
}

#[test]
fn overlay_markers_clips_at_map_edge() {
    let mut map = PixelBuffer::new_canvas(16, 16);
    let bg = solid(32, 32, 0x1234_56FF);
    let icon = solid(32, 32, 0xFF00_00FF);
    // The anchor near the top-left corner pushes most of the pin off-map.
    let entries = vec![(icon, vec![Point::new(2, 3)])];
    overlay_markers_hd(&mut map, &bg, &entries);
    assert_eq!(map.width(), 16);
    assert_eq!(map.height(), 16);
    // No panic, and pixels far from the clipped sliver stay transparent.
    assert_eq!(map.pixel(15, 15), 0);
}
