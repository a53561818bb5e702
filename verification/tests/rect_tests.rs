use genshin_map_generator::point::Point;
use genshin_map_generator::rect::{bounding_rect, GeometryError, Rect};

#[test]
fn api_test2() {
    let x = Rect::new(4096, 4096, 8192, 8192);
    let y = Rect::new(8000, 8000, 1000, 1000);

    println!("{:#?}", x.common(&y));
}

#[test]
fn rect_test2() {
    let x = Rect::new(4096, 4096, 8192, 8192);
    let y = Rect::new(8000, 8000, 1000, 1000);

    println!("{:#?}", x.common(&y));
}

#[test]
fn common_of_overlapping_rects() {
    let x = Rect::new(4096, 4096, 8192, 8192);
    let y = Rect::new(8000, 8000, 1000, 1000);
    assert_eq!(x.common(&y), None);

    let a = Rect::new(0, 0, 10, 10);
    let b = Rect::new(5, 5, 20, 20);
    assert_eq!(a.common(&b), Some(Rect::new(5, 5, 10, 10)));
}

#[test]
fn common_is_symmetric_on_samples() {
    let a = Rect::new(3, 1, 12, 9);
    let b = Rect::new(7, 4, 20, 30);
    assert_eq!(a.common(&b), b.common(&a));

    let c = Rect::new(100, 100, 200, 200);
    assert_eq!(a.common(&c), c.common(&a));
}

#[test]
fn common_with_self_is_self() {
    let a = Rect::new(2, 3, 10, 11);
    assert_eq!(a.common(&a), Some(a));
}

#[test]
fn touching_rects_do_not_overlap() {
    let a = Rect::new(0, 0, 10, 10);
    let b = Rect::new(10, 0, 20, 10);
    assert_eq!(a.common(&b), None);
    assert_eq!(b.common(&a), None);

    let below = Rect::new(0, 10, 10, 20);
    assert_eq!(a.common(&below), None);
}

#[test]
fn offset_axes_translates_and_keeps_size() {
    let r = Rect::new(100, 200, 300, 400);
    let moved = r.offset_axes(Point::new(50, 60));
    assert_eq!(moved, Rect::new(50, 140, 250, 340));
    assert_eq!(moved.width(), r.width());
    assert_eq!(moved.height(), r.height());

    let back = moved.offset_axes(Point::new(-50, -60));
    assert_eq!(back, r);
}

#[test]
fn width_and_height() {
    let r = Rect::new(10, 20, 110, 70);
    assert_eq!(r.width(), 100);
    assert_eq!(r.height(), 50);
    assert_eq!(r.top_left(), Point::new(10, 20));
}

#[test]
fn bounding_rect_of_two_regions() {
    let frames = vec![Rect::new(0, 0, 10, 10), Rect::new(5, 5, 20, 20)];
    assert_eq!(bounding_rect(&frames), Ok(Rect::new(0, 0, 20, 20)));
}

#[test]
fn bounding_rect_of_disjoint_regions() {
    let frames = vec![
        Rect::new(30, 40, 50, 60),
        Rect::new(0, 45, 10, 55),
        Rect::new(35, 10, 45, 20),
    ];
    assert_eq!(bounding_rect(&frames), Ok(Rect::new(0, 10, 50, 60)));
}

#[test]
fn bounding_rect_of_nothing_fails() {
    let frames: Vec<Rect> = Vec::new();
    assert_eq!(bounding_rect(&frames), Err(GeometryError::EmptyRegionSet));
}
