use genshin_map_generator::buffer::PixelBuffer;
use genshin_map_generator::compose::{
    composite_viewport, required_tiles, tile_rect, CompositeError,
};
use genshin_map_generator::rect::Rect;

fn solid(w: usize, h: usize, color: u32) -> PixelBuffer {
    PixelBuffer::from_data(w, h, vec![color; w * h]).unwrap()
}

fn numbered(w: usize, h: usize, base: u32) -> PixelBuffer {
    let data: Vec<u32> = (0..(w * h) as u32).map(|i| base + i).collect();
    PixelBuffer::from_data(w, h, data).unwrap()
}

#[test]
fn tile_rect_of_grid_cell() {
    assert_eq!(tile_rect(1, 2, 100, 50), Rect::new(200, 50, 300, 100));
    assert_eq!(tile_rect(0, 0, 256, 256), Rect::new(0, 0, 256, 256));
}

#[test]
fn required_tiles_of_spanning_viewport() {
    let vp = Rect::new(5, 5, 25, 25);
    let cells = required_tiles(3, 3, 10, 10, &vp);
    let expected: Vec<(usize, usize)> = vec![
        (0, 0),
        (0, 1),
        (0, 2),
        (1, 0),
        (1, 1),
        (1, 2),
        (2, 0),
        (2, 1),
        (2, 2),
    ];
    assert_eq!(cells, expected);
}

#[test]
fn required_tiles_skips_touching_cells() {
    let vp = Rect::new(10, 10, 20, 20);
    let cells = required_tiles(3, 3, 10, 10, &vp);
    assert_eq!(cells, vec![(1, 1)]);
}

#[test]
fn required_tiles_outside_grid_is_empty() {
    let vp = Rect::new(100, 100, 104, 104);
    let cells = required_tiles(2, 2, 10, 10, &vp);
    assert_eq!(cells, Vec::<(usize, usize)>::new());
}

#[test]
fn composite_within_single_tile() {
    // One 4x4 tile with distinct pixel values; viewport is its inner 2x2.
    let tile = numbered(4, 4, 100);
    let grid = vec![vec![Some(tile)]];
    let vp = Rect::new(1, 1, 3, 3);
    let out = composite_viewport(&grid, 4, 4, &vp).unwrap();
    assert_eq!(out.width(), 2);
    assert_eq!(out.height(), 2);
    // Output pixel (x, y) equals tile pixel (1 + x, 1 + y).
    assert_eq!(out.pixel(0, 0), 100 + 4 * 1 + 1);
    assert_eq!(out.pixel(1, 0), 100 + 4 * 1 + 2);
    assert_eq!(out.pixel(0, 1), 100 + 4 * 2 + 1);
    assert_eq!(out.pixel(1, 1), 100 + 4 * 2 + 2);
}

#[test]
fn composite_across_tile_seam() {
    // A 2x2 grid of 2x2 tiles, each a distinct solid color; the viewport
    // spans the central seam, so each output quadrant comes from one tile.
    let grid = vec![
        vec![Some(solid(2, 2, 11)), Some(solid(2, 2, 22))],
        vec![Some(solid(2, 2, 33)), Some(solid(2, 2, 44))],
    ];
    let vp = Rect::new(1, 1, 3, 3);
    let out = composite_viewport(&grid, 2, 2, &vp).unwrap();
    assert_eq!(out.width(), 2);
    assert_eq!(out.height(), 2);
    assert_eq!(out.pixel(0, 0), 11);
    assert_eq!(out.pixel(1, 0), 22);
    assert_eq!(out.pixel(0, 1), 33);
    assert_eq!(out.pixel(1, 1), 44);
}

#[test]
fn composite_outside_grid_is_blank() {
    // No tile is consulted, so the grid may hold no decoded image at all.
    let grid: Vec<Vec<Option<PixelBuffer>>> = vec![vec![None, None], vec![None, None]];
    let vp = Rect::new(100, 100, 104, 103);
    let out = composite_viewport(&grid, 10, 10, &vp).unwrap();
    assert_eq!(out.width(), 4);
    assert_eq!(out.height(), 3);
    for y in 0..3 {
        for x in 0..4 {
            assert_eq!(out.pixel(x, y), 0);
        }
    }
}

#[test]
fn composite_partially_outside_grid() {
    // The viewport hangs off the right edge of a single-tile grid: covered
    // pixels show the tile, the rest stay transparent.
    let tile = solid(4, 4, 7);
    let grid = vec![vec![Some(tile)]];
    let vp = Rect::new(2, 0, 6, 1);
    let out = composite_viewport(&grid, 4, 4, &vp).unwrap();
    assert_eq!(out.pixel(0, 0), 7);
    assert_eq!(out.pixel(1, 0), 7);
    assert_eq!(out.pixel(2, 0), 0);
    assert_eq!(out.pixel(3, 0), 0);
}

#[test]
fn composite_missing_tile_fails() {
    let grid: Vec<Vec<Option<PixelBuffer>>> = vec![vec![None]];
    let vp = Rect::new(0, 0, 2, 2);
    let r = composite_viewport(&grid, 4, 4, &vp);
    assert_eq!(r.unwrap_err(), CompositeError::MissingTile { row: 0, col: 0 });
}

#[test]
fn composite_tile_size_mismatch_fails() {
    let grid = vec![vec![Some(solid(3, 4, 1))]];
    let vp = Rect::new(0, 0, 2, 2);
    let r = composite_viewport(&grid, 4, 4, &vp);
    assert_eq!(
        r.unwrap_err(),
        CompositeError::TileSizeMismatch { row: 0, col: 0 }
    );
}

#[test]
fn blit_copies_sub_rectangle() {
    let mut dst = PixelBuffer::new_canvas(4, 4);
    let src = numbered(3, 3, 10);
    // Copy the 2x2 block at (1, 1) of src to (2, 2) of dst.
    dst.blit(&src, 1, 1, 2, 2, 2, 2);
    assert_eq!(dst.pixel(2, 2), 10 + 3 * 1 + 1);
    assert_eq!(dst.pixel(3, 2), 10 + 3 * 1 + 2);
    assert_eq!(dst.pixel(2, 3), 10 + 3 * 2 + 1);
    assert_eq!(dst.pixel(3, 3), 10 + 3 * 2 + 2);
    assert_eq!(dst.pixel(0, 0), 0);
    assert_eq!(dst.pixel(1, 2), 0);
}

#[test]
fn from_data_checks_length() {
    assert!(PixelBuffer::from_data(2, 2, vec![1, 2, 3]).is_none());
    let b = PixelBuffer::from_data(2, 2, vec![1, 2, 3, 4]).unwrap();
    assert_eq!(b.pixel(1, 1), 4);
    assert_eq!(b.data_vec(), &vec![1, 2, 3, 4]);
}

#[test]
fn decode_image_reads_png_pixels() {
    let img = image::RgbaImage::from_raw(2, 1, vec![255, 0, 0, 255, 0, 255, 0, 255]).unwrap();
    let mut bytes: Vec<u8> = Vec::new();
    img.write_to(&mut std::io::Cursor::new(&mut bytes), image::ImageFormat::Png)
        .unwrap();
    let buf = genshin_map_generator::buffer::decode_image(&bytes).unwrap();
    assert_eq!(buf.width(), 2);
    assert_eq!(buf.height(), 1);
    assert_eq!(buf.pixel(0, 0), 0xFF00_00FF);
    assert_eq!(buf.pixel(1, 0), 0x00FF_00FF);
}

#[test]
fn decode_image_rejects_garbage() {
    let bytes = vec![1, 2, 3, 4];
    assert!(genshin_map_generator::buffer::decode_image(&bytes).is_none());
}

#[test]
fn new_canvas_is_blank() {
    let b = PixelBuffer::new_canvas(3, 2);
    assert_eq!(b.width(), 3);
    assert_eq!(b.height(), 2);
    for y in 0..2 {
        for x in 0..3 {
            assert_eq!(b.pixel(x, y), 0);
        }
    }
}
