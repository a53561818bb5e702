use vstd::prelude::*;

use vstd::arithmetic::div_mod::{
    lemma_div_pos_is_pos, lemma_fundamental_div_mod, lemma_fundamental_div_mod_converse,
    lemma_mod_pos_bound,
};
use vstd::arithmetic::mul::lemma_mul_inequality;

use crate::buffer::PixelBuffer;
use crate::rect::Rect;

verus! {

/// Failure of a composite operation. A tile that intersects the viewport but
/// cannot be used is fatal to the whole composite: a partially composited
/// buffer must never be mistaken for a complete result.
#[derive(Clone, Copy, Debug, PartialEq, Eq, Structural)]
pub enum CompositeError {
    /// An intersecting grid cell has no decoded tile image.
    MissingTile { row: usize, col: usize },
    /// An intersecting grid cell's tile image does not have the uniform tile
    /// dimensions the grid was declared with.
    TileSizeMismatch { row: usize, col: usize },
}

/// The world-space rectangle of grid cell `(row, col)` for uniform tile
/// dimensions `tw`×`th`: cell `(row, col)` spans
/// `[col*tw, (col+1)*tw) × [row*th, (row+1)*th)`.
pub open spec fn tile_rect_spec(row: int, col: int, tw: int, th: int) -> Rect {
    Rect {
        lx: (col * tw) as u32,
        ly: (row * th) as u32,
        rx: ((col + 1) * tw) as u32,
        ry: ((row + 1) * th) as u32,
    }
}

/// Number of columns of a row-major grid (its rows are required elsewhere to
/// have equal length).
pub open spec fn grid_cols(tiles: Seq<Vec<Option<PixelBuffer>>>) -> int {
    if tiles.len() == 0 {
        0
    } else {
        tiles[0]@.len() as int
    }
}

/// Every row of the grid has the same number of columns.
pub open spec fn grid_wf(tiles: Seq<Vec<Option<PixelBuffer>>>) -> bool {
    forall|r: int| 0 <= r < tiles.len() ==> (#[trigger] tiles[r])@.len() == grid_cols(tiles)
}

/// A usable decoded tile: present, well-formed, and of the uniform tile
/// dimensions.
pub open spec fn tile_ok(t: Option<PixelBuffer>, tw: int, th: int) -> bool {
    match t {
        Some(b) => b.wf() && b.spec_width() == tw && b.spec_height() == th,
        None => false,
    }
}

/// Every grid cell that intersects the viewport holds a usable tile.
pub open spec fn tiles_available(
    tiles: Seq<Vec<Option<PixelBuffer>>>,
    tw: int,
    th: int,
    vp: Rect,
) -> bool {
    forall|r: int, c: int|
        0 <= r < tiles.len() && 0 <= c < grid_cols(tiles) && tile_rect_spec(r, c, tw, th).overlaps(
            vp,
        ) ==> tile_ok(#[trigger] tiles[r]@[c], tw, th)
}

/// The pixel the composite owes at output position `(x, y)`: the pixel of
/// the tile whose cell contains the absolute point `(vp.lx+x, vp.ly+y)`,
/// or transparent (zero) where that point lies outside the grid.
pub open spec fn source_pixel(
    tiles: Seq<Vec<Option<PixelBuffer>>>,
    tw: int,
    th: int,
    vp: Rect,
    x: int,
    y: int,
) -> u32 {
    let ax = vp.lx + x;
    let ay = vp.ly + y;
    let col = ax / tw;
    let row = ay / th;
    if row < tiles.len() && col < grid_cols(tiles) {
        match tiles[row]@[col] {
            Some(t) => t.spec_pixel(ax - col * tw, ay - row * th),
            None => 0,
        }
    } else {
        0
    }
}

/// `out` is the composite of the viewport over the tile grid: it has the
/// viewport's dimensions and each of its pixels is the pixel the grid owes
/// at that position.
pub open spec fn is_composite_of(
    out: PixelBuffer,
    tiles: Seq<Vec<Option<PixelBuffer>>>,
    tw: int,
    th: int,
    vp: Rect,
) -> bool {
    &&& out.wf()
    &&& out.spec_width() == vp.spec_width()
    &&& out.spec_height() == vp.spec_height()
    &&& forall|x: int, y: int|
        0 <= x < vp.spec_width() && 0 <= y < vp.spec_height() ==> #[trigger] out.spec_pixel(x, y)
            == source_pixel(tiles, tw, th, vp, x, y)
}

/// A nonnegative value divided by a positive divisor lands in the cell
/// `[q*d, (q+1)*d)` named by the quotient.
proof fn lemma_cell_bounds(a: int, d: int)
    requires
        0 <= a,
        0 < d,
    ensures
        0 <= a / d,
        (a / d) * d <= a,
        a < ((a / d) + 1) * d,
{
    lemma_div_pos_is_pos(a, d);
    lemma_fundamental_div_mod(a, d);
    lemma_mod_pos_bound(a, d);
    assert((a / d) * d <= a && a < ((a / d) + 1) * d) by (nonlinear_arith)
        requires
            a == d * (a / d) + a % d,
            0 <= a % d < d,
    ;
}

/// The quotient is the unique cell index: a value within `[q*d, (q+1)*d)`
/// has quotient `q`.
proof fn lemma_cell_of(a: int, d: int, q: int)
    requires
        0 < d,
        0 <= q,
        q * d <= a,
        a < (q + 1) * d,
    ensures
        a / d == q,
{
    assert(0 <= a - q * d < d) by (nonlinear_arith)
        requires
            q * d <= a,
            a < (q + 1) * d,
    ;
    lemma_fundamental_div_mod_converse(a, d, q, a - q * d);
}

/// The coordinates of a grid cell's rectangle, unwrapped: within a grid of
/// `rows`×`cols` cells whose total extent fits the coordinate space, the
/// casts in `tile_rect_spec` change nothing.
proof fn lemma_tile_rect_coords(row: int, col: int, tw: int, th: int, rows: int, cols: int)
    requires
        0 <= row < rows,
        0 <= col < cols,
        1 <= tw,
        1 <= th,
        rows * th <= u32::MAX,
        cols * tw <= u32::MAX,
    ensures
        tile_rect_spec(row, col, tw, th).lx == col * tw,
        tile_rect_spec(row, col, tw, th).ly == row * th,
        tile_rect_spec(row, col, tw, th).rx == (col + 1) * tw,
        tile_rect_spec(row, col, tw, th).ry == (row + 1) * th,
        (col + 1) * tw == col * tw + tw,
        (row + 1) * th == row * th + th,
        0 <= col * tw,
        0 <= row * th,
        (col + 1) * tw <= u32::MAX,
        (row + 1) * th <= u32::MAX,
        tile_rect_spec(row, col, tw, th).is_valid(),
{
    lemma_mul_inequality(col + 1, cols, tw);
    lemma_mul_inequality(row + 1, rows, th);
    assert(0 <= col * tw && col * tw + tw == (col + 1) * tw) by (nonlinear_arith)
        requires
            0 <= col,
            1 <= tw,
    ;
    assert(0 <= row * th && row * th + th == (row + 1) * th) by (nonlinear_arith)
        requires
            0 <= row,
            1 <= th,
    ;
}

/// Row-major order on grid cells.
pub open spec fn cell_lt(a: (usize, usize), b: (usize, usize)) -> bool {
    a.0 < b.0 || (a.0 == b.0 && a.1 < b.1)
}

/// The grid cells, in row-major order, whose world-space rectangle
/// intersects the viewport: exactly the tiles a composite has to fetch and
/// decode. Cells that merely touch the viewport's edge are not needed.
#[verifier::loop_isolation(false)]
pub fn required_tiles(
    rows: usize,
    cols: usize,
    tile_w: u32,
    tile_h: u32,
    viewport: &Rect,
) -> (r: Vec<(usize, usize)>)
    requires
        1 <= tile_w,
        1 <= tile_h,
        rows * tile_h <= u32::MAX,
        cols * tile_w <= u32::MAX,
    ensures
        forall|t: int|
            0 <= t < r@.len() ==> (#[trigger] r@[t]).0 < rows && r@[t].1 < cols && tile_rect_spec(
                r@[t].0 as int,
                r@[t].1 as int,
                tile_w as int,
                tile_h as int,
            ).overlaps(*viewport),
        forall|row: usize, col: usize|
            row < rows && col < cols && tile_rect_spec(
                row as int,
                col as int,
                tile_w as int,
                tile_h as int,
            ).overlaps(*viewport) ==> #[trigger] r@.contains((row, col)),
        forall|t1: int, t2: int| 0 <= t1 < t2 < r@.len() ==> cell_lt(r@[t1], r@[t2]),
{
    let mut r: Vec<(usize, usize)> = Vec::new();
    let mut row: usize = 0;
    while row < rows
        invariant
            row <= rows,
            forall|t: int|
                0 <= t < r@.len() ==> (#[trigger] r@[t]).0 < row && r@[t].1 < cols
                    && tile_rect_spec(
                    r@[t].0 as int,
                    r@[t].1 as int,
                    tile_w as int,
                    tile_h as int,
                ).overlaps(*viewport),
            forall|rr: usize, cc: usize|
                rr < row && cc < cols && tile_rect_spec(
                    rr as int,
                    cc as int,
                    tile_w as int,
                    tile_h as int,
                ).overlaps(*viewport) ==> #[trigger] r@.contains((rr, cc)),
            forall|t1: int, t2: int| 0 <= t1 < t2 < r@.len() ==> cell_lt(r@[t1], r@[t2]),
        decreases rows - row,
    {
        let mut col: usize = 0;
        while col < cols
            invariant
                row < rows,
                col <= cols,
                forall|t: int|
                    0 <= t < r@.len() ==> cell_lt(#[trigger] r@[t], (row, col)) && r@[t].0 < rows
                        && r@[t].1 < cols && tile_rect_spec(
                        r@[t].0 as int,
                        r@[t].1 as int,
                        tile_w as int,
                        tile_h as int,
                    ).overlaps(*viewport),
                forall|rr: usize, cc: usize|
                    (rr < row || (rr == row && cc < col)) && rr < rows && cc < cols
                        && tile_rect_spec(
                        rr as int,
                        cc as int,
                        tile_w as int,
                        tile_h as int,
                    ).overlaps(*viewport) ==> #[trigger] r@.contains((rr, cc)),
                forall|t1: int, t2: int| 0 <= t1 < t2 < r@.len() ==> cell_lt(r@[t1], r@[t2]),
            decreases cols - col,
        {
            proof {
                lemma_mul_inequality(col as int + 1, cols as int, tile_w as int);
                lemma_mul_inequality(row as int + 1, rows as int, tile_h as int);
            }
            let trect = tile_rect(row, col, tile_w, tile_h);
            let ghost r_old = r@;
            let overlapping = trect.common(viewport).is_some();
            if overlapping {
                r.push((row, col));
            }
            proof {
                assert forall|rr: usize, cc: usize|
                    (rr < row || (rr == row && cc < col + 1)) && rr < rows && cc < cols
                        && tile_rect_spec(
                        rr as int,
                        cc as int,
                        tile_w as int,
                        tile_h as int,
                    ).overlaps(*viewport) implies #[trigger] r@.contains((rr, cc)) by {
                    if rr == row && cc == col {
                        assert(overlapping);
                        assert(r@[r@.len() - 1] == (row, col));
                        assert(r@.contains((rr, cc)));
                    } else {
                        assert(r_old.contains((rr, cc)));
                        let t = choose|t: int| 0 <= t < r_old.len() && r_old[t] == (rr, cc);
                        assert(r@[t] == (rr, cc));
                        assert(r@.contains((rr, cc)));
                    }
                }
            }
            col = col + 1;
        }
        row = row + 1;
    }
    r
}

/// The world-space rectangle of grid cell `(row, col)`.
pub fn tile_rect(row: usize, col: usize, tile_w: u32, tile_h: u32) -> (r: Rect)
    requires
        1 <= tile_w,
        1 <= tile_h,
        (col + 1) * tile_w <= u32::MAX,
        (row + 1) * tile_h <= u32::MAX,
    ensures
        r == tile_rect_spec(row as int, col as int, tile_w as int, tile_h as int),
        r.lx == col * tile_w,
        r.ly == row * tile_h,
        r.rx == (col + 1) * tile_w,
        r.ry == (row + 1) * tile_h,
{
    proof {
        assert(col * tile_w <= (col + 1) * tile_w && row * tile_h <= (row + 1) * tile_h
            && 0 <= col * tile_w && 0 <= row * tile_h) by (nonlinear_arith)
            requires
                1 <= tile_w,
                1 <= tile_h,
                0 <= col,
                0 <= row,
        ;
        assert(col + 1 <= (col + 1) * tile_w && row + 1 <= (row + 1) * tile_h)
            by (nonlinear_arith)
            requires
                1 <= tile_w,
                1 <= tile_h,
                0 <= col,
                0 <= row,
        ;
    }
    let lx = ((col as u64) * (tile_w as u64)) as u32;
    let ly = ((row as u64) * (tile_h as u64)) as u32;
    let rx = ((col as u64 + 1) * (tile_w as u64)) as u32;
    let ry = ((row as u64 + 1) * (tile_h as u64)) as u32;
    Rect { lx, ly, rx, ry }
}

/// `(prow, pcol)` comes before position `(row, col)` in the row-major walk.
pub open spec fn cell_done(prow: int, pcol: int, row: int, col: int) -> bool {
    prow < row || (prow == row && pcol < col)
}

/// Cell `(row, col)` is the first defect of the row-major walk: every
/// intersecting cell before it holds a usable tile.
pub open spec fn first_defect(
    tiles: Seq<Vec<Option<PixelBuffer>>>,
    tw: int,
    th: int,
    vp: Rect,
    row: int,
    col: int,
) -> bool {
    forall|rr: int, cc: int|
        0 <= rr < tiles.len() && 0 <= cc < grid_cols(tiles) && cell_done(rr, cc, row, col)
            && tile_rect_spec(rr, cc, tw, th).overlaps(vp) ==> tile_ok(
            #[trigger] tiles[rr]@[cc],
            tw,
            th,
        )
}

/// The pixel the composite owes at `(x, y)` once the row-major walk has
/// reached position `(row, col)`: as `source_pixel`, but still transparent
/// for cells not yet processed.
spec fn partial_pixel(
    tiles: Seq<Vec<Option<PixelBuffer>>>,
    tw: int,
    th: int,
    vp: Rect,
    x: int,
    y: int,
    row: int,
    col: int,
) -> u32 {
    let ax = vp.lx + x;
    let ay = vp.ly + y;
    let pc = ax / tw;
    let pr = ay / th;
    if pr < tiles.len() && pc < grid_cols(tiles) && cell_done(pr, pc, row, col) {
        match tiles[pr]@[pc] {
            Some(t) => t.spec_pixel(ax - pc * tw, ay - pr * th),
            None => 0,
        }
    } else {
        0
    }
}

/// An in-viewport pixel whose absolute point lies in grid cell `(row, col)`
/// witnesses that the cell's rectangle overlaps the viewport, and the point
/// lies in their common rectangle.
proof fn lemma_pixel_in_cell(
    rows: int,
    cols: int,
    tw: int,
    th: int,
    vp: Rect,
    x: int,
    y: int,
    row: int,
    col: int,
)
    requires
        1 <= tw,
        1 <= th,
        rows * th <= u32::MAX,
        cols * tw <= u32::MAX,
        vp.is_valid(),
        0 <= x < vp.spec_width(),
        0 <= y < vp.spec_height(),
        0 <= row < rows,
        0 <= col < cols,
        (vp.lx + x) / tw == col,
        (vp.ly + y) / th == row,
    ensures
        tile_rect_spec(row, col, tw, th).overlaps(vp),
        col * tw <= vp.lx + x < (col + 1) * tw,
        row * th <= vp.ly + y < (row + 1) * th,
{
    let ax = vp.lx + x;
    let ay = vp.ly + y;
    lemma_cell_bounds(ax, tw);
    lemma_cell_bounds(ay, th);
    lemma_tile_rect_coords(row, col, tw, th, rows, cols);
}

/// Composites the viewport over a tile grid of decoded images, producing a
/// buffer of the viewport's dimensions in which every pixel covered by a
/// grid cell shows that cell's tile and every other pixel is transparent.
/// Cells that do not intersect the viewport are never consulted, so their
/// entries may be `None`. An intersecting cell whose tile is absent, or
/// whose tile does not have the uniform dimensions `tile_w`×`tile_h`, fails
/// the whole composite and names the cell.
#[verifier::loop_isolation(false)]
#[verifier::rlimit(60)]
pub fn composite_viewport(
    tiles: &Vec<Vec<Option<PixelBuffer>>>,
    tile_w: u32,
    tile_h: u32,
    viewport: &Rect,
) -> (r: Result<PixelBuffer, CompositeError>)
    requires
        1 <= tile_w,
        1 <= tile_h,
        viewport.is_valid(),
        grid_wf(tiles@),
        tiles@.len() * tile_h <= u32::MAX,
        grid_cols(tiles@) * tile_w <= u32::MAX,
        viewport.spec_width() * viewport.spec_height() <= usize::MAX,
        forall|rr: int, cc: int|
            0 <= rr < tiles@.len() && 0 <= cc < grid_cols(tiles@) ==> match #[trigger] tiles@[rr]@[cc] {
                Some(t) => t.wf(),
                None => true,
            },
    ensures
        match r {
            Ok(out) => {
                &&& tiles_available(tiles@, tile_w as int, tile_h as int, *viewport)
                &&& is_composite_of(out, tiles@, tile_w as int, tile_h as int, *viewport)
            },
            Err(e) => {
                &&& !tiles_available(tiles@, tile_w as int, tile_h as int, *viewport)
                &&& match e {
                    CompositeError::MissingTile { row, col } => {
                        &&& row < tiles@.len()
                        &&& col < grid_cols(tiles@)
                        &&& tile_rect_spec(
                            row as int,
                            col as int,
                            tile_w as int,
                            tile_h as int,
                        ).overlaps(*viewport)
                        &&& tiles@[row as int]@[col as int] is None
                        &&& first_defect(
                            tiles@,
                            tile_w as int,
                            tile_h as int,
                            *viewport,
                            row as int,
                            col as int,
                        )
                    },
                    CompositeError::TileSizeMismatch { row, col } => {
                        &&& row < tiles@.len()
                        &&& col < grid_cols(tiles@)
                        &&& tile_rect_spec(
                            row as int,
                            col as int,
                            tile_w as int,
                            tile_h as int,
                        ).overlaps(*viewport)
                        &&& match tiles@[row as int]@[col as int] {
                            Some(t) => t.spec_width() != tile_w || t.spec_height() != tile_h,
                            None => false,
                        }
                        &&& first_defect(
                            tiles@,
                            tile_w as int,
                            tile_h as int,
                            *viewport,
                            row as int,
                            col as int,
                        )
                    },
                }
            },
        },
{
    let ghost twi = tile_w as int;
    let ghost thi = tile_h as int;
    let ghost vp = *viewport;
    let rows = tiles.len();
    let cols = if rows == 0 {
        0
    } else {
        tiles[0].len()
    };
    let vpw = viewport.width();
    let vph = viewport.height();
    let mut out = PixelBuffer::new_canvas(vpw as usize, vph as usize);
    let mut row: usize = 0;
    while row < rows
        invariant
            row <= rows,
            rows == tiles@.len(),
            cols == grid_cols(tiles@),
            out.wf(),
            out.spec_width() == vp.spec_width(),
            out.spec_height() == vp.spec_height(),
            forall|x: int, y: int|
                0 <= x < vp.spec_width() && 0 <= y < vp.spec_height() ==> #[trigger] out.spec_pixel(
                    x,
                    y,
                ) == partial_pixel(tiles@, twi, thi, vp, x, y, row as int, 0),
            forall|rr: int, cc: int|
                0 <= rr < tiles@.len() && 0 <= cc < grid_cols(tiles@) && cell_done(
                    rr,
                    cc,
                    row as int,
                    0,
                ) && tile_rect_spec(rr, cc, twi, thi).overlaps(vp) ==> tile_ok(
                    #[trigger] tiles@[rr]@[cc],
                    twi,
                    thi,
                ),
        decreases rows - row,
    {
        let mut col: usize = 0;
        while col < cols
            invariant
                row < rows,
                col <= cols,
                rows == tiles@.len(),
                cols == grid_cols(tiles@),
                out.wf(),
                out.spec_width() == vp.spec_width(),
                out.spec_height() == vp.spec_height(),
                forall|x: int, y: int|
                    0 <= x < vp.spec_width() && 0 <= y < vp.spec_height()
                        ==> #[trigger] out.spec_pixel(x, y) == partial_pixel(
                        tiles@,
                        twi,
                        thi,
                        vp,
                        x,
                        y,
                        row as int,
                        col as int,
                    ),
                forall|rr: int, cc: int|
                    0 <= rr < tiles@.len() && 0 <= cc < grid_cols(tiles@) && cell_done(
                        rr,
                        cc,
                        row as int,
                        col as int,
                    ) && tile_rect_spec(rr, cc, twi, thi).overlaps(vp) ==> tile_ok(
                        #[trigger] tiles@[rr]@[cc],
                        twi,
                        thi,
                    ),
            decreases cols - col,
        {
            proof {
                lemma_mul_inequality(col as int + 1, cols as int, twi);
                lemma_mul_inequality(row as int + 1, rows as int, thi);
                lemma_tile_rect_coords(row as int, col as int, twi, thi, rows as int, cols as int);
            }
            let trect = tile_rect(row, col, tile_w, tile_h);
            match trect.common(viewport) {
                None => {
                    proof {
                        assert forall|x: int, y: int|
                            0 <= x < vp.spec_width() && 0 <= y < vp.spec_height()
                                implies #[trigger] out.spec_pixel(x, y) == partial_pixel(
                            tiles@,
                            twi,
                            thi,
                            vp,
                            x,
                            y,
                            row as int,
                            col as int + 1,
                        ) by {
                            let ax = vp.lx + x;
                            let ay = vp.ly + y;
                            lemma_cell_bounds(ax, twi);
                            lemma_cell_bounds(ay, thi);
                            if ay / thi == row as int && ax / twi == col as int {
                                lemma_pixel_in_cell(
                                    rows as int,
                                    cols as int,
                                    twi,
                                    thi,
                                    vp,
                                    x,
                                    y,
                                    row as int,
                                    col as int,
                                );
                            }
                        }
                    }
                },
                Some(overlap) => {
                    let row_tiles = &tiles[row];
                    match &row_tiles[col] {
                        None => {
                            proof {
                                assert(tile_rect_spec(row as int, col as int, twi, thi).overlaps(
                                    vp,
                                ));
                                assert(!tile_ok(tiles@[row as int]@[col as int], twi, thi));
                                assert(!tiles_available(tiles@, twi, thi, vp));
                            }
                            return Err(CompositeError::MissingTile { row, col });
                        },
                        Some(t) => {
                            if t.width() != tile_w as usize || t.height() != tile_h as usize {
                                proof {
                                    assert(tile_rect_spec(
                                        row as int,
                                        col as int,
                                        twi,
                                        thi,
                                    ).overlaps(vp));
                                    assert(!tile_ok(tiles@[row as int]@[col as int], twi, thi));
                                    assert(!tiles_available(tiles@, twi, thi, vp));
                                }
                                return Err(CompositeError::TileSizeMismatch { row, col });
                            }
                            let sx = (overlap.lx - trect.lx) as usize;
                            let sy = (overlap.ly - trect.ly) as usize;
                            let dx = (overlap.lx - viewport.lx) as usize;
                            let dy = (overlap.ly - viewport.ly) as usize;
                            let w = (overlap.rx - overlap.lx) as usize;
                            let h = (overlap.ry - overlap.ly) as usize;
                            let ghost out_before = out;
                            out.blit(t, sx, sy, dx, dy, w, h);
                            proof {
                                assert forall|x: int, y: int|
                                    0 <= x < vp.spec_width() && 0 <= y < vp.spec_height()
                                        implies #[trigger] out.spec_pixel(x, y) == partial_pixel(
                                    tiles@,
                                    twi,
                                    thi,
                                    vp,
                                    x,
                                    y,
                                    row as int,
                                    col as int + 1,
                                ) by {
                                    let ax = vp.lx + x;
                                    let ay = vp.ly + y;
                                    lemma_cell_bounds(ax, twi);
                                    lemma_cell_bounds(ay, thi);
                                    if dx <= x < dx + w && dy <= y < dy + h {
                                        lemma_cell_of(ax, twi, col as int);
                                        lemma_cell_of(ay, thi, row as int);
                                        assert(out.spec_pixel(x, y) == t.spec_pixel(
                                            sx + (x - dx),
                                            sy + (y - dy),
                                        ));
                                    } else {
                                        assert(out.spec_pixel(x, y) == out_before.spec_pixel(x, y));
                                        if ax / twi == col as int && ay / thi == row as int {
                                            assert(col * twi <= ax < (col + 1) * twi);
                                            assert(row * thi <= ay < (row + 1) * thi);
                                            assert(overlap.lx <= ax < overlap.rx);
                                            assert(overlap.ly <= ay < overlap.ry);
                                            assert(dx <= x < dx + w && dy <= y < dy + h);
                                        }
                                    }
                                }
                            }
                        },
                    }
                },
            }
            col = col + 1;
        }
        row = row + 1;
    }
    proof {
        assert forall|x: int, y: int|
            0 <= x < vp.spec_width() && 0 <= y < vp.spec_height() implies #[trigger] out.spec_pixel(
            x,
            y,
        ) == source_pixel(tiles@, twi, thi, vp, x, y) by {
            let ax = vp.lx + x;
            let ay = vp.ly + y;
            lemma_cell_bounds(ax, twi);
            lemma_cell_bounds(ay, thi);
        }
    }
    Ok(out)
}

/// A viewport that lies fully within a single grid cell composites to a
/// buffer whose every pixel equals the corresponding pixel of that cell's
/// tile, offset by the tile's origin.
pub proof fn lemma_composite_single_tile(
    out: PixelBuffer,
    tiles: Seq<Vec<Option<PixelBuffer>>>,
    tw: int,
    th: int,
    vp: Rect,
    row: int,
    col: int,
    t: PixelBuffer,
)
    requires
        1 <= tw,
        1 <= th,
        vp.is_valid(),
        0 <= row < tiles.len(),
        0 <= col < grid_cols(tiles),
        tiles[row]@[col] == Some(t),
        col * tw <= vp.lx,
        vp.rx <= (col + 1) * tw,
        row * th <= vp.ly,
        vp.ry <= (row + 1) * th,
        is_composite_of(out, tiles, tw, th, vp),
    ensures
        forall|x: int, y: int|
            0 <= x < vp.spec_width() && 0 <= y < vp.spec_height() ==> #[trigger] out.spec_pixel(
                x,
                y,
            ) == t.spec_pixel(vp.lx - col * tw + x, vp.ly - row * th + y),
{
    assert forall|x: int, y: int|
        0 <= x < vp.spec_width() && 0 <= y < vp.spec_height() implies #[trigger] out.spec_pixel(
        x,
        y,
    ) == t.spec_pixel(vp.lx - col * tw + x, vp.ly - row * th + y) by {
        let ax = vp.lx + x;
        let ay = vp.ly + y;
        lemma_cell_of(ax, tw, col);
        lemma_cell_of(ay, th, row);
    }
}

/// A viewport that spans the boundary of a 2×2 block of grid cells
/// composites with no gap and no overlap at the seam: the four quadrant
/// conditions partition the output, and each quadrant's pixels come from
/// exactly the adjacent tile on its side of the seam.
pub proof fn lemma_composite_seam(
    out: PixelBuffer,
    tiles: Seq<Vec<Option<PixelBuffer>>>,
    tw: int,
    th: int,
    vp: Rect,
    row: int,
    col: int,
    t00: PixelBuffer,
    t01: PixelBuffer,
    t10: PixelBuffer,
    t11: PixelBuffer,
)
    requires
        1 <= tw,
        1 <= th,
        vp.is_valid(),
        0 <= row,
        0 <= col,
        row + 2 <= tiles.len(),
        col + 2 <= grid_cols(tiles),
        tiles[row]@[col] == Some(t00),
        tiles[row]@[col + 1] == Some(t01),
        tiles[row + 1]@[col] == Some(t10),
        tiles[row + 1]@[col + 1] == Some(t11),
        col * tw <= vp.lx < (col + 1) * tw,
        (col + 1) * tw < vp.rx <= (col + 2) * tw,
        row * th <= vp.ly < (row + 1) * th,
        (row + 1) * th < vp.ry <= (row + 2) * th,
        is_composite_of(out, tiles, tw, th, vp),
    ensures
        forall|x: int, y: int|
            0 <= x < vp.spec_width() && 0 <= y < vp.spec_height() && vp.lx + x < (col + 1) * tw
                && vp.ly + y < (row + 1) * th ==> #[trigger] out.spec_pixel(x, y)
                == t00.spec_pixel(vp.lx + x - col * tw, vp.ly + y - row * th),
        forall|x: int, y: int|
            0 <= x < vp.spec_width() && 0 <= y < vp.spec_height() && (col + 1) * tw <= vp.lx + x
                && vp.ly + y < (row + 1) * th ==> #[trigger] out.spec_pixel(x, y)
                == t01.spec_pixel(vp.lx + x - (col + 1) * tw, vp.ly + y - row * th),
        forall|x: int, y: int|
            0 <= x < vp.spec_width() && 0 <= y < vp.spec_height() && vp.lx + x < (col + 1) * tw
                && (row + 1) * th <= vp.ly + y ==> #[trigger] out.spec_pixel(x, y)
                == t10.spec_pixel(vp.lx + x - col * tw, vp.ly + y - (row + 1) * th),
        forall|x: int, y: int|
            0 <= x < vp.spec_width() && 0 <= y < vp.spec_height() && (col + 1) * tw <= vp.lx + x
                && (row + 1) * th <= vp.ly + y ==> #[trigger] out.spec_pixel(x, y)
                == t11.spec_pixel(vp.lx + x - (col + 1) * tw, vp.ly + y - (row + 1) * th),
{
    assert forall|x: int, y: int|
        0 <= x < vp.spec_width() && 0 <= y < vp.spec_height() implies {
        let ax = vp.lx + x;
        let ay = vp.ly + y;
        &&& (ax < (col + 1) * tw && ay < (row + 1) * th ==> #[trigger] out.spec_pixel(x, y)
            == t00.spec_pixel(ax - col * tw, ay - row * th))
        &&& (ax >= (col + 1) * tw && ay < (row + 1) * th ==> out.spec_pixel(x, y)
            == t01.spec_pixel(ax - (col + 1) * tw, ay - row * th))
        &&& (ax < (col + 1) * tw && ay >= (row + 1) * th ==> out.spec_pixel(x, y)
            == t10.spec_pixel(ax - col * tw, ay - (row + 1) * th))
        &&& (ax >= (col + 1) * tw && ay >= (row + 1) * th ==> out.spec_pixel(x, y)
            == t11.spec_pixel(ax - (col + 1) * tw, ay - (row + 1) * th))
    } by {
        let ax = vp.lx + x;
        let ay = vp.ly + y;
        if ax < (col + 1) * tw {
            lemma_cell_of(ax, tw, col);
        } else {
            lemma_cell_of(ax, tw, col + 1);
        }
        if ay < (row + 1) * th {
            lemma_cell_of(ay, th, row);
        } else {
            lemma_cell_of(ay, th, row + 1);
        }
    }
}

/// A viewport that lies entirely beyond the grid's extent composites to an
/// all-transparent buffer, and needs no tile at all: no grid cell intersects
/// it.
pub proof fn lemma_composite_outside_grid(
    out: PixelBuffer,
    tiles: Seq<Vec<Option<PixelBuffer>>>,
    tw: int,
    th: int,
    vp: Rect,
)
    requires
        1 <= tw,
        1 <= th,
        vp.is_valid(),
        tiles.len() * th <= u32::MAX,
        grid_cols(tiles) * tw <= u32::MAX,
        vp.lx >= grid_cols(tiles) * tw || vp.ly >= tiles.len() * th,
        is_composite_of(out, tiles, tw, th, vp),
    ensures
        tiles_available(tiles, tw, th, vp),
        forall|x: int, y: int|
            0 <= x < vp.spec_width() && 0 <= y < vp.spec_height() ==> #[trigger] out.spec_pixel(
                x,
                y,
            ) == 0,
{
    let rows = tiles.len() as int;
    let cols = grid_cols(tiles);
    assert forall|r: int, c: int|
        0 <= r < rows && 0 <= c < cols && tile_rect_spec(r, c, tw, th).overlaps(vp)
            implies tile_ok(#[trigger] tiles[r]@[c], tw, th) by {
        lemma_tile_rect_coords(r, c, tw, th, rows, cols);
        lemma_mul_inequality(c + 1, cols, tw);
        lemma_mul_inequality(r + 1, rows, th);
    }
    assert forall|x: int, y: int|
        0 <= x < vp.spec_width() && 0 <= y < vp.spec_height() implies #[trigger] out.spec_pixel(
        x,
        y,
    ) == 0 by {
        let ax = vp.lx + x;
        let ay = vp.ly + y;
        lemma_cell_bounds(ax, tw);
        lemma_cell_bounds(ay, th);
        if ax / tw < cols && ay / th < rows {
            lemma_mul_inequality(ax / tw + 1, cols, tw);
            lemma_mul_inequality(ay / th + 1, rows, th);
        }
    }
}

} // verus!
