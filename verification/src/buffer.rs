use vstd::prelude::*;

use vstd::pervasive::VecAdditionalExecFns;

verus! {

/// An RGBA pixel buffer, row-major, one packed `u32` per pixel (`0xRRGGBBAA`
/// with red in the most significant byte). Well-formedness ties the flat
/// data length to the dimensions.
#[derive(Debug)]
pub struct PixelBuffer {
    pub width: usize,
    pub height: usize,
    pub data: Vec<u32>,
}

/// Row-major indices stay inside the buffer.
pub(crate) proof fn lemma_row_major_index_bound(w: int, h: int, x: int, y: int)
    requires
        0 <= x < w,
        0 <= y < h,
    ensures
        0 <= y * w + x,
        y * w + x < h * w,
        y * w + x < w * h,
{
    assert(y * w + x < h * w && y * w + x < w * h) by (nonlinear_arith)
        requires
            0 <= x < w,
            0 <= y < h,
    ;
    assert(y * w >= 0) by (nonlinear_arith)
        requires
            0 <= y,
            0 < w,
    ;
}

/// Distinct pixel coordinates have distinct row-major indices.
pub(crate) proof fn lemma_row_major_index_injective(w: int, x1: int, y1: int, x2: int, y2: int)
    requires
        0 <= x1 < w,
        0 <= x2 < w,
        0 <= y1,
        0 <= y2,
        y1 * w + x1 == y2 * w + x2,
    ensures
        x1 == x2 && y1 == y2,
{
    assert(y1 == y2) by (nonlinear_arith)
        requires
            0 <= x1 < w,
            0 <= x2 < w,
            0 <= y1,
            0 <= y2,
            y1 * w + x1 == y2 * w + x2,
    ;
}

impl PixelBuffer {
    pub open spec fn wf(self) -> bool {
        self.data@.len() == self.width * self.height
    }

    pub open spec fn spec_width(self) -> int {
        self.width as int
    }

    pub open spec fn spec_height(self) -> int {
        self.height as int
    }

    /// The pixel at column `x` of row `y`.
    pub open spec fn spec_pixel(self, x: int, y: int) -> u32 {
        self.data@[y * self.width + x]
    }

    pub fn width(&self) -> (r: usize)
        ensures
            r == self.spec_width(),
    {
        self.width
    }

    pub fn height(&self) -> (r: usize)
        ensures
            r == self.spec_height(),
    {
        self.height
    }

    /// An all-transparent (all-zero) canvas of the given size.
    pub fn new_canvas(width: usize, height: usize) -> (r: Self)
        requires
            width * height <= usize::MAX,
        ensures
            r.wf(),
            r.spec_width() == width,
            r.spec_height() == height,
            forall|x: int, y: int|
                0 <= x < width && 0 <= y < height ==> r.spec_pixel(x, y) == 0,
    {
        let n = width * height;
        let mut data: Vec<u32> = Vec::new();
        let mut i: usize = 0;
        while i < n
            invariant
                i <= n,
                data@.len() == i,
                forall|k: int| 0 <= k < i ==> data@[k] == 0,
            decreases n - i,
        {
            data.push(0);
            i = i + 1;
        }
        let r = PixelBuffer { width, height, data };
        proof {
            assert forall|x: int, y: int|
                0 <= x < width && 0 <= y < height implies r.spec_pixel(x, y) == 0 by {
                lemma_row_major_index_bound(width as int, height as int, x, y);
            }
        }
        r
    }

    /// Builds a buffer from a flat row-major pixel vector; fails exactly when
    /// the data length does not match the dimensions.
    pub fn from_data(width: usize, height: usize, data: Vec<u32>) -> (r: Option<Self>)
        ensures
            match r {
                Some(b) => {
                    &&& data@.len() == width * height
                    &&& b.wf()
                    &&& b.spec_width() == width
                    &&& b.spec_height() == height
                    &&& b.data@ == data@
                },
                None => data@.len() != width * height,
            },
    {
        match width.checked_mul(height) {
            Some(n) => {
                if data.len() == n {
                    Some(PixelBuffer { width, height, data })
                } else {
                    None
                }
            },
            None => {
                let l = data.len();
                proof {
                    assert(l == data@.len());
                }
                None
            },
        }
    }

    /// A borrow of the flat row-major pixel data.
    pub fn data_vec(&self) -> (r: &Vec<u32>)
        ensures
            r@ == self.data@,
    {
        &self.data
    }

    pub fn pixel(&self, x: usize, y: usize) -> (r: u32)
        requires
            self.wf(),
            x < self.spec_width(),
            y < self.spec_height(),
        ensures
            r == self.spec_pixel(x as int, y as int),
    {
        proof {
            lemma_row_major_index_bound(
                self.width as int,
                self.height as int,
                x as int,
                y as int,
            );
            assert(self.data.len() == self.data@.len());
        }
        self.data[y * self.width + x]
    }

    pub fn set_pixel(&mut self, x: usize, y: usize, v: u32)
        requires
            old(self).wf(),
            x < old(self).spec_width(),
            y < old(self).spec_height(),
        ensures
            final(self).wf(),
            final(self).spec_width() == old(self).spec_width(),
            final(self).spec_height() == old(self).spec_height(),
            final(self).data@ == old(self).data@.update(
                y as int * old(self).spec_width() + x as int,
                v,
            ),
            final(self).spec_pixel(x as int, y as int) == v,
            forall|i: int, j: int|
                0 <= i < old(self).spec_width() && 0 <= j < old(self).spec_height()
                    && !(i == x && j == y) ==> final(self).spec_pixel(i, j) == old(
                    self,
                ).spec_pixel(i, j),
    {
        proof {
            lemma_row_major_index_bound(
                self.width as int,
                self.height as int,
                x as int,
                y as int,
            );
            assert(self.data.len() == self.data@.len());
        }
        let idx = y * self.width + x;
        self.data.set(idx, v);
        proof {
            let w = self.width as int;
            let h = self.height as int;
            assert forall|i: int, j: int|
                0 <= i < w && 0 <= j < h && !(i == x && j == y) implies self.spec_pixel(i, j)
                == old(self).spec_pixel(i, j) by {
                lemma_row_major_index_bound(w, h, i, j);
                if j * w + i == y as int * w + x as int {
                    lemma_row_major_index_injective(w, i, j, x as int, y as int);
                }
            }
        }
    }

    /// Copies the `w`×`h` sub-rectangle of `src` whose top-left corner is at
    /// `(sx, sy)` into this buffer at `(dx, dy)`. The region must lie within
    /// both buffers; all other destination pixels keep their values.
    pub fn blit(
        &mut self,
        src: &PixelBuffer,
        sx: usize,
        sy: usize,
        dx: usize,
        dy: usize,
        w: usize,
        h: usize,
    )
        requires
            old(self).wf(),
            src.wf(),
            sx + w <= src.spec_width(),
            sy + h <= src.spec_height(),
            dx + w <= old(self).spec_width(),
            dy + h <= old(self).spec_height(),
        ensures
            final(self).wf(),
            final(self).spec_width() == old(self).spec_width(),
            final(self).spec_height() == old(self).spec_height(),
            forall|x: int, y: int|
                dx <= x < dx + w && dy <= y < dy + h ==> #[trigger] final(self).spec_pixel(x, y)
                    == src.spec_pixel(sx + (x - dx), sy + (y - dy)),
            forall|x: int, y: int|
                0 <= x < old(self).spec_width() && 0 <= y < old(self).spec_height()
                    && !(dx <= x < dx + w && dy <= y < dy + h)
                    ==> #[trigger] final(self).spec_pixel(x, y) == old(self).spec_pixel(x, y),
    {
        let mut j: usize = 0;
        while j < h
            invariant
                j <= h,
                self.wf(),
                src.wf(),
                self.spec_width() == old(self).spec_width(),
                self.spec_height() == old(self).spec_height(),
                sx + w <= src.spec_width(),
                sy + h <= src.spec_height(),
                dx + w <= self.spec_width(),
                dy + h <= self.spec_height(),
                forall|x: int, y: int|
                    dx <= x < dx + w && dy <= y < dy + j ==> #[trigger] self.spec_pixel(x, y)
                        == src.spec_pixel(sx + (x - dx), sy + (y - dy)),
                forall|x: int, y: int|
                    0 <= x < self.spec_width() && 0 <= y < self.spec_height()
                        && !(dx <= x < dx + w && dy <= y < dy + j) ==> #[trigger] self.spec_pixel(
                        x,
                        y,
                    ) == old(self).spec_pixel(x, y),
            decreases h - j,
        {
            let mut i: usize = 0;
            while i < w
                invariant
                    i <= w,
                    j < h,
                    self.wf(),
                    src.wf(),
                    self.spec_width() == old(self).spec_width(),
                    self.spec_height() == old(self).spec_height(),
                    sx + w <= src.spec_width(),
                    sy + h <= src.spec_height(),
                    dx + w <= self.spec_width(),
                    dy + h <= self.spec_height(),
                    forall|x: int, y: int|
                        dx <= x < dx + w && dy <= y < dy + j ==> #[trigger] self.spec_pixel(x, y)
                            == src.spec_pixel(sx + (x - dx), sy + (y - dy)),
                    forall|x: int, y: int|
                        y == dy + j && dx <= x < dx + i ==> #[trigger] self.spec_pixel(x, y)
                            == src.spec_pixel(sx + (x - dx), sy + (y - dy)),
                    forall|x: int, y: int|
                        0 <= x < self.spec_width() && 0 <= y < self.spec_height()
                            && !(dx <= x < dx + w && dy <= y < dy + j) && !(y == dy + j && dx <= x
                            < dx + i) ==> #[trigger] self.spec_pixel(x, y) == old(self).spec_pixel(
                            x,
                            y,
                        ),
                decreases w - i,
            {
                let v = src.pixel(sx + i, sy + j);
                self.set_pixel(dx + i, dy + j, v);
                i = i + 1;
            }
            j = j + 1;
        }
    }
}

/// What decoding an encoded image yields: the RGBA pixels and dimensions,
/// or nothing for bytes that are no image. A function of the bytes alone.
pub uninterp spec fn decoded_rgba(bytes: Seq<u8>) -> Option<(Seq<u32>, int, int)>;

/// Relies on image::load_from_memory (with conversion to RGBA): decoding
/// either fails or yields a well-formed pixel buffer with `u32`-sized
/// dimensions, and depends on the bytes alone.
#[verifier::external_body]
pub fn decode_image(bytes: &Vec<u8>) -> (r: Option<PixelBuffer>)
    ensures
        match r {
            Some(b) => {
                &&& decoded_rgba(bytes@) == Some((b.data@, b.spec_width(), b.spec_height()))
                &&& b.wf()
                &&& b.spec_width() <= u32::MAX
                &&& b.spec_height() <= u32::MAX
            },
            None => decoded_rgba(bytes@) is None,
        },
{
    let img = match image::load_from_memory(bytes) {
        Ok(img) => img.into_rgba8(),
        Err(_) => return None,
    };
    let (w, h) = img.dimensions();
    let data: Vec<u32> = img.into_raw().chunks(4).map(
        |c| u32::from_be_bytes([c[0], c[1], c[2], c[3]]),
    ).collect();
    Some(PixelBuffer { width: w as usize, height: h as usize, data })
}

} // verus!
