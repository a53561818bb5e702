use vstd::prelude::*;

use crate::point::Point;

verus! {

/// Axis-aligned rectangle in a `u32` pixel coordinate space.
/// `(lx, ly)` is the top-left corner and `(rx, ry)` the bottom-right corner;
/// every rectangle entering the compositor is expected to satisfy
/// `is_valid` (left at or before right, top at or before bottom).
/// Construction does not enforce it: callers are responsible.
#[derive(Clone, Copy, Debug, PartialEq, Eq, Structural)]
pub struct Rect {
    pub lx: u32,
    pub ly: u32,
    pub rx: u32,
    pub ry: u32,
}

impl Rect {
    /// Top-left/bottom-right convention.
    pub open spec fn is_valid(self) -> bool {
        self.lx <= self.rx && self.ly <= self.ry
    }

    pub open spec fn spec_width(self) -> int {
        self.rx - self.lx
    }

    pub open spec fn spec_height(self) -> int {
        self.ry - self.ly
    }

    /// Open-interval overlap test: rectangles that merely touch along an
    /// edge do not overlap.
    pub open spec fn overlaps(self, other: Rect) -> bool {
        other.lx < self.rx && other.ly < self.ry && other.rx > self.lx && other.ry > self.ly
    }

    /// `self` lies entirely within `other`.
    pub open spec fn contained_in(self, other: Rect) -> bool {
        other.lx <= self.lx && other.ly <= self.ly && self.rx <= other.rx && self.ry <= other.ry
    }

    /// The common (intersection) rectangle, or `None` when the two do not
    /// strictly overlap.
    pub open spec fn common_spec(self, other: Rect) -> Option<Rect> {
        if self.overlaps(other) {
            Some(
                (Rect {
                    lx: if self.lx >= other.lx { self.lx } else { other.lx },
                    ly: if self.ly >= other.ly { self.ly } else { other.ly },
                    rx: if self.rx <= other.rx { self.rx } else { other.rx },
                    ry: if self.ry <= other.ry { self.ry } else { other.ry },
                }),
            )
        } else {
            None
        }
    }

    /// The rectangle moved into a frame whose origin sits at `(dx, dy)` in
    /// the current frame; meaningful when every translated coordinate stays
    /// within `u32` range.
    pub open spec fn translate_spec(self, dx: int, dy: int) -> Rect {
        Rect {
            lx: (self.lx - dx) as u32,
            ly: (self.ly - dy) as u32,
            rx: (self.rx - dx) as u32,
            ry: (self.ry - dy) as u32,
        }
    }

    pub fn new(lx: u32, ly: u32, rx: u32, ry: u32) -> (r: Self)
        ensures
            r == (Rect { lx, ly, rx, ry }),
    {
        Rect { lx, ly, rx, ry }
    }

    /// The common area of two rectangles, `None` when they do not strictly
    /// overlap (touching edges count as non-overlapping).
    pub fn common(&self, other: &Rect) -> (r: Option<Rect>)
        ensures
            r == self.common_spec(*other),
    {
        if other.lx < self.rx && other.ly < self.ry && other.rx > self.lx && other.ry > self.ly {
            Some(
                Rect {
                    lx: if self.lx >= other.lx { self.lx } else { other.lx },
                    ly: if self.ly >= other.ly { self.ly } else { other.ly },
                    rx: if self.rx <= other.rx { self.rx } else { other.rx },
                    ry: if self.ry <= other.ry { self.ry } else { other.ry },
                },
            )
        } else {
            None
        }
    }

    /// A new rectangle with its axes offset so that `new_origin` becomes the
    /// origin: every coordinate is translated by `-new_origin`.
    pub fn offset_axes(&self, new_origin: Point) -> (r: Self)
        requires
            0 <= self.lx - new_origin.x <= u32::MAX,
            0 <= self.ly - new_origin.y <= u32::MAX,
            0 <= self.rx - new_origin.x <= u32::MAX,
            0 <= self.ry - new_origin.y <= u32::MAX,
        ensures
            r == self.translate_spec(new_origin.x as int, new_origin.y as int),
            r.lx == self.lx - new_origin.x,
            r.ly == self.ly - new_origin.y,
            r.rx == self.rx - new_origin.x,
            r.ry == self.ry - new_origin.y,
    {
        Rect {
            lx: (self.lx as i64 - new_origin.x) as u32,
            ly: (self.ly as i64 - new_origin.y) as u32,
            rx: (self.rx as i64 - new_origin.x) as u32,
            ry: (self.ry as i64 - new_origin.y) as u32,
        }
    }

    /// The top-left corner as a point.
    pub fn top_left(&self) -> (r: Point)
        ensures
            r.x == self.lx,
            r.y == self.ly,
    {
        Point { x: self.lx as i64, y: self.ly as i64 }
    }

    pub fn height(&self) -> (r: u32)
        requires
            self.ly <= self.ry,
        ensures
            r == self.spec_height(),
    {
        self.ry - self.ly
    }

    pub fn width(&self) -> (r: u32)
        requires
            self.lx <= self.rx,
        ensures
            r == self.spec_width(),
    {
        self.rx - self.lx
    }
}

/// Failure of an operation whose geometric precondition does not hold.
#[derive(Clone, Copy, Debug, PartialEq, Eq, Structural)]
pub enum GeometryError {
    /// An aggregation was asked for over zero rectangles; there is no valid
    /// bounding rectangle of an empty set.
    EmptyRegionSet,
}

/// The smallest rectangle covering both arguments: componentwise minimum of
/// the top-left corners and maximum of the bottom-right corners.
pub open spec fn merge_bounds(a: Rect, b: Rect) -> Rect {
    Rect {
        lx: if b.lx < a.lx { b.lx } else { a.lx },
        ly: if b.ly < a.ly { b.ly } else { a.ly },
        rx: if b.rx > a.rx { b.rx } else { a.rx },
        ry: if b.ry > a.ry { b.ry } else { a.ry },
    }
}

/// The bounding rectangle of a non-empty sequence of rectangles: the fold of
/// `merge_bounds` seeded with the first element.
pub open spec fn bounding_spec(frames: Seq<Rect>) -> Rect
    recommends
        frames.len() > 0,
    decreases frames.len(),
{
    if frames.len() <= 1 {
        frames[0]
    } else {
        merge_bounds(bounding_spec(frames.drop_last()), frames.last())
    }
}

/// The bounding rectangle of a set of (absolute) region frames: componentwise
/// minimum of left/top and maximum of right/bottom. An empty set has no valid
/// bounding rectangle and fails explicitly.
pub fn bounding_rect(frames: &Vec<Rect>) -> (r: Result<Rect, GeometryError>)
    ensures
        match r {
            Ok(b) => frames@.len() > 0 && b == bounding_spec(frames@),
            Err(e) => frames@.len() == 0 && e == GeometryError::EmptyRegionSet,
        },
{
    if frames.len() == 0 {
        return Err(GeometryError::EmptyRegionSet);
    }
    let mut acc = frames[0];
    let mut i: usize = 1;
    while i < frames.len()
        invariant
            1 <= i <= frames@.len(),
            acc == bounding_spec(frames@.take(i as int)),
        decreases frames@.len() - i,
    {
        let f = frames[i];
        acc = Rect {
            lx: if f.lx < acc.lx { f.lx } else { acc.lx },
            ly: if f.ly < acc.ly { f.ly } else { acc.ly },
            rx: if f.rx > acc.rx { f.rx } else { acc.rx },
            ry: if f.ry > acc.ry { f.ry } else { acc.ry },
        };
        proof {
            assert(frames@.take(i + 1).drop_last() =~= frames@.take(i as int));
            assert(frames@.take(i + 1).last() == frames@[i as int]);
        }
        i = i + 1;
    }
    proof {
        assert(frames@.take(frames@.len() as int) =~= frames@);
    }
    Ok(acc)
}

/// Every rectangle of a non-empty set is contained in the set's bounding
/// rectangle.
pub proof fn lemma_bounding_contains(frames: Seq<Rect>, i: int)
    requires
        0 <= i < frames.len(),
    ensures
        frames[i].contained_in(bounding_spec(frames)),
    decreases frames.len(),
{
    if frames.len() > 1 && i < frames.len() - 1 {
        lemma_bounding_contains(frames.drop_last(), i);
    }
}

/// Intersection is symmetric: the common area of `a` and `b` equals the
/// common area of `b` and `a`, for all rectangles.
pub proof fn lemma_common_symmetric(a: Rect, b: Rect)
    ensures
        a.common_spec(b) == b.common_spec(a),
{
}

/// When the intersection of two rectangles exists, it is contained in both;
/// when the two are valid, it is a valid rectangle as well.
pub proof fn lemma_common_contained(a: Rect, b: Rect, c: Rect)
    requires
        a.common_spec(b) == Some(c),
    ensures
        c.contained_in(a),
        c.contained_in(b),
        a.is_valid() && b.is_valid() ==> c.is_valid(),
{
}

/// A rectangle with nonzero width and height intersected with itself gives
/// itself back.
pub proof fn lemma_common_self(a: Rect)
    requires
        a.lx < a.rx,
        a.ly < a.ry,
    ensures
        a.common_spec(a) == Some(a),
{
}

/// Translation preserves width and height.
pub proof fn lemma_translate_preserves_size(r: Rect, dx: int, dy: int)
    requires
        0 <= r.lx - dx <= u32::MAX,
        0 <= r.ly - dy <= u32::MAX,
        0 <= r.rx - dx <= u32::MAX,
        0 <= r.ry - dy <= u32::MAX,
    ensures
        r.translate_spec(dx, dy).spec_width() == r.spec_width(),
        r.translate_spec(dx, dy).spec_height() == r.spec_height(),
{
}

/// Translating by `(dx, dy)` and then by `(-dx, -dy)` gives the original
/// rectangle back.
pub proof fn lemma_translate_round_trip(r: Rect, dx: int, dy: int)
    requires
        0 <= r.lx - dx <= u32::MAX,
        0 <= r.ly - dy <= u32::MAX,
        0 <= r.rx - dx <= u32::MAX,
        0 <= r.ry - dy <= u32::MAX,
    ensures
        r.translate_spec(dx, dy).translate_spec(-dx, -dy) == r,
{
}

} // verus!
