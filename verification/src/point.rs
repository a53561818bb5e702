use vstd::prelude::*;

verus! {

/// A 2-D coordinate. Marker positions and map origins are declared relative
/// to a per-map origin; translating them can produce negative values, so the
/// components are signed.
#[derive(Clone, Copy, Debug, PartialEq, Eq, Structural)]
pub struct Point {
    pub x: i64,
    pub y: i64,
}

impl Point {
    /// Creates a new point with the given cartesian coordinates.
    pub fn new(x: i64, y: i64) -> (r: Self)
        ensures
            r == (Point { x, y }),
    {
        Point { x, y }
    }

    /// The absolute position of this origin-relative point, after moving the
    /// origin back to the top left of the map: adds the old origin
    /// componentwise.
    pub fn abs_point(&self, old_origin: Point) -> (r: Self)
        requires
            i64::MIN <= self.x + old_origin.x <= i64::MAX,
            i64::MIN <= self.y + old_origin.y <= i64::MAX,
        ensures
            r.x == self.x + old_origin.x,
            r.y == self.y + old_origin.y,
    {
        Point { x: self.x + old_origin.x, y: self.y + old_origin.y }
    }

    /// Re-expresses this point in a frame whose origin sits at `new_origin`
    /// in the current frame: subtracts `new_origin` componentwise.
    pub fn translate_axes(&self, new_origin: Point) -> (r: Self)
        requires
            i64::MIN <= self.x - new_origin.x <= i64::MAX,
            i64::MIN <= self.y - new_origin.y <= i64::MAX,
        ensures
            r.x == self.x - new_origin.x,
            r.y == self.y - new_origin.y,
    {
        Point { x: self.x - new_origin.x, y: self.y - new_origin.y }
    }
}

} // verus!
