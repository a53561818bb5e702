use vstd::prelude::*;

use crate::point::Point;
use crate::rect::Rect;

verus! {

/// One cell of a map's tile grid: the image resource that covers it.
pub struct TileRef {
    pub url: String,
}

/// Metadata of one map: the tile grid (row-major), the declared origin that
/// region and marker coordinates are relative to, the total pixel size, and
/// the padding around the content.
pub struct MapData {
    pub slices: Vec<Vec<TileRef>>,
    pub origin: (i64, i64),
    pub total_size: (i64, i64),
    pub padding: (i64, i64),
}

impl MapData {
    pub fn origin(&self) -> (r: Point)
        ensures
            r == (Point { x: self.origin.0, y: self.origin.1 }),
    {
        Point { x: self.origin.0, y: self.origin.1 }
    }

    pub fn padding(&self) -> (r: Point)
        ensures
            r == (Point { x: self.padding.0, y: self.padding.1 }),
    {
        Point { x: self.padding.0, y: self.padding.1 }
    }
}

/// A named area of one map; an area aggregates the regions that carry its id.
pub struct AreaData {
    pub name: String,
    pub icon_url: String,
    pub lx: i64,
    pub ly: i64,
    pub rx: i64,
    pub ry: i64,
    pub map_id: u8,
}

impl AreaData {
    /// The area's declared frame moved from origin-relative coordinates into
    /// absolute (top-left-of-map) coordinates: adds the old origin
    /// componentwise.
    pub fn get_abs_frame(&self, old_origin: Point) -> (r: Rect)
        requires
            0 <= self.lx + old_origin.x <= u32::MAX,
            0 <= self.ly + old_origin.y <= u32::MAX,
            0 <= self.rx + old_origin.x <= u32::MAX,
            0 <= self.ry + old_origin.y <= u32::MAX,
        ensures
            r.lx == self.lx + old_origin.x,
            r.ly == self.ly + old_origin.y,
            r.rx == self.rx + old_origin.x,
            r.ry == self.ry + old_origin.y,
    {
        Rect {
            lx: (self.lx + old_origin.x) as u32,
            ly: (self.ly + old_origin.y) as u32,
            rx: (self.rx + old_origin.x) as u32,
            ry: (self.ry + old_origin.y) as u32,
        }
    }
}

/// A named region of a map, with its declared bounding rectangle in
/// origin-relative coordinates and optional nested sub-regions.
pub struct RegionData {
    pub name: String,
    pub lx: i64,
    pub ly: i64,
    pub rx: i64,
    pub ry: i64,
    pub area_id: u8,
    pub children: Vec<RegionData>,
    pub map_id: u8,
}

impl RegionData {
    pub fn map_id(&self) -> (r: u8)
        ensures
            r == self.map_id,
    {
        self.map_id
    }

    /// This region's frame in origin-relative coordinates, translated into
    /// absolute coordinates meaningful only when every translated coordinate
    /// is representable.
    pub open spec fn abs_frame_spec(self, old_origin: Point) -> Rect {
        Rect {
            lx: (self.lx + old_origin.x) as u32,
            ly: (self.ly + old_origin.y) as u32,
            rx: (self.rx + old_origin.x) as u32,
            ry: (self.ry + old_origin.y) as u32,
        }
    }

    /// Whether every coordinate of this region's absolute frame stays within
    /// `u32` range.
    pub open spec fn abs_frame_in_range(self, old_origin: Point) -> bool {
        &&& 0 <= self.lx + old_origin.x <= u32::MAX
        &&& 0 <= self.ly + old_origin.y <= u32::MAX
        &&& 0 <= self.rx + old_origin.x <= u32::MAX
        &&& 0 <= self.ry + old_origin.y <= u32::MAX
    }

    /// The region's frame after translating the origin to the top left of
    /// the map: adds the old origin componentwise.
    pub fn get_abs_frame(&self, old_origin: &Point) -> (r: Rect)
        requires
            self.abs_frame_in_range(*old_origin),
        ensures
            r == self.abs_frame_spec(*old_origin),
            r.lx == self.lx + old_origin.x,
            r.ly == self.ly + old_origin.y,
            r.rx == self.rx + old_origin.x,
            r.ry == self.ry + old_origin.y,
    {
        Rect {
            lx: (self.lx + old_origin.x) as u32,
            ly: (self.ly + old_origin.y) as u32,
            rx: (self.rx + old_origin.x) as u32,
            ry: (self.ry + old_origin.y) as u32,
        }
    }
}

/// One point of interest: its category (label) and its origin-relative
/// position.
pub struct Marker {
    pub label_id: i32,
    pub area_id: u8,
    pub x: i64,
    pub y: i64,
}

impl Marker {
    pub fn pos(&self) -> (r: Point)
        ensures
            r == (Point { x: self.x, y: self.y }),
    {
        Point { x: self.x, y: self.y }
    }
}

/// A marker category: display name and icon image resource. Many markers may
/// share one label.
pub struct Label {
    pub name: String,
    pub icon: String,
    pub id: i32,
}

/// The marker layer of one map: all markers and all labels.
pub struct MarkerData {
    pub markers: Vec<Marker>,
    pub labels: Vec<Label>,
}

} // verus!
