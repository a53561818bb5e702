use vstd::prelude::*;

use crate::buffer::PixelBuffer;
use crate::models::Marker;
use crate::point::Point;

verus! {

/// A marker's position moved from origin-relative coordinates into the
/// frame whose origin is the viewport's top-left corner.
pub open spec fn marker_point_spec(m: Marker, origin: Point, top_left: Point) -> Point {
    Point {
        x: (m.x + origin.x - top_left.x) as i64,
        y: (m.y + origin.y - top_left.y) as i64,
    }
}

/// The viewport-local positions, in order, of exactly those markers that
/// carry the given label id.
pub open spec fn marker_points_spec(
    markers: Seq<Marker>,
    label_id: i32,
    origin: Point,
    top_left: Point,
) -> Seq<Point>
    decreases markers.len(),
{
    if markers.len() == 0 {
        Seq::empty()
    } else {
        let rest = marker_points_spec(markers.drop_last(), label_id, origin, top_left);
        if markers.last().label_id == label_id {
            rest.push(marker_point_spec(markers.last(), origin, top_left))
        } else {
            rest
        }
    }
}

/// The overlay positions for one label: each matching marker's position
/// made absolute (origin added) and then made viewport-local (viewport
/// top-left subtracted).
pub fn marker_points(
    markers: &Vec<Marker>,
    label_id: i32,
    origin: Point,
    frame_top_left: Point,
) -> (r: Vec<Point>)
    requires
        forall|i: int|
            0 <= i < markers@.len() && (#[trigger] markers@[i]).label_id == label_id ==> {
                &&& i64::MIN <= markers@[i].x + origin.x <= i64::MAX
                &&& i64::MIN <= markers@[i].y + origin.y <= i64::MAX
                &&& i64::MIN <= markers@[i].x + origin.x - frame_top_left.x <= i64::MAX
                &&& i64::MIN <= markers@[i].y + origin.y - frame_top_left.y <= i64::MAX
            },
    ensures
        r@ == marker_points_spec(markers@, label_id, origin, frame_top_left),
{
    let n = markers.len();
    let mut r: Vec<Point> = Vec::new();
    let mut i: usize = 0;
    while i < n
        invariant
            i <= n,
            n == markers@.len(),
            forall|j: int|
                0 <= j < markers@.len() && (#[trigger] markers@[j]).label_id == label_id ==> {
                    &&& i64::MIN <= markers@[j].x + origin.x <= i64::MAX
                    &&& i64::MIN <= markers@[j].y + origin.y <= i64::MAX
                    &&& i64::MIN <= markers@[j].x + origin.x - frame_top_left.x <= i64::MAX
                    &&& i64::MIN <= markers@[j].y + origin.y - frame_top_left.y <= i64::MAX
                },
            r@ == marker_points_spec(markers@.take(i as int), label_id, origin, frame_top_left),
        decreases n - i,
    {
        let m = &markers[i];
        proof {
            assert(markers@.take(i + 1).drop_last() =~= markers@.take(i as int));
            assert(markers@.take(i + 1).last() == markers@[i as int]);
        }
        if m.label_id == label_id {
            let p = m.pos().abs_point(origin).translate_axes(frame_top_left);
            r.push(p);
        }
        i = i + 1;
    }
    proof {
        assert(markers@.take(n as int) =~= markers@);
    }
    r
}

/// What image::imageops::overlay leaves in the bottom buffer: the result of
/// alpha-blending `src` onto `dst` at offset `(x, y)`, clipped to `dst`'s
/// bounds. A function of its arguments alone.
pub uninterp spec fn overlaid(
    dst: Seq<u32>,
    dst_w: int,
    dst_h: int,
    src: Seq<u32>,
    src_w: int,
    src_h: int,
    x: int,
    y: int,
) -> Seq<u32>;

/// What resizing to fit a bounding box returns: the pixels and the
/// dimensions of the scaled image. A function of its arguments alone.
pub uninterp spec fn resize_fit(
    src: Seq<u32>,
    src_w: int,
    src_h: int,
    bound_w: int,
    bound_h: int,
) -> (Seq<u32>, int, int);

/// Relies on image::imageops::overlay: it alpha-blends `src` onto `dst` at
/// offset `(x, y)`, clipping to `dst`'s bounds; `dst` keeps its dimensions.
#[verifier::external_body]
fn overlay_raw(dst: &mut PixelBuffer, src: &PixelBuffer, x: i64, y: i64)
    requires
        old(dst).wf(),
        src.wf(),
        old(dst).spec_width() <= u32::MAX,
        old(dst).spec_height() <= u32::MAX,
        src.spec_width() <= u32::MAX,
        src.spec_height() <= u32::MAX,
    ensures
        final(dst).wf(),
        final(dst).spec_width() == old(dst).spec_width(),
        final(dst).spec_height() == old(dst).spec_height(),
        final(dst).data@ == overlaid(
            old(dst).data@,
            old(dst).spec_width(),
            old(dst).spec_height(),
            src.data@,
            src.spec_width(),
            src.spec_height(),
            x as int,
            y as int,
        ),
{
    let db: Vec<u8> = dst.data.iter().flat_map(|p| p.to_be_bytes()).collect();
    let sb: Vec<u8> = src.data.iter().flat_map(|p| p.to_be_bytes()).collect();
    let mut d = image::RgbaImage::from_raw(dst.width as u32, dst.height as u32, db).unwrap();
    let s = image::RgbaImage::from_raw(src.width as u32, src.height as u32, sb).unwrap();
    image::imageops::overlay(&mut d, &s, x, y);
    dst.data = d.into_raw().chunks(4).map(|c| u32::from_be_bytes([c[0], c[1], c[2], c[3]])).collect();
}

/// Relies on image::DynamicImage::resize with the Catmull-Rom filter: it
/// scales to the largest size that fits within the given bounds while
/// preserving the aspect ratio, so the result is between 1 and the bound in
/// each dimension, and depends on the input pixels and the bounds alone.
#[verifier::external_body]
fn resize_to_fit(src: &PixelBuffer, bound_w: u32, bound_h: u32) -> (r: PixelBuffer)
    requires
        src.wf(),
        1 <= src.spec_width() <= u32::MAX,
        1 <= src.spec_height() <= u32::MAX,
        1 <= bound_w,
        1 <= bound_h,
    ensures
        r.wf(),
        1 <= r.spec_width() <= bound_w,
        1 <= r.spec_height() <= bound_h,
        (r.data@, r.spec_width(), r.spec_height()) == resize_fit(
            src.data@,
            src.spec_width(),
            src.spec_height(),
            bound_w as int,
            bound_h as int,
        ),
{
    let sb: Vec<u8> = src.data.iter().flat_map(|p| p.to_be_bytes()).collect();
    let img = image::RgbaImage::from_raw(src.width as u32, src.height as u32, sb).unwrap();
    let out = image::DynamicImage::ImageRgba8(img)
        .resize(bound_w, bound_h, image::imageops::FilterType::CatmullRom)
        .into_rgba8();
    PixelBuffer {
        width: out.width() as usize,
        height: out.height() as usize,
        data: out.into_raw().chunks(4).map(|c| u32::from_be_bytes([c[0], c[1], c[2], c[3]])).collect(),
    }
}

/// One marker placed on the map: the marker background, then the icon,
/// both blended in at the pin anchor. The point is the pin's tip: the
/// images' top-left corner sits half an icon width to the left and a full
/// icon height above it.
pub open spec fn place_marker(
    buf: Seq<u32>,
    w: int,
    h: int,
    bg: PixelBuffer,
    icon: (Seq<u32>, int, int),
    p: Point,
) -> Seq<u32> {
    let b1 = overlaid(
        buf,
        w,
        h,
        bg.data@,
        bg.spec_width(),
        bg.spec_height(),
        p.x - 16,
        p.y - 32,
    );
    overlaid(b1, w, h, icon.0, icon.1, icon.2, p.x - 16, p.y - 32)
}

/// All of one label's markers placed in order.
pub open spec fn place_markers(
    buf: Seq<u32>,
    w: int,
    h: int,
    bg: PixelBuffer,
    icon: (Seq<u32>, int, int),
    pts: Seq<Point>,
) -> Seq<u32>
    decreases pts.len(),
{
    if pts.len() == 0 {
        buf
    } else {
        place_markers(place_marker(buf, w, h, bg, icon, pts[0]), w, h, bg, icon, pts.drop_first())
    }
}

/// Every entry's icon resized to the marker square and its markers placed,
/// entry by entry in order.
pub open spec fn place_entries(
    buf: Seq<u32>,
    w: int,
    h: int,
    bg: PixelBuffer,
    entries: Seq<(PixelBuffer, Vec<Point>)>,
) -> Seq<u32>
    decreases entries.len(),
{
    if entries.len() == 0 {
        buf
    } else {
        let icon = resize_fit(
            entries[0].0.data@,
            entries[0].0.spec_width(),
            entries[0].0.spec_height(),
            32,
            32,
        );
        place_entries(
            place_markers(buf, w, h, bg, icon, entries[0].1@),
            w,
            h,
            bg,
            entries.drop_first(),
        )
    }
}

/// Overlays the map with marker pins: for each (icon, positions) entry, the
/// icon is resized to fit the 32×32 marker square and, for each
/// viewport-local position, the marker background and then the icon are
/// blended in, anchored so the position is the tip of the pin.
#[verifier::loop_isolation(false)]
pub fn overlay_markers_hd(
    map: &mut PixelBuffer,
    marker_bg: &PixelBuffer,
    images_with_marker_points: &Vec<(PixelBuffer, Vec<Point>)>,
)
    requires
        old(map).wf(),
        old(map).spec_width() <= u32::MAX,
        old(map).spec_height() <= u32::MAX,
        marker_bg.wf(),
        marker_bg.spec_width() <= u32::MAX,
        marker_bg.spec_height() <= u32::MAX,
        forall|e: int|
            0 <= e < images_with_marker_points@.len() ==> {
                let icon = (#[trigger] images_with_marker_points@[e]).0;
                &&& icon.wf()
                &&& 1 <= icon.spec_width() <= u32::MAX
                &&& 1 <= icon.spec_height() <= u32::MAX
            },
        forall|e: int, k: int|
            0 <= e < images_with_marker_points@.len() && 0 <= k
                < images_with_marker_points@[e].1@.len() ==> {
                let p = #[trigger] images_with_marker_points@[e].1@[k];
                &&& p.x >= i64::MIN + 16
                &&& p.y >= i64::MIN + 32
            },
    ensures
        final(map).wf(),
        final(map).spec_width() == old(map).spec_width(),
        final(map).spec_height() == old(map).spec_height(),
        final(map).data@ == place_entries(
            old(map).data@,
            old(map).spec_width(),
            old(map).spec_height(),
            *marker_bg,
            images_with_marker_points@,
        ),
{
    let ghost w = old(map).spec_width();
    let ghost h = old(map).spec_height();
    let ghost total = place_entries(old(map).data@, w, h, *marker_bg, images_with_marker_points@);
    let n = images_with_marker_points.len();
    proof {
        assert(images_with_marker_points@.skip(0) =~= images_with_marker_points@);
    }
    let mut e: usize = 0;
    while e < n
        invariant
            e <= n,
            n == images_with_marker_points@.len(),
            map.wf(),
            map.spec_width() == w,
            map.spec_height() == h,
            place_entries(map.data@, w, h, *marker_bg, images_with_marker_points@.skip(e as int))
                == total,
        decreases n - e,
    {
        let entry = &images_with_marker_points[e];
        let icon32 = resize_to_fit(&entry.0, 32, 32);
        let ghost icon = (icon32.data@, icon32.spec_width(), icon32.spec_height());
        let ghost entry_start = map.data@;
        proof {
            assert(images_with_marker_points@.skip(e as int).drop_first()
                =~= images_with_marker_points@.skip(e as int + 1));
            assert(images_with_marker_points@.skip(e as int)[0]
                == images_with_marker_points@[e as int]);
            assert(entry.1@.skip(0) =~= entry.1@);
        }
        let m = entry.1.len();
        let mut k: usize = 0;
        while k < m
            invariant
                k <= m,
                e < n,
                m == entry.1@.len(),
                *entry == images_with_marker_points@[e as int],
                icon32.wf(),
                1 <= icon32.spec_width() <= 32,
                1 <= icon32.spec_height() <= 32,
                icon == (icon32.data@, icon32.spec_width(), icon32.spec_height()),
                map.wf(),
                map.spec_width() == w,
                map.spec_height() == h,
                place_entries(
                    place_markers(map.data@, w, h, *marker_bg, icon, entry.1@.skip(k as int)),
                    w,
                    h,
                    *marker_bg,
                    images_with_marker_points@.skip(e as int + 1),
                ) == total,
            decreases m - k,
        {
            let p = entry.1[k];
            proof {
                assert(entry.1@.skip(k as int).drop_first() =~= entry.1@.skip(k as int + 1));
                assert(entry.1@.skip(k as int)[0] == entry.1@[k as int]);
            }
            overlay_raw(map, marker_bg, p.x - 16, p.y - 32);
            overlay_raw(map, &icon32, p.x - 16, p.y - 32);
            k = k + 1;
        }
        e = e + 1;
    }
    proof {
        assert(images_with_marker_points@.skip(n as int) =~= Seq::<
            (PixelBuffer, Vec<Point>),
        >::empty());
    }
}

} // verus!
