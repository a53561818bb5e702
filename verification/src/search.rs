use vstd::prelude::*;

use crate::models::{AreaData, Label, RegionData};
use crate::point::Point;
use crate::rect::{bounding_spec, bounding_rect, GeometryError, Rect};

verus! {

/// `needle` occurs at position `i` of `hay`.
pub open spec fn matches_at(hay: Seq<char>, needle: Seq<char>, i: int) -> bool {
    0 <= i && i + needle.len() <= hay.len() && hay.subrange(i, i + needle.len()) == needle
}

/// `needle` occurs somewhere in `hay` as a contiguous substring.
pub open spec fn str_contains(hay: Seq<char>, needle: Seq<char>) -> bool {
    exists|i: int| matches_at(hay, needle, i)
}

/// Relies on str::contains with a string pattern: it returns true exactly
/// when the needle occurs as a contiguous substring of the haystack (the
/// empty needle occurs in every string).
#[verifier::external_body]
pub(crate) fn contains_str(hay: &str, needle: &str) -> (r: bool)
    ensures
        r == str_contains(hay@, needle@),
{
    hay.contains(needle)
}

/// The search string occurs in this region's name.
pub open spec fn region_matches(r: RegionData, name: Seq<char>) -> bool {
    str_contains(r.name@, name)
}

/// The search string occurs in the name of some direct sub-region.
pub open spec fn any_child_matches(r: RegionData, name: Seq<char>) -> bool {
    exists|k: int| 0 <= k < r.children@.len() && region_matches(#[trigger] r.children@[k], name)
}

/// The search string occurs in this area's name.
pub open spec fn area_matches(a: AreaData, name: Seq<char>) -> bool {
    str_contains(a.name@, name)
}

/// Some desired label name occurs in this label's name.
pub open spec fn label_matches(l: Label, desired: Seq<String>) -> bool {
    exists|d: int| 0 <= d < desired.len() && str_contains(l.name@, #[trigger] desired[d]@)
}

/// Picks the region to render for a search string: the first region whose
/// name contains it or, checking each region's direct sub-regions before
/// moving on, the first sub-region whose name contains it. Returns the
/// region's index, paired with the sub-region's index when a sub-region
/// matched.
pub fn select_region(regions: &Vec<RegionData>, region_name: &str) -> (r: Option<
    (usize, Option<usize>),
>)
    ensures
        match r {
            None => forall|i: int|
                0 <= i < regions@.len() ==> !region_matches(#[trigger] regions@[i], region_name@)
                    && !any_child_matches(regions@[i], region_name@),
            Some((i, sub)) => {
                &&& i < regions@.len()
                &&& forall|j: int|
                    0 <= j < i ==> !region_matches(#[trigger] regions@[j], region_name@)
                        && !any_child_matches(regions@[j], region_name@)
                &&& match sub {
                    None => region_matches(regions@[i as int], region_name@),
                    Some(k) => {
                        &&& k < regions@[i as int].children@.len()
                        &&& !region_matches(regions@[i as int], region_name@)
                        &&& region_matches(
                            regions@[i as int].children@[k as int],
                            region_name@,
                        )
                        &&& forall|k2: int|
                            0 <= k2 < k ==> !region_matches(
                                #[trigger] regions@[i as int].children@[k2],
                                region_name@,
                            )
                    },
                }
            },
        },
{
    let n = regions.len();
    let mut i: usize = 0;
    while i < n
        invariant
            i <= n,
            n == regions@.len(),
            forall|j: int|
                0 <= j < i ==> !region_matches(#[trigger] regions@[j], region_name@)
                    && !any_child_matches(regions@[j], region_name@),
        decreases n - i,
    {
        let region = &regions[i];
        if contains_str(region.name.as_str(), region_name) {
            return Some((i, None));
        }
        let m = region.children.len();
        let mut k: usize = 0;
        while k < m
            invariant
                k <= m,
                i < n,
                n == regions@.len(),
                m == regions@[i as int].children@.len(),
                region == &regions@[i as int],
                !region_matches(regions@[i as int], region_name@),
                forall|k2: int|
                    0 <= k2 < k ==> !region_matches(
                        #[trigger] regions@[i as int].children@[k2],
                        region_name@,
                    ),
                forall|j: int|
                    0 <= j < i ==> !region_matches(#[trigger] regions@[j], region_name@)
                        && !any_child_matches(regions@[j], region_name@),
            decreases m - k,
        {
            if contains_str(region.children[k].name.as_str(), region_name) {
                return Some((i, Some(k)));
            }
            k = k + 1;
        }
        proof {
            if any_child_matches(regions@[i as int], region_name@) {
                let kw = choose|kw: int|
                    0 <= kw < regions@[i as int].children@.len() && region_matches(
                        #[trigger] regions@[i as int].children@[kw],
                        region_name@,
                    );
                assert(!region_matches(regions@[i as int].children@[kw], region_name@));
            }
        }
        i = i + 1;
    }
    None
}

/// Picks the area to render for a search string: the first area whose name
/// contains it.
pub fn find_area(areas: &Vec<AreaData>, area_name: &str) -> (r: Option<usize>)
    ensures
        match r {
            None => forall|i: int|
                0 <= i < areas@.len() ==> !area_matches(#[trigger] areas@[i], area_name@),
            Some(i) => {
                &&& i < areas@.len()
                &&& area_matches(areas@[i as int], area_name@)
                &&& forall|j: int| 0 <= j < i ==> !area_matches(#[trigger] areas@[j], area_name@)
            },
        },
{
    let n = areas.len();
    let mut i: usize = 0;
    while i < n
        invariant
            i <= n,
            n == areas@.len(),
            forall|j: int| 0 <= j < i ==> !area_matches(#[trigger] areas@[j], area_name@),
        decreases n - i,
    {
        if contains_str(areas[i].name.as_str(), area_name) {
            return Some(i);
        }
        i = i + 1;
    }
    None
}

/// Whether this label's name contains any of the desired label names.
fn label_matches_exec(label: &Label, desired: &Vec<String>) -> (r: bool)
    ensures
        r == label_matches(*label, desired@),
{
    let n = desired.len();
    let mut d: usize = 0;
    while d < n
        invariant
            d <= n,
            n == desired@.len(),
            forall|d2: int|
                0 <= d2 < d ==> !str_contains(label.name@, #[trigger] desired@[d2]@),
        decreases n - d,
    {
        if contains_str(label.name.as_str(), desired[d].as_str()) {
            proof {
                assert(0 <= d < desired@.len() && str_contains(
                    label.name@,
                    desired@[d as int]@,
                ));
            }
            return true;
        }
        d = d + 1;
    }
    proof {
        if label_matches(*label, desired@) {
            let dw = choose|dw: int|
                0 <= dw < desired@.len() && str_contains(label.name@, #[trigger] desired@[dw]@);
            assert(!str_contains(label.name@, desired@[dw]@));
        }
    }
    false
}

/// The indices, in increasing order, of exactly those labels whose name
/// contains one of the desired label names.
pub fn matched_label_indices(labels: &Vec<Label>, desired: &Vec<String>) -> (r: Vec<usize>)
    ensures
        forall|t: int|
            0 <= t < r@.len() ==> #[trigger] r@[t] < labels@.len() && label_matches(
                labels@[r@[t] as int],
                desired@,
            ),
        forall|t1: int, t2: int| 0 <= t1 < t2 < r@.len() ==> r@[t1] < r@[t2],
        forall|i: int|
            0 <= i < labels@.len() && label_matches(#[trigger] labels@[i], desired@)
                ==> exists|t: int| 0 <= t < r@.len() && r@[t] == i,
{
    let n = labels.len();
    let mut r: Vec<usize> = Vec::new();
    let mut i: usize = 0;
    while i < n
        invariant
            i <= n,
            n == labels@.len(),
            forall|t: int|
                0 <= t < r@.len() ==> #[trigger] r@[t] < i && label_matches(
                    labels@[r@[t] as int],
                    desired@,
                ),
            forall|t1: int, t2: int| 0 <= t1 < t2 < r@.len() ==> r@[t1] < r@[t2],
            forall|j: int|
                0 <= j < i && label_matches(#[trigger] labels@[j], desired@)
                    ==> exists|t: int| 0 <= t < r@.len() && r@[t] == j,
        decreases n - i,
    {
        let ghost r_old = r@;
        if label_matches_exec(&labels[i], desired) {
            r.push(i);
        }
        proof {
            assert forall|j: int|
                0 <= j < i + 1 && label_matches(#[trigger] labels@[j], desired@) implies exists|
                t: int,
            | 0 <= t < r@.len() && r@[t] == j by {
                if j == i {
                    assert(r@[r@.len() - 1] == i);
                } else {
                    let t = choose|t: int| 0 <= t < r_old.len() && r_old[t] == j;
                    assert(r@[t] == j);
                }
            }
        }
        i = i + 1;
    }
    r
}

/// The absolute frames, in order, of exactly those regions that carry the
/// given area id.
pub open spec fn area_frames_spec(regions: Seq<RegionData>, area_id: u8, origin: Point) -> Seq<
    Rect,
>
    decreases regions.len(),
{
    if regions.len() == 0 {
        Seq::empty()
    } else {
        let rest = area_frames_spec(regions.drop_last(), area_id, origin);
        if regions.last().area_id == area_id {
            rest.push(regions.last().abs_frame_spec(origin))
        } else {
            rest
        }
    }
}

/// A region carrying the area id contributes a frame: the frame list of a
/// sequence containing such a region is non-empty.
proof fn lemma_area_frames_nonempty(regions: Seq<RegionData>, area_id: u8, origin: Point, j: int)
    requires
        0 <= j < regions.len(),
        regions[j].area_id == area_id,
    ensures
        area_frames_spec(regions, area_id, origin).len() > 0,
    decreases regions.len(),
{
    if j < regions.len() - 1 {
        lemma_area_frames_nonempty(regions.drop_last(), area_id, origin, j);
    }
}

/// The frame to composite for an area: the bounding rectangle of the
/// absolute frames of the regions that carry the area's id. Fails explicitly
/// when no region carries it.
pub fn area_frame(regions: &Vec<RegionData>, area_id: u8, origin: Point) -> (r: Result<
    Rect,
    GeometryError,
>)
    requires
        forall|i: int|
            0 <= i < regions@.len() && (#[trigger] regions@[i]).area_id == area_id
                ==> regions@[i].abs_frame_in_range(origin),
    ensures
        match r {
            Ok(b) => {
                &&& area_frames_spec(regions@, area_id, origin).len() > 0
                &&& b == bounding_spec(area_frames_spec(regions@, area_id, origin))
            },
            Err(e) => {
                &&& forall|i: int|
                    0 <= i < regions@.len() ==> (#[trigger] regions@[i]).area_id != area_id
                &&& e == GeometryError::EmptyRegionSet
            },
        },
{
    let n = regions.len();
    let mut frames: Vec<Rect> = Vec::new();
    let mut i: usize = 0;
    while i < n
        invariant
            i <= n,
            n == regions@.len(),
            forall|j: int|
                0 <= j < regions@.len() && (#[trigger] regions@[j]).area_id == area_id
                    ==> regions@[j].abs_frame_in_range(origin),
            frames@ == area_frames_spec(regions@.take(i as int), area_id, origin),
        decreases n - i,
    {
        let region = &regions[i];
        proof {
            assert(regions@.take(i + 1).drop_last() =~= regions@.take(i as int));
            assert(regions@.take(i + 1).last() == regions@[i as int]);
        }
        if region.area_id == area_id {
            let frame = region.get_abs_frame(&origin);
            frames.push(frame);
        }
        i = i + 1;
    }
    proof {
        assert(regions@.take(n as int) =~= regions@);
        if frames@.len() == 0 {
            assert forall|j: int|
                0 <= j < regions@.len() implies (#[trigger] regions@[j]).area_id != area_id by {
                if regions@[j].area_id == area_id {
                    lemma_area_frames_nonempty(regions@, area_id, origin, j);
                }
            }
        }
    }
    bounding_rect(&frames)
}

} // verus!
