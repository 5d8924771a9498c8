//! Ring classification and polygon assembly.
//!
//! Each simple ring is labelled exterior or interior by even-odd ray
//! casting: from a vertex of the ring, a ray runs leftward, and crossings
//! with every edge of every other ring are counted. A vertex whose ray
//! degenerately grazes an edge or another vertex is abandoned and the next
//! vertex of the same ring tried; if every vertex grazes, the last count
//! stands. An even count means exterior, odd means interior. Classified
//! rings are then grouped into polygons: interiors are assigned to the
//! exterior that encloses them, largest bounding box first.

use vstd::prelude::*;
use crate::geom::{Point, LineString, Polygon, PolyView, MultiPolygon};
use crate::intersect::{spec_min, spec_max};

verus! {

/// How the leftward ray from a point relates to one edge.
#[derive(PartialEq, Eq, Clone, Copy, Debug, Structural)]
pub enum Crossing {
    /// Definitely no meeting.
    No,
    /// The ray crosses the edge at one interior point.
    Yes,
    /// Degenerate: the point is an edge endpoint, lies on the edge's line,
    /// or the edge runs along the ray.
    Touches,
    /// The ray passes through one edge endpoint and the other endpoint is
    /// below the ray.
    OneEndOnOtherBelow,
    /// The ray passes through one edge endpoint and the other endpoint is
    /// above the ray.
    OneEndOnOtherAbove,
}

/// A ring is either the outline of a polygon or a hole in one.
#[derive(PartialEq, Eq, Clone, Copy, Debug, Structural)]
pub enum RingType {
    Exterior,
    Interior,
}

/// How the infinite leftward ray from pt relates to the edge p1-p2.
pub open spec fn spec_ray_crossing(pt: Point, p1: Point, p2: Point) -> Crossing {
    let x = pt.x as int;
    let y = pt.y as int;
    let x1 = p1.x as int;
    let y1 = p1.y as int;
    let x2 = p2.x as int;
    let y2 = p2.y as int;
    if (y1 > y && y2 > y) || (y1 < y && y2 < y) || (x1 > x && x2 > x) {
        // the edge is entirely above, below, or to the right of the point
        Crossing::No
    } else if (x == x1 && y == y1) || (x == x2 && y == y2) || ((x2 - x1) * (y - y1) == (x - x1) * (
    y2 - y1)) || (y1 == y2 && y1 == y) {
        Crossing::Touches
    } else if (y1 == y && x1 < x && y2 < y) || (y2 == y && x2 < x && y1 < y) {
        Crossing::OneEndOnOtherBelow
    } else if (y1 == y && x1 < x && y2 > y) || (y2 == y && x2 < x && y1 > y) {
        Crossing::OneEndOnOtherAbove
    } else if (x1 < x || x2 < x) && ((y1 > y && y2 < y) || (y1 < y && y2 > y)) {
        Crossing::Yes
    } else {
        Crossing::No
    }
}

/// Does the infinite leftward ray from `point` meet the edge p1-p2, and how?
pub fn does_ray_cross(point: &Point, p1: &Point, p2: &Point) -> (r: Crossing)
    requires
        p1 != p2,
    ensures
        r == spec_ray_crossing(*point, *p1, *p2),
{
    let x = point.x;
    let y = point.y;
    let x1 = p1.x;
    let y1 = p1.y;
    let x2 = p2.x;
    let y2 = p2.y;
    if (y1 > y && y2 > y) || (y1 < y && y2 < y) || (x1 > x && x2 > x) {
        return Crossing::No;
    }
    let dx21 = (x2 as i128) - (x1 as i128);
    let dyp1 = (y as i128) - (y1 as i128);
    let dxp1 = (x as i128) - (x1 as i128);
    let dy21 = (y2 as i128) - (y1 as i128);
    proof {
        crate::intersect::lemma_mul_bound(dx21 as int, dyp1 as int, 0x1_0000_0000, 0x1_0000_0000);
        crate::intersect::lemma_mul_bound(dxp1 as int, dy21 as int, 0x1_0000_0000, 0x1_0000_0000);
    }
    let lhs = dx21 * dyp1;
    let rhs = dxp1 * dy21;
    if (x == x1 && y == y1) || (x == x2 && y == y2) || lhs == rhs || (y1 == y2 && y1 == y) {
        return Crossing::Touches;
    }
    if (y1 == y && x1 < x && y2 < y) || (y2 == y && x2 < x && y1 < y) {
        return Crossing::OneEndOnOtherBelow;
    }
    if (y1 == y && x1 < x && y2 > y) || (y2 == y && x2 < x && y1 > y) {
        return Crossing::OneEndOnOtherAbove;
    }
    if (x1 < x || x2 < x) && ((y1 > y && y2 < y) || (y1 < y && y2 > y)) {
        return Crossing::Yes;
    }
    Crossing::No
}

/// The views of a list of rings.
pub open spec fn spec_views(rs: Seq<LineString>) -> Seq<Seq<Point>> {
    Seq::new(rs.len(), |i: int| rs[i]@)
}

/// Scanning the first s edges of one ring with the ray from pt: whether a
/// degenerate touch was met, and the crossings counted before that.
/// Zero-length edges meet nothing.
pub open spec fn spec_scan_ring_seg(pt: Point, rv: Seq<Point>, s: int) -> (bool, int)
    decreases s,
{
    if s <= 0 {
        (false, 0)
    } else {
        let prev = spec_scan_ring_seg(pt, rv, s - 1);
        if prev.0 {
            prev
        } else if rv[s - 1] == rv[s] {
            prev
        } else {
            match spec_ray_crossing(pt, rv[s - 1], rv[s]) {
                Crossing::Touches => (true, prev.1),
                Crossing::Yes => (false, prev.1 + 1),
                Crossing::OneEndOnOtherBelow => (false, prev.1 + 1),
                _ => prev,
            }
        }
    }
}

/// Scanning the first r rings (the one at index skip left out): whether a
/// touch was met, and the crossings counted before that.
pub open spec fn spec_scan_rings(pt: Point, rvs: Seq<Seq<Point>>, skip: int, r: int) -> (bool, int)
    decreases r,
{
    if r <= 0 {
        (false, 0)
    } else {
        let prev = spec_scan_rings(pt, rvs, skip, r - 1);
        if prev.0 {
            prev
        } else if r - 1 == skip {
            prev
        } else {
            let rv = rvs[r - 1];
            let segs = if rv.len() == 0 {
                0int
            } else {
                rv.len() - 1
            };
            let cur = spec_scan_ring_seg(pt, rv, segs);
            (cur.0, prev.1 + cur.1)
        }
    }
}

/// The crossing count that classifies the ring, starting the search for a
/// clean ray at vertex i: the first vertex whose ray meets no degenerate
/// touch decides; if every vertex touches, the last one's count stands.
pub open spec fn spec_ring_crossings(ring: Seq<Point>, skip: int, rvs: Seq<Seq<Point>>, i: int) -> int
    decreases ring.len() - i,
{
    if i < 0 || i >= ring.len() {
        0
    } else {
        let sc = spec_scan_rings(ring[i], rvs, skip, rvs.len() as int);
        if !sc.0 {
            sc.1
        } else if i + 1 < ring.len() {
            spec_ring_crossings(ring, skip, rvs, i + 1)
        } else {
            sc.1
        }
    }
}

/// Exterior iff the ring's classifying crossing count is even.
pub open spec fn spec_ring_type(ring: Seq<Point>, skip: int, rvs: Seq<Seq<Point>>) -> RingType {
    if spec_ring_crossings(ring, skip, rvs, 0) % 2 == 0 {
        RingType::Exterior
    } else {
        RingType::Interior
    }
}

/// Whether the classifying crossing count of `ring` against all rings of
/// `all` except the one at index `skip` is odd.
fn crossings_parity(ring: &LineString, skip: usize, all: &Vec<LineString>) -> (odd: bool)
    requires
        ring@.len() >= 1,
    ensures
        odd == (spec_ring_crossings(ring@, skip as int, spec_views(all@), 0) % 2 != 0),
{
    let ghost rvs = spec_views(all@);
    let n = ring.0.len();
    let mut si: usize = 0;
    let mut odd: bool = false;
    loop
        invariant
            n == ring@.len(),
            n >= 1,
            si < n,
            rvs == spec_views(all@),
            spec_ring_crossings(ring@, skip as int, rvs, si as int) == spec_ring_crossings(
                ring@,
                skip as int,
                rvs,
                0,
            ),
        ensures
            odd == (spec_ring_crossings(ring@, skip as int, rvs, 0) % 2 != 0),
        decreases n - si,
    {
        let pt = ring.0[si];
        let mut touched: bool = false;
        odd = false;
        let rcount = all.len();
        let mut ri: usize = 0;
        while ri < rcount
            invariant
                rcount == all@.len(),
                rvs == spec_views(all@),
                ri <= rcount,
                pt == ring@[si as int],
                si < n,
                n == ring@.len(),
                touched == spec_scan_rings(pt, rvs, skip as int, ri as int).0,
                odd == (spec_scan_rings(pt, rvs, skip as int, ri as int).1 % 2 != 0),
            decreases rcount - ri,
        {
            if ri != skip && !touched {
                let cur = &all[ri];
                proof {
                    assert(cur@ == rvs[ri as int]);
                }
                let rl = cur.0.len();
                let segs: usize = if rl == 0 { 0 } else { rl - 1 };
                let ghost c0 = spec_scan_rings(pt, rvs, skip as int, ri as int).1;
                let mut sj: usize = 0;
                while sj < segs
                    invariant
                        sj <= segs,
                        cur@ == rvs[ri as int],
                        segs as int == (if rvs[ri as int].len() == 0 {
                            0int
                        } else {
                            rvs[ri as int].len() - 1
                        }),
                        touched == spec_scan_ring_seg(pt, cur@, sj as int).0,
                        odd == ((c0 + spec_scan_ring_seg(pt, cur@, sj as int).1) % 2 != 0),
                        spec_scan_ring_seg(pt, cur@, sj as int).1 >= 0,
                    decreases segs - sj,
                {
                    if !touched {
                        let a = cur.0[sj];
                        let b = cur.0[sj + 1];
                        if !(a == b) {
                            match does_ray_cross(&pt, &a, &b) {
                                Crossing::Touches => {
                                    touched = true;
                                },
                                Crossing::Yes | Crossing::OneEndOnOtherBelow => {
                                    odd = !odd;
                                },
                                _ => {},
                            }
                        }
                    }
                    sj = sj + 1;
                }
                proof {
                    assert(spec_scan_rings(pt, rvs, skip as int, ri + 1) == (
                        spec_scan_ring_seg(pt, cur@, segs as int).0,
                        c0 + spec_scan_ring_seg(pt, cur@, segs as int).1,
                    ));
                }
            }
            ri = ri + 1;
        }
        if !touched {
            break;
        }
        if si == n - 1 {
            break;
        }
        si = si + 1;
    }
    odd
}

/// Labels the ring at index ring_index of all_rings as exterior or
/// interior by even-odd ray casting against all the other rings at once.
pub fn is_ring_ext_int(ring: &LineString, ring_index: usize, all_rings: &Vec<LineString>) -> (r:
    RingType)
    requires
        ring@.len() >= 1,
    ensures
        r == spec_ring_type(ring@, ring_index as int, spec_views(all_rings@)),
{
    if crossings_parity(ring, ring_index, all_rings) {
        RingType::Interior
    } else {
        RingType::Exterior
    }
}

/// Labels every ring of the set against all the others.
pub fn calc_rings_ext_int(rings: Vec<LineString>) -> (r: Vec<(LineString, RingType)>)
    requires
        forall|k: int| 0 <= k < rings@.len() ==> (#[trigger] rings@[k])@.len() >= 1,
    ensures
        r@.len() == rings@.len(),
        forall|k: int| 0 <= k < r@.len() ==> (#[trigger] r@[k]).0@ == rings@[k]@ && r@[k].1
            == spec_ring_type(rings@[k]@, k, spec_views(rings@)),
{
    let m = rings.len();
    let mut out: Vec<(LineString, RingType)> = Vec::new();
    let mut k: usize = 0;
    while k < m
        invariant
            k <= m,
            m == rings@.len(),
            forall|t: int| 0 <= t < m ==> (#[trigger] rings@[t])@.len() >= 1,
            out@.len() == k,
            forall|t: int| 0 <= t < k ==> (#[trigger] out@[t]).0@ == rings@[t]@ && out@[t].1
                == spec_ring_type(rings@[t]@, t, spec_views(rings@)),
        decreases m - k,
    {
        let ring = &rings[k];
        let ty = is_ring_ext_int(ring, k, &rings);
        out.push((ring.duplicate(), ty));
        k = k + 1;
    }
    out
}


/// The bounding box (xmin, xmax, ymin, ymax) of a non-empty point sequence.
pub open spec fn spec_bbox(s: Seq<Point>) -> (int, int, int, int)
    decreases s.len(),
{
    if s.len() <= 1 {
        (s[0].x as int, s[0].x as int, s[0].y as int, s[0].y as int)
    } else {
        let prev = spec_bbox(s.drop_last());
        let p = s[s.len() - 1];
        (
            spec_min(prev.0, p.x as int),
            spec_max(prev.1, p.x as int),
            spec_min(prev.2, p.y as int),
            spec_max(prev.3, p.y as int),
        )
    }
}

/// The area of the bounding box of a ring.
pub open spec fn spec_bbox_area(s: Seq<Point>) -> int {
    let b = spec_bbox(s);
    (b.1 - b.0) * (b.3 - b.2)
}

/// The area of the ring's bounding box, used to order candidate exterior
/// rings from largest to smallest.
pub fn bbox_area(r: &LineString) -> (a: i128)
    requires
        r@.len() >= 1,
    ensures
        a == spec_bbox_area(r@),
{
    let n = r.0.len();
    let p0 = r.0[0];
    let mut xmin = p0.x;
    let mut xmax = p0.x;
    let mut ymin = p0.y;
    let mut ymax = p0.y;
    let mut i: usize = 1;
    while i < n
        invariant
            1 <= i <= n,
            n == r@.len(),
            (xmin as int, xmax as int, ymin as int, ymax as int) == spec_bbox(r@.take(i as int)),
        decreases n - i,
    {
        let p = r.0[i];
        proof {
            assert(r@.take(i + 1).drop_last() =~= r@.take(i as int));
            assert(r@.take(i + 1)[i as int] == r@[i as int]);
        }
        if p.x < xmin {
            xmin = p.x;
        }
        if p.x > xmax {
            xmax = p.x;
        }
        if p.y < ymin {
            ymin = p.y;
        }
        if p.y > ymax {
            ymax = p.y;
        }
        i = i + 1;
    }
    proof {
        assert(r@.take(n as int) =~= r@);
        crate::intersect::lemma_mul_bound(
            (xmax - xmin) as int,
            (ymax - ymin) as int,
            0x1_0000_0000,
            0x1_0000_0000,
        );
    }
    ((xmax as i128) - (xmin as i128)) * ((ymax as i128) - (ymin as i128))
}

/// The ring `inner` starts inside the closed ring `outer`: the classifying
/// leftward-ray count from inner's vertices against outer's edges is odd.
pub open spec fn spec_ring_encloses(outer: Seq<Point>, inner: Seq<Point>) -> bool {
    spec_ring_crossings(inner, 1, seq![outer], 0) % 2 != 0
}

/// Even-odd test of whether the ring `inner` lies inside `outer`, used only
/// to assign a hole to its exterior among several candidates.
pub fn polygon_contains_ring(outer: &LineString, inner: &LineString) -> (r: bool)
    requires
        inner@.len() >= 1,
    ensures
        r == spec_ring_encloses(outer@, inner@),
{
    let mut v: Vec<LineString> = Vec::new();
    v.push(outer.duplicate());
    let odd = crossings_parity(inner, 1, &v);
    proof {
        assert(spec_views(v@) =~= seq![outer@]);
    }
    odd
}

/// The polygon value appears somewhere in the source list.
pub open spec fn spec_poly_among(p: PolyView, src: Seq<Polygon>) -> bool {
    exists|t: int| 0 <= t < src.len() && p == (#[trigger] src[t])@
}

/// The ring value appears somewhere in the source list.
pub open spec fn spec_ring_among(r: Seq<Point>, src: Seq<LineString>) -> bool {
    exists|t: int| 0 <= t < src.len() && r == (#[trigger] src[t])@
}

/// The ring value is the exterior of some polygon in the source list.
pub open spec fn spec_exterior_among(r: Seq<Point>, src: Seq<Polygon>) -> bool {
    exists|t: int| 0 <= t < src.len() && r == (#[trigger] src[t])@.exterior
}

/// The ring value appears somewhere in the sequence of ring values.
pub open spec fn spec_ring_in_views(r: Seq<Point>, views: Seq<Seq<Point>>) -> bool {
    exists|t: int| 0 <= t < views.len() && r == #[trigger] views[t]
}

/// Sorts candidate exterior polygons so the largest bounding boxes come
/// first; holes are then assigned to the first enclosing polygon in this
/// order.
fn sort_polygons_by_bbox_desc(polys: Vec<Polygon>) -> (r: Vec<Polygon>)
    requires
        forall|k: int| 0 <= k < polys@.len() ==> (#[trigger] polys@[k])@.exterior.len() >= 1,
    ensures
        r@.len() == polys@.len(),
        forall|k: int| 0 <= k < r@.len() ==> (#[trigger] r@[k])@.exterior.len() >= 1,
        forall|k: int| 0 <= k < r@.len() ==> spec_poly_among((#[trigger] r@[k])@, polys@),
        forall|a: int, b: int| 0 <= a < b < r@.len() ==> spec_bbox_area(
            (#[trigger] r@[a])@.exterior,
        ) >= spec_bbox_area((#[trigger] r@[b])@.exterior),
{
    let mut rest = polys;
    let ghost orig = rest@;
    let mut r: Vec<Polygon> = Vec::new();
    proof {
        assert forall|k: int| 0 <= k < rest@.len() implies spec_poly_among(
            (#[trigger] rest@[k])@,
            orig,
        ) by {
            assert(rest@[k]@ == orig[k]@);
        }
    }
    while rest.len() > 0
        invariant
            r@.len() + rest@.len() == orig.len(),
            forall|k: int| 0 <= k < rest@.len() ==> spec_poly_among((#[trigger] rest@[k])@, orig),
            forall|k: int| 0 <= k < r@.len() ==> spec_poly_among((#[trigger] r@[k])@, orig),
            forall|k: int| 0 <= k < rest@.len() ==> (#[trigger] rest@[k])@.exterior.len() >= 1,
            forall|k: int| 0 <= k < r@.len() ==> (#[trigger] r@[k])@.exterior.len() >= 1,
            forall|a: int, b: int| 0 <= a < b < r@.len() ==> spec_bbox_area(
                (#[trigger] r@[a])@.exterior,
            ) >= spec_bbox_area((#[trigger] r@[b])@.exterior),
        decreases rest@.len(),
    {
        let ghost old_rest = rest@;
        let x = rest.remove(0);
        proof {
            assert(x@ == old_rest[0]@);
            assert forall|k: int| 0 <= k < rest@.len() implies spec_poly_among(
                (#[trigger] rest@[k])@,
                orig,
            ) by {
                assert(rest@[k] == old_rest[k + 1]);
            }
            assert forall|k: int| 0 <= k < rest@.len() implies (
            #[trigger] rest@[k])@.exterior.len() >= 1 by {
                assert(rest@[k] == old_rest[k + 1]);
            }
        }
        let xa = bbox_area(&x.exterior);
        let mut pos: usize = 0;
        while pos < r.len()
            invariant
                pos <= r@.len(),
                xa == spec_bbox_area(x@.exterior),
                forall|k: int| 0 <= k < pos ==> spec_bbox_area((#[trigger] r@[k])@.exterior) > xa,
                forall|k: int| 0 <= k < r@.len() ==> (#[trigger] r@[k])@.exterior.len() >= 1,
                forall|a: int, b: int| 0 <= a < b < r@.len() ==> spec_bbox_area(
                    (#[trigger] r@[a])@.exterior,
                ) >= spec_bbox_area((#[trigger] r@[b])@.exterior),
            ensures
                pos <= r@.len(),
                pos == r@.len() || spec_bbox_area(r@[pos as int]@.exterior) <= xa,
                forall|k: int| 0 <= k < pos ==> spec_bbox_area((#[trigger] r@[k])@.exterior) > xa,
            decreases r@.len() - pos,
        {
            let pa = bbox_area(&r[pos].exterior);
            if pa <= xa {
                break;
            }
            pos = pos + 1;
        }
        let ghost old_r = r@;
        r.insert(pos, x);
        proof {
            assert forall|a: int, b: int| 0 <= a < b < r@.len() implies spec_bbox_area(
                (#[trigger] r@[a])@.exterior,
            ) >= spec_bbox_area((#[trigger] r@[b])@.exterior) by {
                if a < pos && b < pos {
                    assert(r@[a] == old_r[a] && r@[b] == old_r[b]);
                } else if a < pos && b == pos {
                    assert(r@[a] == old_r[a]);
                } else if a < pos && b > pos {
                    assert(r@[a] == old_r[a] && r@[b] == old_r[b - 1]);
                } else if a == pos && b > pos {
                    assert(r@[b] == old_r[b - 1]);
                    assert(spec_bbox_area(old_r[pos as int]@.exterior) <= xa);
                    if b - 1 > pos {
                        assert(spec_bbox_area(old_r[b - 1]@.exterior) <= spec_bbox_area(
                            old_r[pos as int]@.exterior,
                        ));
                    }
                } else if a > pos && b > pos {
                    assert(r@[a] == old_r[a - 1] && r@[b] == old_r[b - 1]);
                }
            }
            assert forall|k: int| 0 <= k < r@.len() implies spec_poly_among(
                (#[trigger] r@[k])@,
                orig,
            ) by {
                if k < pos {
                    assert(r@[k] == old_r[k]);
                } else if k > pos {
                    assert(r@[k] == old_r[k - 1]);
                } else {
                    assert(r@[k] == x);
                    assert(x@ == old_rest[0]@);
                    assert(spec_poly_among(old_rest[0]@, orig));
                }
            }
            assert forall|k: int| 0 <= k < r@.len() implies (#[trigger] r@[k])@.exterior.len()
                >= 1 by {
                if k < pos {
                    assert(r@[k] == old_r[k]);
                } else if k > pos {
                    assert(r@[k] == old_r[k - 1]);
                }
            }
        }
    }
    r
}

/// The ring stands among the polygon's interior rings.
pub open spec fn spec_holds_interior(p: Polygon, inner: Seq<Point>) -> bool {
    exists|j: int| 0 <= j < p@.interiors.len() && p@.interiors[j] == inner
}

/// The ring was attached to the first polygon of the list whose exterior
/// encloses it: no earlier polygon encloses it, and that polygon now holds
/// it as an interior ring.
pub open spec fn spec_assigned_first_enclosing(ps: Seq<Polygon>, inner: Seq<Point>) -> bool {
    exists|k: int|
        0 <= k < ps.len() && spec_ring_encloses((#[trigger] ps[k])@.exterior, inner) && (
        forall|k2: int| 0 <= k2 < k ==> !spec_ring_encloses(ps[k2]@.exterior, inner))
            && spec_holds_interior(ps[k], inner)
}

/// No polygon of the list encloses the ring.
pub open spec fn spec_enclosed_by_none(ps: Seq<Polygon>, inner: Seq<Point>) -> bool {
    forall|k: int| 0 <= k < ps.len() ==> !spec_ring_encloses((#[trigger] ps[k])@.exterior, inner)
}

/// Assigns each interior ring to an exterior polygon. With one polygon,
/// every interior belongs to it; with several, polygons are ordered by
/// descending bounding-box area and each interior goes to the first that
/// encloses it; an interior enclosed by none is dropped. The polygons
/// handed in must not carry interiors already.
pub fn distribute_interiors(polygons: &mut Vec<Polygon>, interiors: Vec<LineString>)
    requires
        old(polygons)@.len() > 0 || interiors@.len() == 0,
        forall|k: int| 0 <= k < old(polygons)@.len() ==> (#[trigger] old(
            polygons,
        )@[k])@.exterior.len() >= 1,
        forall|k: int| 0 <= k < old(polygons)@.len() ==> (#[trigger] old(
            polygons,
        )@[k])@.interiors.len() == 0,
        forall|t: int| 0 <= t < interiors@.len() ==> (#[trigger] interiors@[t])@.len() >= 1,
    ensures
        old(polygons)@.len() == 0 || interiors@.len() == 0 ==> final(polygons)@ == old(polygons)@,
        old(polygons)@.len() == 1 && interiors@.len() > 0 ==> final(polygons)@.len() == 1
            && final(polygons)@[0]@.exterior == old(polygons)@[0]@.exterior
            && final(polygons)@[0]@.interiors == Seq::new(
            interiors@.len(),
            |i: int| interiors@[i]@,
        ),
        old(polygons)@.len() > 1 && interiors@.len() > 0 ==> {
            &&& final(polygons)@.len() == old(polygons)@.len()
            &&& forall|k: int| 0 <= k < final(polygons)@.len() ==> spec_exterior_among(
                (#[trigger] final(polygons)@[k])@.exterior,
                old(polygons)@,
            )
            &&& forall|k: int, j: int|
                0 <= k < final(polygons)@.len() && 0 <= j < final(polygons)@[k]@.interiors.len()
                    ==> spec_ring_among(
                    #[trigger] final(polygons)@[k]@.interiors[j],
                    interiors@,
                )
            &&& forall|a: int, b: int|
                0 <= a < b < final(polygons)@.len() ==> spec_bbox_area(
                    (#[trigger] final(polygons)@[a])@.exterior,
                ) >= spec_bbox_area((#[trigger] final(polygons)@[b])@.exterior)
            &&& forall|u: int|
                0 <= u < interiors@.len() ==> spec_assigned_first_enclosing(
                    final(polygons)@,
                    (#[trigger] interiors@[u])@,
                ) || spec_enclosed_by_none(final(polygons)@, interiors@[u]@)
        },
{
    if polygons.len() == 0 || interiors.len() == 0 {
        return;
    }
    if polygons.len() == 1 {
        let p = polygons.remove(0);
        let Polygon { exterior, interiors: _old_ints } = p;
        polygons.push(Polygon { exterior, interiors });
        proof {
            assert(final(polygons)@[0]@.interiors =~= Seq::new(
                interiors@.len(),
                |i: int| interiors@[i]@,
            ));
        }
        return;
    }

    let ghost orig = polygons@;
    let ghost iviews_src = interiors@;
    let ghost iviews = Seq::new(interiors@.len(), |i: int| interiors@[i]@);
    let mut taken: Vec<Polygon> = Vec::new();
    core::mem::swap(polygons, &mut taken);
    let mut sorted = sort_polygons_by_bbox_desc(taken);
    let ghost base = sorted@;
    proof {
        assert forall|k: int| 0 <= k < base.len() implies (#[trigger] base[k])@.interiors.len()
            == 0 by {
            assert(spec_poly_among(base[k]@, orig));
            let t = choose|t: int| 0 <= t < orig.len() && base[k]@ == (#[trigger] orig[t])@;
        }
    }

    let icount = interiors.len();
    let mut t: usize = 0;
    let mut rest = interiors;
    proof {
        assert forall|u: int| 0 <= u < rest@.len() implies (#[trigger] rest@[u])@ == iviews[
            0 + u
        ] by {
            assert(iviews[u] == rest@[u]@);
        }
    }
    while t < icount
        invariant
            t <= icount,
            icount == iviews.len(),
            icount == t + rest@.len(),
            forall|u: int| 0 <= u < rest@.len() ==> (#[trigger] rest@[u])@ == iviews[t + u],
            forall|u: int| 0 <= u < rest@.len() ==> (#[trigger] rest@[u])@.len() >= 1,
            sorted@.len() == base.len(),
            forall|k: int| 0 <= k < sorted@.len() ==> (#[trigger] sorted@[k])@.exterior
                == base[k]@.exterior,
            forall|k: int, j: int|
                0 <= k < sorted@.len() && 0 <= j < sorted@[k]@.interiors.len()
                    ==> spec_ring_in_views(#[trigger] sorted@[k]@.interiors[j], iviews),
            forall|a: int, b: int| 0 <= a < b < base.len() ==> spec_bbox_area(
                (#[trigger] base[a])@.exterior,
            ) >= spec_bbox_area((#[trigger] base[b])@.exterior),
            forall|u: int|
                0 <= u < t ==> spec_assigned_first_enclosing(sorted@, #[trigger] iviews[u])
                    || spec_enclosed_by_none(sorted@, iviews[u]),
        decreases icount - t,
    {
        let ghost old_rest = rest@;
        let inner = rest.remove(0);
        proof {
            assert(inner@ == old_rest[0]@);
            assert(inner@ == iviews[t as int]);
            assert forall|u: int| 0 <= u < rest@.len() implies (#[trigger] rest@[u])@ == iviews[
                t + 1 + u
            ] by {
                assert(rest@[u] == old_rest[u + 1]);
            }
            assert forall|u: int| 0 <= u < rest@.len() implies (#[trigger] rest@[u])@.len()
                >= 1 by {
                assert(rest@[u] == old_rest[u + 1]);
            }
        }
        let pcount = sorted.len();
        let mut k: usize = 0;
        while k < pcount
            invariant
                k <= pcount,
                pcount == sorted@.len(),
                inner@.len() >= 1,
                forall|k2: int|
                    0 <= k2 < k ==> !spec_ring_encloses(
                        (#[trigger] sorted@[k2])@.exterior,
                        inner@,
                    ),
            ensures
                k <= pcount,
                forall|k2: int|
                    0 <= k2 < k ==> !spec_ring_encloses(
                        (#[trigger] sorted@[k2])@.exterior,
                        inner@,
                    ),
                k < pcount ==> spec_ring_encloses(sorted@[k as int]@.exterior, inner@),
            decreases pcount - k,
        {
            if polygon_contains_ring(&sorted[k].exterior, &inner) {
                break;
            }
            k = k + 1;
        }
        if k < pcount {
            let ghost before = sorted@;
            let p = sorted.remove(k);
            let Polygon { exterior, interiors: mut p_ints } = p;
            p_ints.push(inner);
            sorted.insert(k, Polygon { exterior, interiors: p_ints });
            proof {
                assert(sorted@.len() == before.len());
                assert forall|u: int| 0 <= u < sorted@.len() implies (
                #[trigger] sorted@[u])@.exterior == base[u]@.exterior by {
                    if u != k {
                        assert(sorted@[u] == before[u]);
                    } else {
                        assert(sorted@[k as int]@.exterior == before[k as int]@.exterior);
                    }
                }
                assert forall|u: int, j: int|
                    0 <= u < sorted@.len() && 0 <= j < sorted@[u]@.interiors.len()
                    implies spec_ring_in_views(
                    #[trigger] sorted@[u]@.interiors[j],
                    iviews,
                ) by {
                    if u != k {
                        assert(sorted@[u] == before[u]);
                    } else {
                        if j < before[k as int]@.interiors.len() {
                            assert(sorted@[k as int]@.interiors[j]
                                == before[k as int]@.interiors[j]);
                        } else {
                            assert(sorted@[k as int]@.interiors[j] == inner@);
                            assert(spec_ring_in_views(iviews[t as int], iviews));
                        }
                    }
                }
                // this interior now sits in the first enclosing polygon
                let nj = sorted@[k as int]@.interiors.len() - 1;
                assert(sorted@[k as int]@.interiors[nj] == inner@);
                assert(spec_holds_interior(sorted@[k as int], inner@));
                assert forall|k2: int| 0 <= k2 < k implies !spec_ring_encloses(
                    sorted@[k2]@.exterior,
                    inner@,
                ) by {
                    assert(sorted@[k2] == before[k2]);
                }
                assert(spec_ring_encloses(sorted@[k as int]@.exterior, inner@));
                assert(spec_assigned_first_enclosing(sorted@, iviews[t as int]));
                // earlier interiors keep their assignment: no exterior
                // changed, and no interior list shrank
                assert forall|u: int| 0 <= u < t implies spec_assigned_first_enclosing(
                    sorted@,
                    #[trigger] iviews[u],
                ) || spec_enclosed_by_none(sorted@, iviews[u]) by {
                    if spec_assigned_first_enclosing(before, iviews[u]) {
                        let k0 = choose|k0: int|
                            0 <= k0 < before.len() && spec_ring_encloses(
                                (#[trigger] before[k0])@.exterior,
                                iviews[u],
                            ) && (forall|k2: int|
                                0 <= k2 < k0 ==> !spec_ring_encloses(
                                    before[k2]@.exterior,
                                    iviews[u],
                                )) && spec_holds_interior(before[k0], iviews[u]);
                        assert(sorted@[k0]@.exterior == before[k0]@.exterior);
                        assert forall|k2: int| 0 <= k2 < k0 implies !spec_ring_encloses(
                            sorted@[k2]@.exterior,
                            iviews[u],
                        ) by {
                            assert(sorted@[k2]@.exterior == before[k2]@.exterior);
                        }
                        if k0 != k {
                            assert(sorted@[k0] == before[k0]);
                            assert(spec_holds_interior(sorted@[k0], iviews[u]));
                        } else {
                            let j0 = choose|j0: int|
                                0 <= j0 < before[k0]@.interiors.len() && (
                                #[trigger] before[k0]@.interiors[j0]) == iviews[u];
                            assert(sorted@[k0]@.interiors[j0] == iviews[u]);
                            assert(spec_holds_interior(sorted@[k0], iviews[u]));
                        }
                        assert(spec_assigned_first_enclosing(sorted@, iviews[u]));
                    } else {
                        assert(spec_enclosed_by_none(before, iviews[u]));
                        assert forall|k2: int| 0 <= k2 < sorted@.len()
                            implies !spec_ring_encloses(
                            (#[trigger] sorted@[k2])@.exterior,
                            iviews[u],
                        ) by {
                            assert(sorted@[k2]@.exterior == before[k2]@.exterior);
                        }
                    }
                }
            }
        } else {
            proof {
                assert(spec_enclosed_by_none(sorted@, inner@));
                assert(spec_enclosed_by_none(sorted@, iviews[t as int]));
            }
        }
        t = t + 1;
    }
    core::mem::swap(polygons, &mut sorted);
    proof {
        assert forall|a: int, b: int| 0 <= a < b < final(polygons)@.len() implies spec_bbox_area(
            (#[trigger] final(polygons)@[a])@.exterior,
        ) >= spec_bbox_area((#[trigger] final(polygons)@[b])@.exterior) by {
            assert(final(polygons)@[a]@.exterior == base[a]@.exterior);
            assert(final(polygons)@[b]@.exterior == base[b]@.exterior);
        }
        assert forall|u: int| 0 <= u < iviews_src.len() implies spec_assigned_first_enclosing(
            final(polygons)@,
            (#[trigger] iviews_src[u])@,
        ) || spec_enclosed_by_none(final(polygons)@, iviews_src[u]@) by {
            assert(iviews_src[u]@ == iviews[u]);
        }
        assert forall|k: int| 0 <= k < final(polygons)@.len() implies spec_exterior_among(
            (#[trigger] final(polygons)@[k])@.exterior,
            orig,
        ) by {
            assert(final(polygons)@[k]@.exterior == base[k]@.exterior);
            assert(spec_poly_among(base[k]@, orig));
            let t2 = choose|t2: int| 0 <= t2 < orig.len() && base[k]@ == (#[trigger] orig[t2])@;
            assert(final(polygons)@[k]@.exterior == orig[t2]@.exterior);
        }
        assert forall|k: int, j: int|
            0 <= k < final(polygons)@.len() && 0 <= j < final(polygons)@[k]@.interiors.len()
            implies spec_ring_among(
            #[trigger] final(polygons)@[k]@.interiors[j],
            iviews_src,
        ) by {
            assert(spec_ring_in_views(final(polygons)@[k]@.interiors[j], iviews));
            let w = choose|w: int| 0 <= w < iviews.len() && final(polygons)@[k]@.interiors[j]
                == #[trigger] iviews[w];
            assert(final(polygons)@[k]@.interiors[j] == iviews_src[w]@);
        }
    }
}


/// How many of the first `upto` rings classify as exterior against the
/// whole set.
pub open spec fn spec_count_exteriors(rings: Seq<LineString>, upto: int) -> int
    decreases upto,
{
    if upto <= 0 {
        0
    } else {
        spec_count_exteriors(rings, upto - 1) + if spec_ring_type(
            rings[upto - 1]@,
            upto - 1,
            spec_views(rings),
        ) == RingType::Exterior {
            1int
        } else {
            0int
        }
    }
}

/// The rings among the first `upto` that classify as interior, in order.
pub open spec fn spec_interior_views(rings: Seq<LineString>, upto: int) -> Seq<Seq<Point>>
    decreases upto,
{
    if upto <= 0 {
        Seq::empty()
    } else {
        let prev = spec_interior_views(rings, upto - 1);
        if spec_ring_type(rings[upto - 1]@, upto - 1, spec_views(rings)) == RingType::Interior {
            prev.push(rings[upto - 1]@)
        } else {
            prev
        }
    }
}

/// The ring value is one of the source rings, at a position that the
/// even-odd classification labels exterior.
pub open spec fn spec_classified_exterior_among(e: Seq<Point>, rs: Seq<LineString>) -> bool {
    exists|k: int|
        0 <= k < rs.len() && spec_ring_type((#[trigger] rs[k])@, k, spec_views(rs))
            == RingType::Exterior && e == rs[k]@
}

/// Groups classified rings into polygons: each exterior ring becomes a
/// polygon, and every interior ring is assigned to an enclosing exterior.
/// Returns nothing when there are no rings at all, or when every ring
/// classifies as interior — the fully-interior case is an explicit
/// non-goal.
pub fn convert_rings_to_polygons(rings: Vec<LineString>) -> (r: Option<MultiPolygon>)
    requires
        forall|k: int| 0 <= k < rings@.len() ==> (#[trigger] rings@[k])@.len() >= 1,
    ensures
        rings@.len() == 0 ==> r is None,
        rings@.len() == 1 ==> (r matches Some(mp) && mp@.len() == 1 && mp@[0].exterior
            == rings@[0]@ && mp@[0].interiors.len() == 0),
        rings@.len() >= 2 ==> ((r is None) <==> (forall|k: int|
            0 <= k < rings@.len() ==> spec_ring_type((#[trigger] rings@[k])@, k, spec_views(rings@))
                == RingType::Interior)),
        rings@.len() >= 2 ==> (r matches Some(mp) ==> mp@.len() >= 1 && (forall|j: int|
            0 <= j < mp@.len() ==> spec_classified_exterior_among(
                (#[trigger] mp@[j]).exterior,
                rings@,
            ))),
        (rings@.len() >= 2 && spec_count_exteriors(rings@, rings@.len() as int) == 1) ==> (
        r matches Some(mp) && mp@.len() == 1 && mp@[0].interiors == spec_interior_views(
            rings@,
            rings@.len() as int,
        )),
{
    let n = rings.len();
    if n == 0 {
        return Option::None;
    }
    if n == 1 {
        let mut v = rings;
        let ring = v.remove(0);
        let p = Polygon::new(ring, Vec::new());
        let mut ps: Vec<Polygon> = Vec::new();
        ps.push(p);
        let mp = MultiPolygon(ps);
        proof {
            assert(mp@[0].exterior == rings@[0]@);
            assert(mp@[0].interiors.len() == 0);
        }
        return Option::Some(mp);
    }
    let ghost orig_rings = rings@;
    let ghost rviews = spec_views(rings@);
    let mut classified = calc_rings_ext_int(rings);
    let mut exteriors: Vec<LineString> = Vec::new();
    let mut interiors: Vec<LineString> = Vec::new();
    let ghost total = orig_rings.len();
    let mut t: usize = 0;
    while classified.len() > 0
        invariant
            t + classified@.len() == total,
            total == orig_rings.len(),
            total == n as int,
            rviews == spec_views(orig_rings),
            forall|u: int| 0 <= u < classified@.len() ==> (#[trigger] classified@[u]).0@
                == orig_rings[t + u]@ && classified@[u].1 == spec_ring_type(
                orig_rings[t + u]@,
                t + u,
                rviews,
            ),
            forall|k: int| 0 <= k < orig_rings.len() ==> (#[trigger] orig_rings[k])@.len() >= 1,
            forall|j: int| 0 <= j < exteriors@.len() ==> spec_classified_exterior_among(
                (#[trigger] exteriors@[j])@,
                orig_rings,
            ),
            forall|j: int| 0 <= j < exteriors@.len() ==> (#[trigger] exteriors@[j])@.len() >= 1,
            forall|j: int| 0 <= j < interiors@.len() ==> (#[trigger] interiors@[j])@.len() >= 1,
            (exteriors@.len() == 0) <==> (forall|k: int|
                0 <= k < t ==> spec_ring_type((#[trigger] orig_rings[k])@, k, rviews)
                    == RingType::Interior),
            exteriors@.len() == spec_count_exteriors(orig_rings, t as int),
            spec_views(interiors@) == spec_interior_views(orig_rings, t as int),
        decreases classified@.len(),
    {
        let ghost old_c = classified@;
        let (ring, ty) = classified.remove(0);
        proof {
            assert(ring@ == orig_rings[t as int]@);
            assert(ty == spec_ring_type(orig_rings[t as int]@, t as int, rviews));
            assert forall|u: int| 0 <= u < classified@.len() implies (
            #[trigger] classified@[u]).0@ == orig_rings[t + 1 + u]@ && classified@[u].1
                == spec_ring_type(orig_rings[t + 1 + u]@, t + 1 + u, rviews) by {
                assert(classified@[u] == old_c[u + 1]);
            }
        }
        match ty {
            RingType::Exterior => {
                exteriors.push(ring);
                proof {
                    assert(spec_classified_exterior_among(
                        orig_rings[t as int]@,
                        orig_rings,
                    ));
                    assert(spec_views(interiors@) =~= spec_interior_views(
                        orig_rings,
                        t + 1,
                    ));
                }
            },
            RingType::Interior => {
                interiors.push(ring);
                proof {
                    assert(spec_views(interiors@) =~= spec_interior_views(
                        orig_rings,
                        t + 1,
                    ));
                }
            },
        }
        t = t + 1;
    }
    if exteriors.len() == 0 {
        return Option::None;
    }
    // one polygon per exterior ring
    let ghost ext_views = spec_views(exteriors@);
    let mut polygons: Vec<Polygon> = Vec::new();
    while exteriors.len() > 0
        invariant
            polygons@.len() + exteriors@.len() == ext_views.len(),
            forall|j: int| 0 <= j < exteriors@.len() ==> (#[trigger] exteriors@[j])@ == ext_views[
                polygons@.len() + j
            ],
            forall|j: int| 0 <= j < ext_views.len() ==> spec_classified_exterior_among(
                #[trigger] ext_views[j],
                orig_rings,
            ) && ext_views[j].len() >= 1,
            forall|j: int| 0 <= j < polygons@.len() ==> (#[trigger] polygons@[j])@.exterior
                == ext_views[j] && polygons@[j]@.interiors.len() == 0 && polygons@[
                j
            ]@.exterior.len() >= 1,
        decreases exteriors@.len(),
    {
        let ghost old_e = exteriors@;
        let e = exteriors.remove(0);
        proof {
            assert(e@ == ext_views[polygons@.len() as int]);
            assert forall|j: int| 0 <= j < exteriors@.len() implies (#[trigger] exteriors@[j])@
                == ext_views[polygons@.len() + 1 + j] by {
                assert(exteriors@[j] == old_e[j + 1]);
            }
        }
        polygons.push(Polygon::new(e, Vec::new()));
    }
    let ghost pre = polygons@;
    let ghost ivs = spec_views(interiors@);
    if polygons.len() == 1 {
        // a single exterior: every interior belongs to it
        let p = polygons.remove(0);
        let Polygon { exterior, interiors: _none } = p;
        polygons.push(Polygon { exterior, interiors });
        proof {
            assert(polygons@[0]@.exterior == pre[0]@.exterior);
            assert(polygons@[0]@.interiors =~= ivs);
        }
    } else {
        distribute_interiors(&mut polygons, interiors);
    }
    let mp = MultiPolygon(polygons);
    proof {
        assert(mp@.len() >= 1);
        if spec_count_exteriors(orig_rings, orig_rings.len() as int) == 1 {
            assert(mp@.len() == 1);
            assert(mp@[0].interiors == mp.0@[0]@.interiors);
            assert(mp@[0].interiors == spec_interior_views(orig_rings, orig_rings.len() as int));
        }
        assert forall|j: int| 0 <= j < mp@.len() implies spec_classified_exterior_among(
            (#[trigger] mp@[j]).exterior,
            orig_rings,
        ) by {
            assert(mp@[j].exterior == mp.0@[j]@.exterior);
            if pre.len() == 1 {
                assert(mp.0@[j]@.exterior == pre[0]@.exterior);
                assert(pre[0]@.exterior == ext_views[0]);
            } else if mp.0@ == pre {
                assert(mp.0@[j]@.exterior == ext_views[j]);
            } else {
                assert(spec_exterior_among(mp.0@[j]@.exterior, pre));
                let t2 = choose|t2: int|
                    0 <= t2 < pre.len() && mp.0@[j]@.exterior == (#[trigger] pre[t2])@.exterior;
                assert(pre[t2]@.exterior == ext_views[t2]);
            }
        }
    }
    Option::Some(mp)
}

} // verus!
