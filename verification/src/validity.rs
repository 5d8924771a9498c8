//! Deciding whether a geometry is valid.
//!
//! A ring is valid once it is closed, has at least four distinct points
//! after collapsing consecutive duplicates, is not collapsed onto a single
//! point, repeats no point twice in a row, and no two of its edges cross,
//! touch or overlap. On top of that a polygon must follow the tile-space
//! winding convention: because the Y axis grows downward, the exterior ring
//! must not be counter-clockwise and interior rings must not be clockwise.
//!
//! `is_valid` runs the full check including the quadratic edge-pair scan;
//! `is_valid_skip_expensive` runs only the cheap structural part.

use vstd::prelude::*;
use crate::geom::{Point, LineString, Polygon, MultiPolygon, MultiLineString, Geometry, PolyView,
    GeomView};
use crate::intersect::{Intersection, spec_intersection, intersection};

verus! {

/// One term of the shoelace sum for the signed double area.
pub open spec fn spec_cross_term(p: Point, q: Point) -> int {
    p.x * q.y - q.x * p.y
}

/// Twice the signed area of the (closed) line string, by the shoelace
/// formula. In tile space, negative means clockwise.
pub open spec fn spec_twice_area(s: Seq<Point>) -> int
    decreases s.len(),
{
    if s.len() < 2 {
        0
    } else {
        spec_twice_area(s.drop_last()) + spec_cross_term(s[s.len() - 2], s[s.len() - 1])
    }
}

pub open spec fn spec_is_cw(s: Seq<Point>) -> bool {
    spec_twice_area(s) < 0
}

pub open spec fn spec_is_ccw(s: Seq<Point>) -> bool {
    spec_twice_area(s) > 0
}

/// Two consecutive points of the sequence are equal.
pub open spec fn spec_has_dup(s: Seq<Point>) -> bool {
    exists|i: int| 0 <= i < s.len() - 1 && #[trigger] s[i] == s[i + 1]
}

/// Every point of the sequence equals the first.
pub open spec fn spec_all_same(s: Seq<Point>) -> bool {
    forall|i: int| 0 <= i < s.len() ==> #[trigger] s[i] == s[0]
}

/// The number of points left once consecutive duplicates are collapsed.
pub open spec fn spec_num_excl_dup(s: Seq<Point>) -> int
    decreases s.len(),
{
    if s.len() <= 1 {
        s.len() as int
    } else {
        spec_num_excl_dup(s.drop_last()) + if s[s.len() - 2] == s[s.len() - 1] {
            0int
        } else {
            1int
        }
    }
}

/// Edges i and j of the line string (both of nonzero length) cross, touch
/// or overlap: the pair makes the ring self-intersecting.
pub open spec fn spec_seg_pair_bad(s: Seq<Point>, i: int, j: int) -> bool {
    &&& s[i] != s[i + 1]
    &&& s[j] != s[j + 1]
    &&& match spec_intersection(s[i], s[i + 1], s[j], s[j + 1]) {
        Intersection::Crossing(_) => true,
        Intersection::Overlapping(_, _) => true,
        Intersection::Touching(_) => true,
        Intersection::Apart => false,
        Intersection::EndToEnd => false,
    }
}

/// Some pair of edges crosses, touches or overlaps. With four or fewer
/// points a closed ring cannot self-intersect, only be mis-oriented, so
/// such rings are never flagged.
pub open spec fn spec_has_self_intersections(s: Seq<Point>) -> bool {
    s.len() > 4 && exists|i: int, j: int|
        0 <= i < j <= s.len() - 2 && spec_seg_pair_bad(s, i, j)
}

/// The cheap structural conditions on a ring: closed, at least four points
/// counting the duplicated closing point, at least four once consecutive
/// duplicates are collapsed, and not every point the same.
pub open spec fn spec_ring_structural(r: Seq<Point>) -> bool {
    &&& r.len() >= 4
    &&& r[0] == r[r.len() - 1]
    &&& spec_num_excl_dup(r) >= 4
    &&& !spec_all_same(r)
}

/// The expensive conditions on one ring: no consecutive duplicate points
/// (a zero-length edge can meet nothing cleanly) and no self-intersection.
pub open spec fn spec_ring_simple(r: Seq<Point>) -> bool {
    !spec_has_dup(r) && !spec_has_self_intersections(r)
}

pub open spec fn spec_polygon_valid_cheap(p: PolyView) -> bool {
    &&& spec_ring_structural(p.exterior)
    &&& forall|k: int| 0 <= k < p.interiors.len() ==> spec_ring_structural(#[trigger] p.interiors[k])
}

/// The full validity condition on a polygon, winding convention included.
pub open spec fn spec_polygon_valid(p: PolyView) -> bool {
    &&& spec_polygon_valid_cheap(p)
    &&& spec_ring_simple(p.exterior)
    &&& !spec_is_ccw(p.exterior)
    &&& forall|k: int|
        0 <= k < p.interiors.len() ==> spec_ring_simple(#[trigger] p.interiors[k]) && !spec_is_cw(
            p.interiors[k],
        )
}

pub open spec fn spec_linestring_valid(s: Seq<Point>) -> bool {
    s.len() >= 2 && !(s.len() == 2 && s[0] == s[1])
}

pub open spec fn spec_polygons_valid(ps: Seq<PolyView>) -> bool {
    forall|k: int| 0 <= k < ps.len() ==> spec_polygon_valid(#[trigger] ps[k])
}

pub open spec fn spec_polygons_valid_cheap(ps: Seq<PolyView>) -> bool {
    forall|k: int| 0 <= k < ps.len() ==> spec_polygon_valid_cheap(#[trigger] ps[k])
}

pub open spec fn spec_linestrings_valid(ss: Seq<Seq<Point>>) -> bool {
    forall|k: int| 0 <= k < ss.len() ==> spec_linestring_valid(#[trigger] ss[k])
}

/// Validity of a whole geometry. Points, multipoints and geometry
/// collections are always valid: the repair engine passes them through.
pub open spec fn spec_geometry_valid(g: GeomView) -> bool {
    match g {
        GeomView::LineString(s) => spec_linestring_valid(s),
        GeomView::Polygon(p) => spec_polygon_valid(p),
        GeomView::MultiPolygon(ps) => spec_polygons_valid(ps),
        GeomView::MultiLineString(ss) => spec_linestrings_valid(ss),
        _ => true,
    }
}

/// Validity with the quadratic edge-pair scans left out.
pub open spec fn spec_geometry_valid_cheap(g: GeomView) -> bool {
    match g {
        GeomView::LineString(s) => spec_linestring_valid(s),
        GeomView::Polygon(p) => spec_polygon_valid_cheap(p),
        GeomView::MultiPolygon(ps) => spec_polygons_valid_cheap(ps),
        GeomView::MultiLineString(ss) => spec_linestrings_valid(ss),
        _ => true,
    }
}

pub fn is_linestring_valid(ls: &LineString) -> (r: bool)
    ensures
        r == spec_linestring_valid(ls@),
{
    if ls.0.len() < 2 {
        return false;
    }
    if ls.0.len() == 2 {
        let p0 = ls.0[0];
        let p1 = ls.0[1];
        if p0.x == p1.x && p0.y == p1.y {
            return false;
        }
    }
    true
}

pub fn linestring_has_duplicate_points(ls: &LineString) -> (r: bool)
    ensures
        r == spec_has_dup(ls@),
{
    let n = ls.0.len();
    if n == 0 {
        return false;
    }
    let mut i: usize = 0;
    while i < n - 1
        invariant
            n == ls@.len(),
            n >= 1,
            i <= n - 1,
            forall|k: int| 0 <= k < i ==> #[trigger] ls@[k] != ls@[k + 1],
        decreases n - 1 - i,
    {
        let p = ls.0[i];
        let q = ls.0[i + 1];
        if p.x == q.x && p.y == q.y {
            assert(ls@[i as int] == ls@[i + 1]);
            return true;
        }
        i = i + 1;
    }
    false
}

/// The number of points left in the line string after removing all
/// consecutive duplicate points; a ring needs at least 4.
pub fn num_points_excl_duplicates(ls: &LineString) -> (n: usize)
    ensures
        n == spec_num_excl_dup(ls@),
{
    let len = ls.0.len();
    if len <= 1 {
        return len;
    }
    let mut num: usize = 1;
    let mut i: usize = 1;
    while i < len
        invariant
            1 <= i <= len,
            len == ls@.len(),
            num == spec_num_excl_dup(ls@.take(i as int)),
            num <= i,
        decreases len - i,
    {
        let p = ls.0[i - 1];
        let q = ls.0[i];
        proof {
            assert(ls@.take(i + 1).drop_last() =~= ls@.take(i as int));
            assert(ls@.take(i + 1)[i - 1] == ls@[i - 1]);
            assert(ls@.take(i + 1)[i as int] == ls@[i as int]);
        }
        if !(p.x == q.x && p.y == q.y) {
            num = num + 1;
        }
        i = i + 1;
    }
    proof {
        assert(ls@.take(len as int) =~= ls@);
    }
    num
}

/// The quadratic scan over all edge pairs: does any pair cross, touch or
/// overlap? Zero-length edges (consecutive duplicate points) meet nothing.
pub fn has_self_intersections(ls: &LineString) -> (r: bool)
    ensures
        r == spec_has_self_intersections(ls@),
{
    let n = ls.0.len();
    if n <= 4 {
        // cannot have a self intersection with this few points: with 4 it
        // is an orientation problem, not a self-intersection
        return false;
    }
    let mut i: usize = 0;
    while i < n - 1
        invariant
            n == ls@.len(),
            n > 4,
            i <= n - 1,
            forall|a: int, b: int| 0 <= a < i && a < b <= n - 2 ==> !spec_seg_pair_bad(ls@, a, b),
        decreases n - 1 - i,
    {
        let p1 = ls.0[i];
        let p2 = ls.0[i + 1];
        let zero12 = p1.x == p2.x && p1.y == p2.y;
        let mut j: usize = i + 1;
        while j < n - 1
            invariant
                n == ls@.len(),
                n > 4,
                i < n - 1,
                i < j <= n - 1,
                p1 == ls@[i as int],
                p2 == ls@[i + 1],
                zero12 == (p1 == p2),
                forall|b: int| i < b < j ==> !spec_seg_pair_bad(ls@, i as int, b),
            decreases n - 1 - j,
        {
            let p3 = ls.0[j];
            let p4 = ls.0[j + 1];
            if !zero12 && !(p3.x == p4.x && p3.y == p4.y) {
                match intersection(p1.x, p1.y, p2.x, p2.y, p3.x, p3.y, p4.x, p4.y) {
                    Intersection::Crossing(_) | Intersection::Overlapping(_, _)
                    | Intersection::Touching(_) => {
                        assert(spec_seg_pair_bad(ls@, i as int, j as int));
                        return true;
                    },
                    Intersection::Apart | Intersection::EndToEnd => {},
                }
            }
            j = j + 1;
        }
        i = i + 1;
    }
    assert(forall|a: int, b: int| 0 <= a < b <= n - 2 ==> !spec_seg_pair_bad(ls@, a, b));
    false
}

fn ring_structurally_valid(r: &LineString) -> (ok: bool)
    ensures
        ok == spec_ring_structural(r@),
{
    let n = r.0.len();
    if n < 4 {
        return false;
    }
    let first = r.0[0];
    let last = r.0[n - 1];
    if !(first.x == last.x && first.y == last.y) {
        return false;
    }
    if num_points_excl_duplicates(r) < 4 {
        return false;
    }
    // all points the same?
    let mut i: usize = 1;
    let mut found_other = false;
    while i < n
        invariant
            1 <= i <= n,
            n == r@.len(),
            first == r@[0],
            found_other == !(forall|k: int| 0 <= k < i ==> #[trigger] r@[k] == r@[0]),
        decreases n - i,
    {
        let p = r.0[i];
        if !(p.x == first.x && p.y == first.y) {
            found_other = true;
        }
        i = i + 1;
    }
    found_other
}

pub fn is_polygon_valid_skip_expensive(p: &Polygon) -> (r: bool)
    ensures
        r == spec_polygon_valid_cheap(p@),
{
    if !ring_structurally_valid(&p.exterior) {
        return false;
    }
    let m = p.interiors.len();
    let mut k: usize = 0;
    while k < m
        invariant
            k <= m,
            m == p.interiors@.len(),
            spec_ring_structural(p@.exterior),
            forall|t: int| 0 <= t < k ==> spec_ring_structural(#[trigger] p@.interiors[t]),
        decreases m - k,
    {
        let inner = &p.interiors[k];
        proof {
            assert(p@.interiors[k as int] == inner@);
        }
        if !ring_structurally_valid(inner) {
            return false;
        }
        k = k + 1;
    }
    true
}

fn ring_simple(r: &LineString) -> (ok: bool)
    ensures
        ok == spec_ring_simple(r@),
{
    if linestring_has_duplicate_points(r) {
        return false;
    }
    !has_self_intersections(r)
}

fn is_polygon_valid_do_expensive(p: &Polygon) -> (r: bool)
    ensures
        r == (spec_ring_simple(p@.exterior) && !spec_is_ccw(p@.exterior) && forall|k: int|
            0 <= k < p@.interiors.len() ==> spec_ring_simple(#[trigger] p@.interiors[k])
                && !spec_is_cw(p@.interiors[k])),
{
    if !ring_simple(&p.exterior) {
        return false;
    }
    // In theory this is backwards: exterior rings would be counter-clockwise
    // and interior rings clockwise, but tile-space y grows downward, so the
    // convention is flipped.
    if is_ccw(&p.exterior) {
        return false;
    }
    let m = p.interiors.len();
    let mut k: usize = 0;
    while k < m
        invariant
            k <= m,
            m == p.interiors@.len(),
            spec_ring_simple(p@.exterior),
            !spec_is_ccw(p@.exterior),
            forall|t: int| 0 <= t < k ==> spec_ring_simple(#[trigger] p@.interiors[t])
                && !spec_is_cw(p@.interiors[t]),
        decreases m - k,
    {
        let inner = &p.interiors[k];
        proof {
            assert(p@.interiors[k as int] == inner@);
        }
        if !ring_simple(inner) {
            return false;
        }
        if is_cw(inner) {
            return false;
        }
        k = k + 1;
    }
    true
}

pub fn is_polygon_valid(p: &Polygon) -> (r: bool)
    ensures
        r == spec_polygon_valid(p@),
{
    is_polygon_valid_skip_expensive(p) && is_polygon_valid_do_expensive(p)
}

/// Full validity, including the quadratic self-intersection scans.
pub fn is_valid(geom: &Geometry) -> (r: bool)
    ensures
        r == spec_geometry_valid(geom@),
{
    match geom {
        Geometry::LineString(ls) => is_linestring_valid(ls),
        Geometry::Polygon(p) => is_polygon_valid(p),
        Geometry::MultiPolygon(mp) => {
            let m = mp.0.len();
            let mut k: usize = 0;
            let mut ok = true;
            while k < m
                invariant
                    k <= m,
                    m == mp.0@.len(),
                    ok == (forall|t: int| 0 <= t < k ==> spec_polygon_valid(#[trigger] mp@[t])),
                decreases m - k,
            {
                let poly = &mp.0[k];
                proof {
                    assert(mp@[k as int] == poly@);
                }
                if !is_polygon_valid(poly) {
                    ok = false;
                }
                k = k + 1;
            }
            proof {
                assert(ok == spec_polygons_valid(mp@));
            }
            ok
        },
        Geometry::MultiLineString(mls) => {
            let m = mls.0.len();
            let mut k: usize = 0;
            let mut ok = true;
            while k < m
                invariant
                    k <= m,
                    m == mls.0@.len(),
                    ok == (forall|t: int| 0 <= t < k ==> spec_linestring_valid(#[trigger] mls@[t])),
                decreases m - k,
            {
                let line = &mls.0[k];
                proof {
                    assert(mls@[k as int] == line@);
                }
                if !is_linestring_valid(line) {
                    ok = false;
                }
                k = k + 1;
            }
            ok
        },
        _ => true,
    }
}

/// Validity with the expensive scans skipped: a cheap pre-filter.
pub fn is_valid_skip_expensive(geom: &Geometry) -> (r: bool)
    ensures
        r == spec_geometry_valid_cheap(geom@),
{
    match geom {
        Geometry::LineString(ls) => is_linestring_valid(ls),
        Geometry::Polygon(p) => is_polygon_valid_skip_expensive(p),
        Geometry::MultiPolygon(mp) => {
            let m = mp.0.len();
            let mut k: usize = 0;
            let mut ok = true;
            while k < m
                invariant
                    k <= m,
                    m == mp.0@.len(),
                    ok == (forall|t: int|
                        0 <= t < k ==> spec_polygon_valid_cheap(#[trigger] mp@[t])),
                decreases m - k,
            {
                let poly = &mp.0[k];
                proof {
                    assert(mp@[k as int] == poly@);
                }
                if !is_polygon_valid_skip_expensive(poly) {
                    ok = false;
                }
                k = k + 1;
            }
            ok
        },
        Geometry::MultiLineString(mls) => {
            let m = mls.0.len();
            let mut k: usize = 0;
            let mut ok = true;
            while k < m
                invariant
                    k <= m,
                    m == mls.0@.len(),
                    ok == (forall|t: int| 0 <= t < k ==> spec_linestring_valid(#[trigger] mls@[t])),
                decreases m - k,
            {
                let line = &mls.0[k];
                proof {
                    assert(mls@[k as int] == line@);
                }
                if !is_linestring_valid(line) {
                    ok = false;
                }
                k = k + 1;
            }
            ok
        },
        _ => true,
    }
}

/// |spec_twice_area| grows by at most 2^63 per point.
proof fn lemma_twice_area_bound(s: Seq<Point>)
    ensures
        -(s.len() as int) * 0x8000_0000_0000_0000 <= spec_twice_area(s) <= (s.len() as int)
            * 0x8000_0000_0000_0000,
    decreases s.len(),
{
    if s.len() < 2 {
        assert(-(s.len() as int) * 0x8000_0000_0000_0000 <= 0 <= (s.len() as int)
            * 0x8000_0000_0000_0000) by (nonlinear_arith);
    } else {
        lemma_twice_area_bound(s.drop_last());
        let p = s[s.len() - 2];
        let q = s[s.len() - 1];
        crate::intersect::lemma_mul_bound(p.x as int, q.y as int, 0x8000_0000, 0x8000_0000);
        crate::intersect::lemma_mul_bound(q.x as int, p.y as int, 0x8000_0000, 0x8000_0000);
        assert((s.drop_last().len() as int) * 0x8000_0000_0000_0000 + 0x4000_0000_0000_0000
            + 0x4000_0000_0000_0000 == (s.len() as int) * 0x8000_0000_0000_0000) by (nonlinear_arith)
            requires s.drop_last().len() == s.len() - 1 && s.len() >= 2;
    }
}

/// Twice the signed area of the line string (the shoelace sum), computed
/// exactly in a wide integer type.
pub fn twice_linestring_area(ls: &LineString) -> (area: i128)
    ensures
        area == spec_twice_area(ls@),
{
    let n = ls.0.len();
    if n < 2 {
        return 0;
    }
    let mut acc: i128 = 0;
    let mut i: usize = 1;
    while i < n
        invariant
            1 <= i <= n,
            n == ls@.len(),
            acc == spec_twice_area(ls@.take(i as int)),
        decreases n - i,
    {
        let p = ls.0[i - 1];
        let q = ls.0[i];
        proof {
            lemma_twice_area_bound(ls@.take(i as int));
            assert(ls@.take(i as int).len() <= 0x1_0000_0000_0000_0000) by {
                assert(ls@.take(i as int).len() == i);
            }
            assert((ls@.take(i as int).len() as int) * 0x8000_0000_0000_0000
                <= 0x1_0000_0000_0000_0000 * 0x8000_0000_0000_0000) by (nonlinear_arith)
                requires ls@.take(i as int).len() <= 0x1_0000_0000_0000_0000;
            crate::intersect::lemma_mul_bound(p.x as int, q.y as int, 0x8000_0000, 0x8000_0000);
            crate::intersect::lemma_mul_bound(q.x as int, p.y as int, 0x8000_0000, 0x8000_0000);
            assert(ls@.take(i + 1).drop_last() =~= ls@.take(i as int));
            assert(ls@.take(i + 1)[i - 1] == ls@[i - 1]);
            assert(ls@.take(i + 1)[i as int] == ls@[i as int]);
        }
        let term: i128 = (p.x as i128) * (q.y as i128) - (q.x as i128) * (p.y as i128);
        acc = acc + term;
        i = i + 1;
    }
    proof {
        assert(ls@.take(n as int) =~= ls@);
    }
    acc
}

pub fn is_cw(ls: &LineString) -> (r: bool)
    ensures
        r == spec_is_cw(ls@),
{
    twice_linestring_area(ls) < 0
}

pub fn is_ccw(ls: &LineString) -> (r: bool)
    ensures
        r == spec_is_ccw(ls@),
{
    twice_linestring_area(ls) > 0
}


/// The shoelace sum seen from the front: peeling off the first edge.
proof fn lemma_area_drop_first(s: Seq<Point>)
    requires
        s.len() >= 2,
    ensures
        spec_twice_area(s) == spec_cross_term(s[0], s[1]) + spec_twice_area(s.drop_first()),
    decreases s.len(),
{
    if s.len() == 2 {
        assert(s.drop_last().len() == 1);
        assert(s.drop_first().len() == 1);
        assert(spec_twice_area(s.drop_last()) == 0);
        assert(spec_twice_area(s.drop_first()) == 0);
        assert(spec_twice_area(s) == spec_cross_term(s[0], s[1]));
    } else {
        let n = s.len();
        let dl = s.drop_last();
        let df = s.drop_first();
        lemma_area_drop_first(dl);
        assert(dl[0] == s[0] && dl[1] == s[1]);
        assert(dl.drop_first() =~= df.drop_last());
        assert(df[df.len() - 2] == s[n - 2]);
        assert(df[df.len() - 1] == s[n - 1]);
        assert(spec_twice_area(s) == spec_twice_area(dl) + spec_cross_term(s[n - 2], s[n - 1]));
        assert(spec_twice_area(df) == spec_twice_area(df.drop_last()) + spec_cross_term(
            s[n - 2],
            s[n - 1],
        ));
        assert(spec_twice_area(dl) == spec_cross_term(s[0], s[1]) + spec_twice_area(
            dl.drop_first(),
        ));
    }
}

/// Reversing a ring negates its signed double area.
pub proof fn lemma_reverse_twice_area(s: Seq<Point>)
    ensures
        spec_twice_area(s.reverse()) == -spec_twice_area(s),
    decreases s.len(),
{
    if s.len() < 2 {
        assert(s.reverse().len() == s.len());
    } else {
        let r = s.reverse();
        let n = s.len();
        assert(r.len() == n);
        assert(r.drop_first() =~= s.drop_last().reverse());
        lemma_area_drop_first(r);
        lemma_reverse_twice_area(s.drop_last());
        assert(r[0] == s[n - 1]);
        assert(r[1] == s[n - 2]);
        assert(spec_cross_term(s[n - 1], s[n - 2]) == -spec_cross_term(s[n - 2], s[n - 1]));
    }
}

/// The ring as it must stand in an exterior position: reversed unless it
/// already winds clockwise.
pub open spec fn spec_orient_cw(r: Seq<Point>) -> Seq<Point> {
    if spec_is_cw(r) {
        r
    } else {
        r.reverse()
    }
}

/// The ring as it must stand in an interior position: reversed unless it
/// already winds counter-clockwise.
pub open spec fn spec_orient_ccw(r: Seq<Point>) -> Seq<Point> {
    if spec_is_ccw(r) {
        r
    } else {
        r.reverse()
    }
}

pub open spec fn spec_orient_polygon(p: PolyView) -> PolyView {
    PolyView {
        exterior: spec_orient_cw(p.exterior),
        interiors: Seq::new(p.interiors.len(), |k: int| spec_orient_ccw(p.interiors[k])),
    }
}

/// What `ensure_polygon_orientation` does to a geometry: polygons get their
/// rings re-wound, everything else is untouched.
pub open spec fn spec_orient_geometry(g: GeomView) -> GeomView {
    match g {
        GeomView::Polygon(p) => GeomView::Polygon(spec_orient_polygon(p)),
        GeomView::MultiPolygon(ps) => GeomView::MultiPolygon(
            Seq::new(ps.len(), |k: int| spec_orient_polygon(ps[k])),
        ),
        other => other,
    }
}

/// After orientation, an exterior ring is never counter-clockwise and an
/// interior ring is never clockwise: the signed double area of the exterior
/// is at most zero and of every interior at least zero.
pub proof fn lemma_orient_polygon_winding(p: PolyView)
    ensures
        spec_twice_area(spec_orient_polygon(p).exterior) <= 0,
        forall|k: int| 0 <= k < spec_orient_polygon(p).interiors.len()
            ==> spec_twice_area(#[trigger] spec_orient_polygon(p).interiors[k]) >= 0,
{
    lemma_reverse_twice_area(p.exterior);
    assert forall|k: int| 0 <= k < spec_orient_polygon(p).interiors.len()
        implies spec_twice_area(#[trigger] spec_orient_polygon(p).interiors[k]) >= 0 by {
        lemma_reverse_twice_area(p.interiors[k]);
    }
}

fn orient_ring_cw(r: &mut LineString)
    ensures
        final(r)@ == spec_orient_cw(old(r)@),
{
    if !is_cw(r) {
        r.reverse();
    }
}

fn orient_ring_ccw(r: &mut LineString)
    ensures
        final(r)@ == spec_orient_ccw(old(r)@),
{
    if !is_ccw(r) {
        r.reverse();
    }
}

pub(crate) fn orient_polygon(p: &mut Polygon)
    ensures
        final(p)@ == spec_orient_polygon(old(p)@),
{
    orient_ring_cw(&mut p.exterior);
    let m = p.interiors.len();
    let mut new_ints: Vec<LineString> = Vec::new();
    let mut k: usize = 0;
    while k < m
        invariant
            k <= m,
            m == p.interiors@.len(),
            p.interiors@ == old(p).interiors@,
            p.exterior@ == spec_orient_cw(old(p)@.exterior),
            new_ints@.len() == k,
            forall|t: int| 0 <= t < k ==> #[trigger] new_ints@[t]@ == spec_orient_ccw(
                old(p)@.interiors[t],
            ),
        decreases m - k,
    {
        let mut r = p.interiors[k].duplicate();
        proof {
            assert(r@ == old(p)@.interiors[k as int]);
        }
        orient_ring_ccw(&mut r);
        new_ints.push(r);
        k = k + 1;
    }
    p.interiors = new_ints;
    proof {
        assert(final(p)@.interiors =~= spec_orient_polygon(old(p)@).interiors);
    }
}

fn orient_geometry(g: Geometry) -> (r: Geometry)
    ensures
        r@ == spec_orient_geometry(g@),
{
    match g {
        Geometry::Polygon(mut p) => {
            orient_polygon(&mut p);
            Geometry::Polygon(p)
        },
        Geometry::MultiPolygon(mp) => {
            let ghost orig = mp@;
            let MultiPolygon(polys) = mp;
            let m = polys.len();
            let mut new_polys: Vec<Polygon> = Vec::new();
            let mut k: usize = 0;
            while k < m
                invariant
                    k <= m,
                    m == polys@.len(),
                    orig == Seq::new(polys@.len(), |i: int| polys@[i]@),
                    new_polys@.len() == k,
                    forall|t: int| 0 <= t < k ==> #[trigger] new_polys@[t]@ == spec_orient_polygon(
                        orig[t],
                    ),
                decreases m - k,
            {
                let mut p = polys[k].duplicate();
                proof {
                    assert(p@ == orig[k as int]);
                }
                orient_polygon(&mut p);
                new_polys.push(p);
                k = k + 1;
            }
            let out = MultiPolygon(new_polys);
            proof {
                assert(out@ =~= Seq::new(orig.len(), |t: int| spec_orient_polygon(orig[t])));
            }
            Geometry::MultiPolygon(out)
        },
        other => other,
    }
}

/// In-place winding normalization, no repair: the exterior ring of every
/// polygon is reversed unless clockwise, every interior ring unless
/// counter-clockwise, following the downward-Y tile convention. Geometries
/// other than polygons and multipolygons are left untouched.
pub fn ensure_polygon_orientation(geom: &mut Geometry)
    ensures
        final(geom)@ == spec_orient_geometry(old(geom)@),
{
    let mut tmp = Geometry::Point(Point { x: 0, y: 0 });
    core::mem::swap(geom, &mut tmp);
    let out = orient_geometry(tmp);
    *geom = out;
}

} // verus!
