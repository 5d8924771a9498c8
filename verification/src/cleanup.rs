//! Coordinate cleanup primitives, invoked before and during repair.
//!
//! Two operations: collapsing consecutive duplicate points in polygon
//! rings, and removing spikes from a ring. A spike vertex is one that is
//! collinear with its two cyclic neighbours — a point going straight
//! through, or the tip of a zero-width excursion — and removing such
//! vertices one at a time until none is left turns a noisy closed curve
//! into its clean form, or discovers that nothing two-dimensional remains.

use vstd::prelude::*;
use crate::geom::{Point, LineString, Polygon, MultiPolygon, Geometry, PolyView, GeomView, spec_point_among};
use crate::intersect::spec_collinear;
use crate::validity::spec_has_dup;

verus! {

/// The sequence with consecutive duplicate points collapsed.
pub open spec fn spec_dedup(s: Seq<Point>) -> Seq<Point>
    decreases s.len(),
{
    if s.len() <= 1 {
        s
    } else if s[s.len() - 2] == s[s.len() - 1] {
        spec_dedup(s.drop_last())
    } else {
        spec_dedup(s.drop_last()).push(s[s.len() - 1])
    }
}

/// A sequence without consecutive duplicates is already collapsed.
pub proof fn lemma_dedup_clean_identity(s: Seq<Point>)
    requires
        !spec_has_dup(s),
    ensures
        spec_dedup(s) == s,
    decreases s.len(),
{
    if s.len() <= 1 {
    } else {
        assert(s[s.len() - 2] != s[s.len() - 1]);
        assert(!spec_has_dup(s.drop_last())) by {
            assert(forall|i: int| 0 <= i < s.drop_last().len() - 1 ==> #[trigger] s.drop_last()[i]
                == s[i] && s.drop_last()[i + 1] == s[i + 1]);
        }
        lemma_dedup_clean_identity(s.drop_last());
        assert(spec_dedup(s.drop_last()).push(s[s.len() - 1]) =~= s);
    }
}

/// The collapsed form of every ring of the polygon.
pub open spec fn spec_cleanup_polygon(p: PolyView) -> PolyView {
    PolyView {
        exterior: spec_dedup(p.exterior),
        interiors: Seq::new(p.interiors.len(), |k: int| spec_dedup(p.interiors[k])),
    }
}

/// What `remove_unneeded_points` does: polygon rings lose consecutive
/// duplicate points, everything else is untouched.
pub open spec fn spec_cleanup_geometry(g: GeomView) -> GeomView {
    match g {
        GeomView::Polygon(p) => GeomView::Polygon(spec_cleanup_polygon(p)),
        GeomView::MultiPolygon(ps) => GeomView::MultiPolygon(
            Seq::new(ps.len(), |k: int| spec_cleanup_polygon(ps[k])),
        ),
        other => other,
    }
}

fn dedup_linestring(ls: &LineString) -> (r: LineString)
    ensures
        r@ == spec_dedup(ls@),
{
    let n = ls.0.len();
    let mut v: Vec<Point> = Vec::new();
    let mut i: usize = 0;
    while i < n
        invariant
            i <= n,
            n == ls@.len(),
            v@ == spec_dedup(ls@.take(i as int)),
        decreases n - i,
    {
        let p = ls.0[i];
        proof {
            assert(ls@.take(i + 1).drop_last() =~= ls@.take(i as int));
            assert(ls@.take(i + 1)[i as int] == ls@[i as int]);
            if i > 0 {
                assert(ls@.take(i + 1)[i - 1] == ls@[i - 1]);
            }
        }
        if i == 0 {
            v.push(p);
        } else {
            let prev = ls.0[i - 1];
            if !(p.x == prev.x && p.y == prev.y) {
                v.push(p);
            }
        }
        i = i + 1;
    }
    proof {
        assert(ls@.take(n as int) =~= ls@);
    }
    LineString(v)
}

fn cleanup_polygon(p: Polygon) -> (r: Polygon)
    ensures
        r@ == spec_cleanup_polygon(p@),
{
    let exterior = dedup_linestring(&p.exterior);
    let m = p.interiors.len();
    let mut interiors: Vec<LineString> = Vec::new();
    let mut k: usize = 0;
    while k < m
        invariant
            k <= m,
            m == p.interiors@.len(),
            exterior@ == spec_dedup(p@.exterior),
            interiors@.len() == k,
            forall|t: int| 0 <= t < k ==> #[trigger] interiors@[t]@ == spec_dedup(
                p@.interiors[t],
            ),
        decreases m - k,
    {
        let inner = &p.interiors[k];
        proof {
            assert(p@.interiors[k as int] == inner@);
        }
        interiors.push(dedup_linestring(inner));
        k = k + 1;
    }
    let r = Polygon { exterior, interiors };
    proof {
        assert(r@.interiors =~= spec_cleanup_polygon(p@).interiors);
    }
    r
}

/// Removes redundant points: consecutive duplicate points in every polygon
/// ring. Other geometries pass through unchanged.
pub fn remove_unneeded_points(geom: Geometry) -> (r: Geometry)
    ensures
        r@ == spec_cleanup_geometry(geom@),
{
    match geom {
        Geometry::Polygon(p) => Geometry::Polygon(cleanup_polygon(p)),
        Geometry::MultiPolygon(mp) => {
            let ghost orig = mp@;
            let MultiPolygon(polys) = mp;
            let m = polys.len();
            let mut new_polys: Vec<Polygon> = Vec::new();
            let mut k: usize = 0;
            while k < m
                invariant
                    k <= m,
                    m == polys@.len(),
                    orig == Seq::new(polys@.len(), |i: int| polys@[i]@),
                    new_polys@.len() == k,
                    forall|t: int| 0 <= t < k ==> #[trigger] new_polys@[t]@
                        == spec_cleanup_polygon(orig[t]),
                decreases m - k,
            {
                let p = polys[k].duplicate();
                proof {
                    assert(p@ == orig[k as int]);
                }
                new_polys.push(cleanup_polygon(p));
                k = k + 1;
            }
            let out = MultiPolygon(new_polys);
            proof {
                assert(out@ =~= Seq::new(orig.len(), |t: int| spec_cleanup_polygon(orig[t])));
            }
            Geometry::MultiPolygon(out)
        },
        other => other,
    }
}

/// The vertex at position i of the open cycle q lies on the line through
/// its two cyclic neighbours: it is a spike tip or a straight-through
/// point, and carries no shape.
pub open spec fn spec_cyc_collinear_at(q: Seq<Point>, i: int) -> bool {
    let n = q.len();
    let prev = if i == 0 { q[n - 1] } else { q[i - 1] };
    let next = if i == n - 1 { q[0] } else { q[i + 1] };
    spec_collinear(prev, next, q[i])
}

/// The first removable vertex at or after position i, scanning upward.
pub open spec fn spec_find_spike_from(q: Seq<Point>, i: int) -> Option<int>
    decreases q.len() - i,
{
    if i < 0 || i >= q.len() {
        Option::None
    } else if spec_cyc_collinear_at(q, i) {
        Option::Some(i)
    } else {
        spec_find_spike_from(q, i + 1)
    }
}

/// The open cycle q with the vertex at position i removed. Removing the
/// anchor vertex re-anchors the cycle at its predecessor, so the ring that
/// is later closed again starts at that predecessor.
pub open spec fn spec_remove_cyc_at(q: Seq<Point>, i: int) -> Seq<Point> {
    if i == 0 {
        seq![q[q.len() - 1]] + q.subrange(1, q.len() - 1)
    } else {
        q.remove(i)
    }
}

/// The open cycle with removable vertices taken out one at a time, always
/// the lowest-numbered one first, until none is left or fewer than three
/// points remain.
pub open spec fn spec_despike(q: Seq<Point>) -> Seq<Point>
    decreases q.len(),
{
    if q.len() < 3 {
        q
    } else {
        match spec_find_spike_from(q, 0) {
            Option::None => q,
            Option::Some(i) => if 0 <= i < q.len() {
                spec_despike(spec_remove_cyc_at(q, i))
            } else {
                q
            },
        }
    }
}

/// The ring as an open cycle: the duplicated closing point dropped.
pub open spec fn spec_open_cycle(r: Seq<Point>) -> Seq<Point> {
    if r.len() == 0 {
        r
    } else {
        r.drop_last()
    }
}

/// What spike removal returns for a closed ring: the despiked open cycle
/// closed again, or nothing if fewer than three points survive.
pub open spec fn spec_remove_spikes(r: Seq<Point>) -> Option<Seq<Point>> {
    let q = spec_despike(spec_open_cycle(r));
    if q.len() < 3 {
        Option::None
    } else {
        Option::Some(q.push(q[0]))
    }
}

fn cyc_collinear_at(q: &Vec<Point>, i: usize) -> (r: bool)
    requires
        q@.len() >= 3,
        i < q@.len(),
    ensures
        r == spec_cyc_collinear_at(q@, i as int),
{
    let n = q.len();
    let prev = if i == 0 { q[n - 1] } else { q[i - 1] };
    let next = if i == n - 1 { q[0] } else { q[i + 1] };
    let cur = q[i];
    let bx = (next.x as i128) - (prev.x as i128);
    let by = (next.y as i128) - (prev.y as i128);
    let px = (cur.x as i128) - (prev.x as i128);
    let py = (cur.y as i128) - (prev.y as i128);
    proof {
        crate::intersect::lemma_mul_bound(bx as int, py as int, 0x1_0000_0000, 0x1_0000_0000);
        crate::intersect::lemma_mul_bound(by as int, px as int, 0x1_0000_0000, 0x1_0000_0000);
    }
    bx * py == by * px
}

fn find_spike(q: &Vec<Point>) -> (r: Option<usize>)
    requires
        q@.len() >= 3,
    ensures
        match r {
            Option::Some(i) => i < q@.len() && spec_find_spike_from(q@, 0) == Option::Some(
                i as int,
            ),
            Option::None => spec_find_spike_from(q@, 0) is None,
        },
{
    let n = q.len();
    let mut i: usize = 0;
    while i < n
        invariant
            i <= n,
            n == q@.len(),
            n >= 3,
            spec_find_spike_from(q@, 0) == spec_find_spike_from(q@, i as int),
        decreases n - i,
    {
        if cyc_collinear_at(q, i) {
            return Option::Some(i);
        }
        i = i + 1;
    }
    Option::None
}

/// Removes spikes from a closed ring: every vertex collinear with its two
/// cyclic neighbours is dropped, one at a time, until none is left. Returns
/// the re-closed ring, or nothing if it degenerates below a triangle.
pub fn remove_spikes_linestring(ls: LineString) -> (r: Option<LineString>)
    ensures
        match r {
            Option::Some(out) => spec_remove_spikes(ls@) == Option::Some(out@),
            Option::None => spec_remove_spikes(ls@) is None,
        },
{
    let LineString(mut q) = ls;
    let ghost orig = q@;
    if q.len() == 0 {
        return Option::None;
    }
    q.pop();
    proof {
        assert(q@ =~= spec_open_cycle(orig));
    }
    loop
        invariant
            spec_despike(q@) == spec_despike(spec_open_cycle(orig)),
        ensures
            q@ == spec_despike(spec_open_cycle(orig)),
        decreases q@.len(),
    {
        let n = q.len();
        if n < 3 {
            break;
        }
        match find_spike(&q) {
            Option::None => {
                break;
            },
            Option::Some(i) => {
                if i == 0 {
                    let mut v: Vec<Point> = Vec::new();
                    v.push(q[n - 1]);
                    let mut t: usize = 1;
                    while t < n - 1
                        invariant
                            1 <= t <= n - 1,
                            n == q@.len(),
                            n >= 3,
                            v@ == seq![q@[n - 1]] + q@.subrange(1, t as int),
                        decreases n - 1 - t,
                    {
                        v.push(q[t]);
                        proof {
                            assert(v@ =~= seq![q@[n - 1]] + q@.subrange(1, t + 1));
                        }
                        t = t + 1;
                    }
                    proof {
                        assert(v@ == spec_remove_cyc_at(q@, 0));
                    }
                    q = v;
                } else {
                    q.remove(i);
                }
            },
        }
    }
    if q.len() < 3 {
        return Option::None;
    }
    let first = q[0];
    q.push(first);
    proof {
        let d = spec_despike(spec_open_cycle(orig));
        assert(q@ =~= d.push(d[0]));
    }
    Option::Some(LineString(q))
}


/// Cleanup never changes a geometry that is already valid: a valid ring
/// has no consecutive duplicate points, so there is nothing to collapse.
pub proof fn lemma_cleanup_valid_identity(g: GeomView)
    requires
        crate::validity::spec_geometry_valid(g),
    ensures
        spec_cleanup_geometry(g) == g,
{
    match g {
        GeomView::Polygon(p) => {
            lemma_cleanup_polygon_valid_identity(p);
        },
        GeomView::MultiPolygon(ps) => {
            assert forall|k: int| 0 <= k < ps.len() implies spec_cleanup_polygon(
                #[trigger] ps[k],
            ) == ps[k] by {
                lemma_cleanup_polygon_valid_identity(ps[k]);
            }
            assert(Seq::new(ps.len(), |k: int| spec_cleanup_polygon(ps[k])) =~= ps);
        },
        _ => {},
    }
}

proof fn lemma_cleanup_polygon_valid_identity(p: PolyView)
    requires
        crate::validity::spec_polygon_valid(p),
    ensures
        spec_cleanup_polygon(p) == p,
{
    lemma_dedup_clean_identity(p.exterior);
    assert forall|k: int| 0 <= k < p.interiors.len() implies spec_dedup(
        #[trigger] p.interiors[k],
    ) == p.interiors[k] by {
        lemma_dedup_clean_identity(p.interiors[k]);
    }
    assert(spec_cleanup_polygon(p).interiors =~= p.interiors);
}


/// Spike removal never invents a point: everything in the despiked cycle
/// already stood in the original one.
pub proof fn lemma_despike_subset(q: Seq<Point>)
    ensures
        forall|t: int| 0 <= t < spec_despike(q).len() ==> spec_point_among(
            #[trigger] spec_despike(q)[t],
            q,
        ),
    decreases q.len(),
{
    if q.len() < 3 {
        assert forall|t: int| 0 <= t < spec_despike(q).len() implies spec_point_among(
            #[trigger] spec_despike(q)[t],
            q,
        ) by {
            assert(spec_despike(q)[t] == q[t]);
        }
    } else {
        match spec_find_spike_from(q, 0) {
            Option::None => {
                assert forall|t: int| 0 <= t < spec_despike(q).len() implies spec_point_among(
                    #[trigger] spec_despike(q)[t],
                    q,
                ) by {
                    assert(spec_despike(q)[t] == q[t]);
                }
            },
            Option::Some(i) => {
                if 0 <= i < q.len() {
                    let q2 = spec_remove_cyc_at(q, i);
                    lemma_despike_subset(q2);
                    assert(spec_despike(q) == spec_despike(q2));
                    assert forall|t: int| 0 <= t < q2.len() implies spec_point_among(
                        #[trigger] q2[t],
                        q,
                    ) by {
                        if i == 0 {
                            if t == 0 {
                                assert(q2[0] == q[q.len() - 1]);
                            } else {
                                assert(q2[t] == q[t]);
                            }
                        } else {
                            if t < i {
                                assert(q2[t] == q[t]);
                            } else {
                                assert(q2[t] == q[t + 1]);
                            }
                        }
                    }
                    assert forall|t: int| 0 <= t < spec_despike(q).len() implies spec_point_among(
                        #[trigger] spec_despike(q)[t],
                        q,
                    ) by {
                        assert(spec_point_among(spec_despike(q2)[t], q2));
                        let u = choose|u: int| 0 <= u < q2.len() && q2[u] == spec_despike(q2)[t];
                        assert(spec_point_among(q2[u], q));
                    }
                }
            },
        }
    }
}


/// Spike removal never grows the cycle.
pub proof fn lemma_despike_len(q: Seq<Point>)
    ensures
        spec_despike(q).len() <= q.len(),
    decreases q.len(),
{
    if q.len() >= 3 {
        match spec_find_spike_from(q, 0) {
            Option::None => {},
            Option::Some(i) => {
                if 0 <= i < q.len() {
                    lemma_despike_len(spec_remove_cyc_at(q, i));
                }
            },
        }
    }
}

} // verus!
