//! The ring dissolver: splits a self-touching closed curve into simple
//! closed rings.
//!
//! Every coordinate that occurs more than once in the curve is a self-touch
//! node; its occurrence positions delimit candidate loops. Nodes of degree
//! three or four are split into elementary two-node loops by pairing
//! consecutive positions. The candidates are then claimed greedily —
//! most positions first, smaller index span first, smaller start first — so
//! inner loops are carved out before the outer remainder; three-point
//! spike loops are discarded, and every surviving loop is emitted as a ring
//! after spike removal.

use vstd::prelude::*;
use crate::geom::{Point, LineString, spec_point_among};
use crate::cleanup::{remove_spikes_linestring, spec_despike, spec_open_cycle, lemma_despike_subset, lemma_despike_len};

verus! {

/// A closed ring whose only repeated coordinate is the shared first/last
/// point: nothing to dissolve.
pub open spec fn spec_is_simple_ring(s: Seq<Point>) -> bool {
    &&& s.len() > 3
    &&& s[0] == s[s.len() - 1]
    &&& forall|i: int, j: int|
        0 <= i < j < s.len() && #[trigger] s[i] == #[trigger] s[j] ==> i == 0 && j == s.len() - 1
}

fn is_simple_ring(ls: &LineString) -> (r: bool)
    requires
        ls@.len() > 3,
    ensures
        r == spec_is_simple_ring(ls@),
{
    let n = ls.0.len();
    let first = ls.0[0];
    let last = ls.0[n - 1];
    if !(first.x == last.x && first.y == last.y) {
        return false;
    }
    let mut i: usize = 0;
    while i < n
        invariant
            i <= n,
            n == ls@.len(),
            n > 3,
            ls@[0] == ls@[n - 1],
            forall|a: int, b: int|
                0 <= a < i && a < b < n && #[trigger] ls@[a] == #[trigger] ls@[b] ==> a == 0 && b
                    == n - 1,
        decreases n - i,
    {
        let p = ls.0[i];
        let mut j: usize = i + 1;
        while j < n
            invariant
                i < j <= n,
                i < n,
                n == ls@.len(),
                n > 3,
                p == ls@[i as int],
                forall|b: int|
                    i < b < j && ls@[i as int] == #[trigger] ls@[b] ==> i == 0 && b == n - 1,
            decreases n - j,
        {
            if p.x == ls.0[j].x && p.y == ls.0[j].y {
                if !(i == 0 && j == n - 1) {
                    return false;
                }
            }
            j = j + 1;
        }
        i = i + 1;
    }
    true
}

/// A well-formed candidate loop: at least two positions, strictly
/// ascending, all inside the curve.
pub open spec fn spec_loop_ok(l: Seq<usize>, n: int) -> bool {
    &&& l.len() >= 2
    &&& forall|a: int, b: int| 0 <= a < b < l.len() ==> #[trigger] l[a] < #[trigger] l[b]
    &&& forall|t: int| 0 <= t < l.len() ==> #[trigger] l[t] < n
}

/// All positions of the curve holding the same coordinate as position i0,
/// in ascending order.
fn occurrences_of(points: &Vec<Point>, i0: usize) -> (idxs: Vec<usize>)
    requires
        i0 < points@.len(),
    ensures
        idxs@.len() >= 1,
        forall|a: int, b: int| 0 <= a < b < idxs@.len() ==> #[trigger] idxs@[a] < #[trigger] idxs@[b],
        forall|t: int| 0 <= t < idxs@.len() ==> #[trigger] idxs@[t] < points@.len(),
{
    let n = points.len();
    let p = points[i0];
    let mut idxs: Vec<usize> = Vec::new();
    let mut j: usize = 0;
    while j < n
        invariant
            j <= n,
            n == points@.len(),
            i0 < n,
            p == points@[i0 as int],
            forall|a: int, b: int| 0 <= a < b < idxs@.len() ==> #[trigger] idxs@[a]
                < #[trigger] idxs@[b],
            forall|t: int| 0 <= t < idxs@.len() ==> #[trigger] idxs@[t] < j,
            i0 < j ==> idxs@.len() >= 1,
        decreases n - j,
    {
        let q = points[j];
        if p.x == q.x && p.y == q.y {
            idxs.push(j);
        }
        j = j + 1;
    }
    idxs
}

/// True iff candidate a must come strictly after candidate b in claiming
/// order: fewer positions, or a wider index span, or a later start.
fn claim_order_after(a: &Vec<usize>, b: &Vec<usize>, ghost_n: Ghost<int>) -> (r: bool)
    requires
        spec_loop_ok(a@, ghost_n@),
        spec_loop_ok(b@, ghost_n@),
{
    let a_len = a.len();
    let b_len = b.len();
    if a_len != b_len {
        return a_len < b_len;
    }
    let a_span = a[a_len - 1] - a[0];
    let b_span = b[b_len - 1] - b[0];
    if a_span != b_span {
        return a_span > b_span;
    }
    a[0] > b[0]
}

/// The combined number of curve positions the returned rings claim: every
/// point of every ring except the shared closing points.
pub open spec fn spec_claimed_points(r: Seq<LineString>) -> int
    decreases r.len(),
{
    if r.len() == 0 {
        0
    } else {
        spec_claimed_points(r.drop_last()) + r.last()@.len() - 1
    }
}

/// The number of positions still unclaimed.
pub open spec fn spec_count_true(s: Seq<bool>) -> int
    decreases s.len(),
{
    if s.len() == 0 {
        0
    } else {
        spec_count_true(s.drop_last()) + if s.last() {
            1int
        } else {
            0int
        }
    }
}

proof fn lemma_count_true_update(s: Seq<bool>, i: int)
    requires
        0 <= i < s.len(),
    ensures
        spec_count_true(s.update(i, false)) == spec_count_true(s) - if s[i] {
            1int
        } else {
            0int
        },
    decreases s.len(),
{
    if i == s.len() - 1 {
        assert(s.update(i, false).drop_last() =~= s.drop_last());
    } else {
        assert(s.update(i, false).drop_last() =~= s.drop_last().update(i, false));
        lemma_count_true_update(s.drop_last(), i);
    }
}

proof fn lemma_count_true_bounds(s: Seq<bool>)
    ensures
        0 <= spec_count_true(s) <= s.len(),
    decreases s.len(),
{
    if s.len() > 0 {
        lemma_count_true_bounds(s.drop_last());
    }
}

/// Splits a self-touching closed curve into simple closed rings. A curve
/// with three or fewer points is dropped; a ring that touches itself
/// nowhere comes back alone and unchanged; otherwise every returned ring is
/// closed, has at least four points, and is free of spikes.
pub fn dissolve_into_rings(ls: LineString) -> (r: Vec<LineString>)
    ensures
        ls@.len() <= 3 ==> r@.len() == 0,
        spec_is_simple_ring(ls@) ==> r@.len() == 1 && r@[0]@ == ls@,
        forall|k: int| 0 <= k < r@.len() ==> (#[trigger] r@[k]@).len() >= 4 && r@[k]@[0]
            == r@[k]@[r@[k]@.len() - 1],
        forall|k: int, t: int|
            0 <= k < r@.len() && 0 <= t < r@[k]@.len() ==> spec_point_among(
                #[trigger] r@[k]@[t],
                ls@,
            ),
        spec_claimed_points(r@) <= ls@.len(),
{
    let n = ls.0.len();
    if n <= 3 {
        // not enough points for a proper ring
        proof {
            assert(spec_claimed_points(Seq::<LineString>::empty()) == 0);
        }
        return Vec::new();
    }
    if is_simple_ring(&ls) {
        let mut out: Vec<LineString> = Vec::new();
        let ghost v = ls@;
        out.push(ls);
        proof {
            assert forall|k: int, t: int|
                0 <= k < out@.len() && 0 <= t < out@[k]@.len() implies spec_point_among(
                #[trigger] out@[k]@[t],
                v,
            ) by {
                assert(out@[k]@[t] == v[t]);
            }
            assert(out@.drop_last() =~= Seq::<LineString>::empty());
            assert(spec_claimed_points(Seq::<LineString>::empty()) == 0);
            assert(spec_claimed_points(out@) == v.len() - 1);
        }
        return out;
    }
    let LineString(points) = ls;

    // candidate loops: for each coordinate that occurs more than once, the
    // ascending list of its positions, in first-occurrence order
    let mut loops: Vec<Vec<usize>> = Vec::new();
    let mut i: usize = 0;
    while i < n
        invariant
            i <= n,
            n == points@.len(),
            n > 3,
            forall|k: int| 0 <= k < loops@.len() ==> spec_loop_ok((#[trigger] loops@[k])@, n as int),
        decreases n - i,
    {
        let p = points[i];
        let mut first = true;
        let mut t: usize = 0;
        while t < i
            invariant
                t <= i,
                i < n,
                n == points@.len(),
            decreases i - t,
        {
            let q = points[t];
            if p.x == q.x && p.y == q.y {
                first = false;
            }
            t = t + 1;
        }
        if first {
            let idxs = occurrences_of(&points, i);
            if idxs.len() > 1 {
                loops.push(idxs);
            }
        }
        i = i + 1;
    }

    // nodes of degree 3 or 4 are split into elementary two-node loops by
    // pairing consecutive positions; others are kept whole
    let mut cands: Vec<Vec<usize>> = Vec::new();
    while loops.len() > 0
        invariant
            n == points@.len(),
            forall|k: int| 0 <= k < loops@.len() ==> spec_loop_ok((#[trigger] loops@[k])@, n as int),
            forall|k: int| 0 <= k < cands@.len() ==> spec_loop_ok((#[trigger] cands@[k])@, n as int),
        decreases loops@.len(),
    {
        let l = loops.remove(0);
        let len = l.len();
        if len == 3 {
            let mut p1: Vec<usize> = Vec::new();
            p1.push(l[0]);
            p1.push(l[1]);
            cands.push(p1);
            let mut p2: Vec<usize> = Vec::new();
            p2.push(l[1]);
            p2.push(l[2]);
            cands.push(p2);
        } else if len == 4 {
            let mut p1: Vec<usize> = Vec::new();
            p1.push(l[0]);
            p1.push(l[1]);
            cands.push(p1);
            let mut p2: Vec<usize> = Vec::new();
            p2.push(l[1]);
            p2.push(l[2]);
            cands.push(p2);
            let mut p3: Vec<usize> = Vec::new();
            p3.push(l[2]);
            p3.push(l[3]);
            cands.push(p3);
            let mut p4: Vec<usize> = Vec::new();
            p4.push(l[0]);
            p4.push(l[3]);
            cands.push(p4);
        } else {
            cands.push(l);
        }
    }

    // claiming order: most positions first, then smaller span, then
    // smaller start position
    let mut ordered: Vec<Vec<usize>> = Vec::new();
    while cands.len() > 0
        invariant
            n == points@.len(),
            forall|k: int| 0 <= k < cands@.len() ==> spec_loop_ok((#[trigger] cands@[k])@, n as int),
            forall|k: int| 0 <= k < ordered@.len() ==> spec_loop_ok(
                (#[trigger] ordered@[k])@,
                n as int,
            ),
        decreases cands@.len(),
    {
        let x = cands.remove(0);
        let mut pos: usize = 0;
        while pos < ordered.len()
            invariant
                pos <= ordered@.len(),
                spec_loop_ok(x@, n as int),
                forall|k: int| 0 <= k < ordered@.len() ==> spec_loop_ok(
                    (#[trigger] ordered@[k])@,
                    n as int,
                ),
            decreases ordered@.len() - pos,
        {
            if claim_order_after(&ordered[pos], &x, Ghost(n as int)) {
                break;
            }
            pos = pos + 1;
        }
        ordered.insert(pos, x);

    }

    // greedy claiming: a candidate is taken only if its start point is
    // still unclaimed; three-point spikes are dropped; surviving loops are
    // emitted after spike removal
    let mut unassigned: Vec<bool> = Vec::new();
    let mut t: usize = 0;
    while t < n
        invariant
            t <= n,
            unassigned@.len() == t,
            spec_count_true(unassigned@) == t,
        decreases n - t,
    {
        let ghost pre = unassigned@;
        unassigned.push(true);
        proof {
            assert(unassigned@.drop_last() =~= pre);
        }
        t = t + 1;
    }

    let mut results: Vec<LineString> = Vec::new();
    let m = ordered.len();
    let mut k: usize = 0;
    while k < m
        invariant
            k <= m,
            m == ordered@.len(),
            n == points@.len(),
            unassigned@.len() == n,
            forall|u: int| 0 <= u < ordered@.len() ==> spec_loop_ok(
                (#[trigger] ordered@[u])@,
                n as int,
            ),
            forall|u: int| 0 <= u < results@.len() ==> (#[trigger] results@[u]@).len() >= 4
                && results@[u]@[0] == results@[u]@[results@[u]@.len() - 1],
            forall|u: int, t: int|
                0 <= u < results@.len() && 0 <= t < results@[u]@.len() ==> spec_point_among(
                    #[trigger] results@[u]@[t],
                    points@,
                ),
            spec_claimed_points(results@) + spec_count_true(unassigned@) <= n,
            spec_claimed_points(results@) >= 0,
        decreases m - k,
    {
        let l = &ordered[k];
        let llen = l.len();
        let start = l[0];
        let end = l[llen - 1];
        assert(start < end);
        if unassigned[start] {
            if end - start == 2 {
                // a three-point spike: drop it and claim its points
                proof {
                    lemma_count_true_update(unassigned@, start as int);
                }
                unassigned[start] = false;
                proof {
                    lemma_count_true_update(unassigned@, start + 1);
                }
                unassigned[start + 1] = false;
            } else {
                let ghost u0 = spec_count_true(unassigned@);
                let mut new_ls: Vec<Point> = Vec::new();
                proof {
                    lemma_count_true_update(unassigned@, start as int);
                }
                unassigned[start] = false;
                new_ls.push(points[start]);
                let mut i2: usize = start + 1;
                while i2 < end
                    invariant
                        start < i2 <= end,
                        end < n,
                        n == points@.len(),
                        unassigned@.len() == n,
                        new_ls@.len() >= 1,
                        new_ls@[0] == points@[start as int],
                        forall|t: int| 0 <= t < new_ls@.len() ==> spec_point_among(
                            #[trigger] new_ls@[t],
                            points@,
                        ),
                        spec_count_true(unassigned@) + new_ls@.len() == u0,
                    decreases end - i2,
                {
                    if unassigned[i2] {
                        new_ls.push(points[i2]);
                        proof {
                            lemma_count_true_update(unassigned@, i2 as int);
                        }
                        unassigned[i2] = false;
                    }
                    i2 = i2 + 1;
                }
                if new_ls.len() > 2 {
                    // outer loops still need the end point, so leave it
                    // unclaimed
                    new_ls.push(points[end]);
                    let ghost nl = new_ls@;
                    match remove_spikes_linestring(LineString(new_ls)) {
                        Option::Some(ring) => {
                            proof {
                                let q = spec_despike(spec_open_cycle(nl));
                                lemma_despike_subset(spec_open_cycle(nl));
                                lemma_despike_len(spec_open_cycle(nl));
                                assert(ring@ == q.push(q[0]));
                                assert(ring@.len() <= nl.len());
                                lemma_count_true_bounds(unassigned@);
                                assert forall|t: int| 0 <= t < ring@.len() implies
                                    spec_point_among(#[trigger] ring@[t], points@) by {
                                    let qt: int = if t < q.len() { t } else { 0 };
                                    assert(ring@[t] == q[qt]);
                                    assert(spec_point_among(q[qt], spec_open_cycle(nl)));
                                    let u = choose|u: int|
                                        0 <= u < spec_open_cycle(nl).len() && spec_open_cycle(
                                            nl,
                                        )[u] == q[qt];
                                    assert(spec_open_cycle(nl)[u] == nl[u]);
                                    assert(spec_point_among(nl[u], points@));
                                    let w = choose|w: int|
                                        0 <= w < points@.len() && points@[w] == nl[u];
                                    assert(points@[w] == ring@[t]);
                                }
                            }
                            let ghost pre_results = results@;
                            results.push(ring);
                            proof {
                                assert(results@.drop_last() =~= pre_results);
                                assert(spec_claimed_points(results@) == spec_claimed_points(
                                    pre_results,
                                ) + ring@.len() - 1);
                            }
                        },
                        Option::None => {},
                    }
                }
            }
        }
        k = k + 1;
    }
    proof {
        lemma_count_true_bounds(unassigned@);
    }
    results
}

} // verus!
