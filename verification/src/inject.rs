//! The crossing injector: mutates a ring so that every detected crossing
//! becomes a shared vertex.
//!
//! Each pass scans all edge pairs and records, per edge, the crossing and
//! overlap points that are not already endpoints of that edge; the recorded
//! points are then inserted, ordered along their edge's direction. Passes
//! repeat until one records nothing — then every remaining meeting of two
//! edges is of the end-to-end kind — or until a generous pass budget runs
//! out, which keeps the loop provably terminating on adversarial input.

use vstd::prelude::*;
use core::cmp::Ordering;
use crate::geom::{Point, LineString};
use crate::intersect::{Intersection, spec_intersection, intersection, spec_delta};

verus! {

/// Passes the injector will attempt before giving up on a pathological
/// ring; real rings converge after a handful.
pub const INJECT_ROUNDS: usize = 200;

/// The absolute difference of each coordinate: a direction stripped of its
/// sign, so that comparisons along a segment need no case split on slope.
pub open spec fn spec_delta_vec(a: (int, int), b: (int, int)) -> (int, int) {
    (spec_delta(a.0, b.0), spec_delta(a.1, b.1))
}

pub open spec fn spec_sum3(a: (int, int), b: (int, int), c: (int, int)) -> (int, int) {
    (a.0 + b.0 + c.0, a.1 + b.1 + c.1)
}

/// Where p1 and p2 stand along the directed line: `Less` when p1 comes
/// first walking from the line's start to its end, `Greater` when p2 does,
/// `Equal` when they coincide or when either point is off the line, so a
/// stable sort leaves unrelated points where they were.
pub open spec fn spec_order_points(l0: (int, int), l1: (int, int), p1: (int, int), p2: (
    int,
    int,
)) -> Ordering {
    if p1 == p2 {
        Ordering::Equal
    } else {
        let slope_line = spec_delta_vec(l1, l0);
        let start_1 = spec_delta_vec(p1, l0);
        let start_2 = spec_delta_vec(p2, l0);
        let one_two = spec_delta_vec(p2, p1);
        let two_one = spec_delta_vec(p1, p2);
        let two_end = spec_delta_vec(l1, p2);
        let one_end = spec_delta_vec(l1, p1);
        if spec_sum3(start_1, one_two, two_end) == slope_line {
            Ordering::Less
        } else if spec_sum3(start_2, two_one, one_end) == slope_line {
            Ordering::Greater
        } else {
            Ordering::Equal
        }
    }
}

fn delta_vec(a: (i32, i32), b: (i32, i32)) -> (r: (i64, i64))
    ensures
        (r.0 as int, r.1 as int) == spec_delta_vec((a.0 as int, a.1 as int), (b.0 as int, b.1 as int)),
{
    let dx = if a.0 > b.0 { (a.0 as i64) - (b.0 as i64) } else { (b.0 as i64) - (a.0 as i64) };
    let dy = if a.1 > b.1 { (a.1 as i64) - (b.1 as i64) } else { (b.1 as i64) - (a.1 as i64) };
    (dx, dy)
}

/// Given a directed line and two points assumed to lie on it, returns their
/// order along the line, `Equal` for coinciding or off-line points.
pub fn order_points(line: ((i32, i32), (i32, i32)), p1: (i32, i32), p2: (i32, i32)) -> (r:
    Ordering)
    requires
        line.0 != line.1,
    ensures
        r == spec_order_points(
            (line.0.0 as int, line.0.1 as int),
            (line.1.0 as int, line.1.1 as int),
            (p1.0 as int, p1.1 as int),
            (p2.0 as int, p2.1 as int),
        ),
{
    if p1.0 == p2.0 && p1.1 == p2.1 {
        return Ordering::Equal;
    }
    let slope_line = delta_vec(line.1, line.0);
    let start_1 = delta_vec(p1, line.0);
    let start_2 = delta_vec(p2, line.0);
    let one_two = delta_vec(p2, p1);
    let two_one = delta_vec(p1, p2);
    let two_end = delta_vec(line.1, p2);
    let one_end = delta_vec(line.1, p1);
    if start_1.0 + one_two.0 + two_end.0 == slope_line.0 && start_1.1 + one_two.1 + two_end.1
        == slope_line.1 {
        Ordering::Less
    } else if start_2.0 + two_one.0 + one_end.0 == slope_line.0 && start_2.1 + two_one.1
        + one_end.1 == slope_line.1 {
        Ordering::Greater
    } else {
        Ordering::Equal
    }
}

/// Scanning edges i and j of the line string would record at least one
/// point to insert: they cross or overlap somewhere that is not already a
/// vertex of the edge, or one's endpoint touches the other's interior.
pub open spec fn spec_pair_insertable(s: Seq<Point>, i: int, j: int) -> bool {
    &&& s[i] != s[i + 1]
    &&& s[j] != s[j + 1]
    &&& match spec_intersection(s[i], s[i + 1], s[j], s[j + 1]) {
        Intersection::Crossing(cp) => (cp != s[i] && cp != s[i + 1]) || (cp != s[j] && cp != s[j
            + 1]),
        Intersection::Overlapping(o1, o2) => {
            ||| (o1 != s[i] && o1 != s[i + 1])
            ||| (o2 != s[i] && o2 != s[i + 1])
            ||| (o1 != s[j] && o1 != s[j + 1])
            ||| (o2 != s[j] && o2 != s[j + 1])
        },
        Intersection::Touching(_) => true,
        Intersection::Apart => false,
        Intersection::EndToEnd => false,
    }
}

/// No edge pair of the line string has anything left to inject: every
/// meeting of two edges happens at shared vertices only.
pub open spec fn spec_no_insertable(s: Seq<Point>) -> bool {
    forall|i: int, j: int| 0 <= i < j <= s.len() - 2 ==> !spec_pair_insertable(s, i, j)
}

/// a occurs inside b in order: matching greedily from the front succeeds.
pub open spec fn spec_subsequence(a: Seq<Point>, b: Seq<Point>) -> bool
    decreases a.len() + b.len(),
{
    if a.len() == 0 {
        true
    } else if b.len() == 0 {
        false
    } else if a[0] == b[0] {
        spec_subsequence(a.drop_first(), b.drop_first())
    } else {
        spec_subsequence(a, b.drop_first())
    }
}

proof fn lemma_subsequence_refl(a: Seq<Point>)
    ensures
        spec_subsequence(a, a),
    decreases a.len(),
{
    if a.len() > 0 {
        lemma_subsequence_refl(a.drop_first());
    }
}

proof fn lemma_subsequence_push_right(a: Seq<Point>, b: Seq<Point>, x: Point)
    requires
        spec_subsequence(a, b),
    ensures
        spec_subsequence(a, b.push(x)),
    decreases a.len() + b.len(),
{
    if a.len() == 0 {
    } else if b.len() == 0 {
    } else {
        assert(b.push(x).drop_first() =~= b.drop_first().push(x));
        if a[0] == b[0] {
            lemma_subsequence_push_right(a.drop_first(), b.drop_first(), x);
        } else {
            lemma_subsequence_push_right(a, b.drop_first(), x);
        }
    }
}

proof fn lemma_subsequence_push_both(a: Seq<Point>, b: Seq<Point>, x: Point)
    requires
        spec_subsequence(a, b),
    ensures
        spec_subsequence(a.push(x), b.push(x)),
    decreases a.len() + b.len(),
{
    if a.len() == 0 {
        lemma_subsequence_push_into(b, x);
        assert(a.push(x) =~= seq![x]);
    } else if b.len() == 0 {
    } else {
        assert(a.push(x).drop_first() =~= a.drop_first().push(x));
        assert(b.push(x).drop_first() =~= b.drop_first().push(x));
        assert(a.push(x)[0] == a[0]);
        assert(b.push(x)[0] == b[0]);
        if a[0] == b[0] {
            lemma_subsequence_push_both(a.drop_first(), b.drop_first(), x);
        } else {
            lemma_subsequence_push_both(a, b.drop_first(), x);
        }
    }
}

proof fn lemma_subsequence_push_into(b: Seq<Point>, x: Point)
    ensures
        spec_subsequence(seq![x], b.push(x)),
    decreases b.len(),
{
    let a = seq![x];
    assert(spec_subsequence(Seq::<Point>::empty(), Seq::<Point>::empty()));
    if b.len() == 0 {
        assert(b.push(x)[0] == x);
        assert(a.drop_first() =~= Seq::<Point>::empty());
        assert(b.push(x).drop_first() =~= Seq::<Point>::empty());
    } else {
        assert(b.push(x)[0] == b[0]);
        if x == b[0] {
            assert(a.drop_first() =~= Seq::<Point>::empty());
            assert(spec_subsequence(Seq::<Point>::empty(), b.push(x).drop_first()));
        } else {
            assert(b.push(x).drop_first() =~= b.drop_first().push(x));
            lemma_subsequence_push_into(b.drop_first(), x);
        }
    }
}

proof fn lemma_subsequence_drop_left(a: Seq<Point>, b: Seq<Point>)
    requires
        spec_subsequence(a, b),
        a.len() > 0,
    ensures
        spec_subsequence(a.drop_first(), b),
    decreases a.len() + b.len(),
{
    if b.len() == 0 {
    } else if a[0] == b[0] {
        if a.drop_first().len() == 0 {
        } else {
            lemma_subsequence_drop_left(a.drop_first(), b.drop_first());
            lemma_subsequence_weaken_right(a.drop_first().drop_first(), b);
        }
    } else {
        lemma_subsequence_drop_left(a, b.drop_first());
        lemma_subsequence_weaken_right(a.drop_first(), b);
    }
}

/// Anything that occurs in the tail of b occurs in b.
proof fn lemma_subsequence_weaken_right(a: Seq<Point>, b: Seq<Point>)
    requires
        b.len() > 0,
        spec_subsequence(a, b.drop_first()),
    ensures
        spec_subsequence(a, b),
    decreases a.len() + b.len(),
{
    if a.len() == 0 {
    } else if a[0] == b[0] {
        lemma_subsequence_drop_left(a, b.drop_first());
    }
}

proof fn lemma_subsequence_trans(a: Seq<Point>, b: Seq<Point>, c: Seq<Point>)
    requires
        spec_subsequence(a, b),
        spec_subsequence(b, c),
    ensures
        spec_subsequence(a, c),
    decreases a.len() + b.len() + c.len(),
{
    if a.len() == 0 {
    } else if c.len() == 0 {
    } else if b.len() == 0 {
    } else if b[0] == c[0] {
        if a[0] == b[0] {
            lemma_subsequence_trans(a.drop_first(), b.drop_first(), c.drop_first());
        } else {
            lemma_subsequence_trans(a, b.drop_first(), c.drop_first());
            if a[0] == c[0] {
                lemma_subsequence_drop_left(a, c.drop_first());
            }
        }
    } else {
        lemma_subsequence_trans(a, b, c.drop_first());
        if a[0] == c[0] {
            lemma_subsequence_drop_left(a, c.drop_first());
        }
    }
}

/// The points of `pend` recorded for edge idx, in recording order.
fn collect_for(pend: &Vec<(usize, Point)>, idx: usize) -> (r: Vec<Point>)
    ensures
        (exists|t: int| 0 <= t < pend@.len() && (#[trigger] pend@[t]).0 == idx) ==> r@.len() > 0,
        r@.len() > 0 ==> exists|t: int| 0 <= t < pend@.len() && (#[trigger] pend@[t]).0 == idx,
{
    let m = pend.len();
    let mut r: Vec<Point> = Vec::new();
    let mut t: usize = 0;
    while t < m
        invariant
            t <= m,
            m == pend@.len(),
            (exists|u: int| 0 <= u < t && (#[trigger] pend@[u]).0 == idx) ==> r@.len() > 0,
            r@.len() > 0 ==> exists|u: int| 0 <= u < t && (#[trigger] pend@[u]).0 == idx,
        decreases m - t,
    {
        let (k, p) = pend[t];
        if k == idx {
            r.push(p);
            proof {
                assert((pend@[t as int]).0 == idx);
            }
        }
        t = t + 1;
    }
    r
}

/// Stable sort of the recorded points along the direction of their edge.
fn sort_along(a: Point, b: Point, v: Vec<Point>) -> (r: Vec<Point>)
    requires
        a != b,
    ensures
        r@.len() == v@.len(),
{
    let m = v.len();
    let mut r: Vec<Point> = Vec::new();
    let mut t: usize = 0;
    while t < m
        invariant
            t <= m,
            m == v@.len(),
            r@.len() == t,
            a != b,
        decreases m - t,
    {
        let x = v[t];
        let mut pos: usize = 0;
        while pos < r.len()
            invariant
                pos <= r@.len(),
                a != b,
            decreases r@.len() - pos,
        {
            let c = order_points(((a.x, a.y), (b.x, b.y)), (r[pos].x, r[pos].y), (x.x, x.y));
            if matches!(c, Ordering::Greater) {
                break;
            }
            pos = pos + 1;
        }
        r.insert(pos, x);
        t = t + 1;
    }
    r
}

/// Consecutive equal points collapsed to one.
fn dedup_consecutive(v: Vec<Point>) -> (r: Vec<Point>)
    ensures
        r@.len() <= v@.len(),
        v@.len() > 0 ==> r@.len() > 0,
{
    let m = v.len();
    let mut r: Vec<Point> = Vec::new();
    let mut t: usize = 0;
    while t < m
        invariant
            t <= m,
            m == v@.len(),
            r@.len() <= t,
            t > 0 ==> r@.len() > 0,
        decreases m - t,
    {
        let x = v[t];
        if r.len() == 0 {
            r.push(x);
        } else {
            let last = r[r.len() - 1];
            if !(last.x == x.x && last.y == x.y) {
                r.push(x);
            }
        }
        t = t + 1;
    }
    r
}

/// Modifies the line string so that at every place where two edges cross or
/// overlap there is a vertex. When the returned ring reports no more
/// insertable points, every remaining self-meeting is of the end-to-end
/// kind; on pathological input the pass budget may run out instead, which
/// the growth in length then witnesses.
pub fn add_points_for_all_crossings(ls: &mut LineString)
    ensures
        old(ls)@.len() <= 3 ==> final(ls)@ == old(ls)@,
        final(ls)@.len() >= old(ls)@.len(),
        old(ls)@.len() > 3 ==> final(ls)@.len() > 3 && final(ls)@[0] == old(ls)@[0]
            && final(ls)@[final(ls)@.len() - 1] == old(ls)@[old(ls)@.len() - 1],
        old(ls)@.len() > 3 ==> (spec_no_insertable(final(ls)@)
            || final(ls)@.len() >= old(ls)@.len() + INJECT_ROUNDS),
        spec_no_insertable(old(ls)@) ==> final(ls)@ == old(ls)@,
        spec_subsequence(old(ls)@, final(ls)@),
{
    proof {
        lemma_subsequence_refl(ls@);
    }
    if ls.0.len() <= 3 {
        return;
    }
    let mut rounds: usize = 0;
    loop
        invariant
            ls@.len() > 3,
            rounds <= INJECT_ROUNDS,
            ls@.len() >= old(ls)@.len() + rounds,
            ls@[0] == old(ls)@[0],
            ls@[ls@.len() - 1] == old(ls)@[old(ls)@.len() - 1],
            spec_no_insertable(old(ls)@) ==> ls@ == old(ls)@,
            spec_subsequence(old(ls)@, ls@),
        ensures
            ls@.len() > 3,
            ls@.len() >= old(ls)@.len(),
            ls@[0] == old(ls)@[0],
            ls@[ls@.len() - 1] == old(ls)@[old(ls)@.len() - 1],
            spec_no_insertable(ls@) || ls@.len() >= old(ls)@.len() + INJECT_ROUNDS,
            spec_no_insertable(old(ls)@) ==> ls@ == old(ls)@,
            spec_subsequence(old(ls)@, ls@),
        decreases INJECT_ROUNDS - rounds,
    {
        if rounds >= INJECT_ROUNDS {
            break;
        }
        let n = ls.0.len();
        // scan: record, per edge, the points where another edge meets it
        let mut pend: Vec<(usize, Point)> = Vec::new();
        let mut i: usize = 0;
        while i < n - 1
            invariant
                n == ls@.len(),
                n > 3,
                i <= n - 1,
                forall|t: int| 0 <= t < pend@.len() ==> (#[trigger] pend@[t]).0 < n - 1
                    && ls@[(pend@[t]).0 as int] != ls@[(pend@[t]).0 + 1],
                pend@.len() == 0 ==> forall|a: int, b: int|
                    0 <= a < i && a < b <= n - 2 ==> !spec_pair_insertable(ls@, a, b),
                spec_no_insertable(ls@) ==> pend@.len() == 0,
            decreases n - 1 - i,
        {
            let p1 = ls.0[i];
            let p2 = ls.0[i + 1];
            let zero12 = p1.x == p2.x && p1.y == p2.y;
            let mut j: usize = i + 1;
            while j < n - 1
                invariant
                    n == ls@.len(),
                    n > 3,
                    i < n - 1,
                    i < j <= n - 1,
                    p1 == ls@[i as int],
                    p2 == ls@[i + 1],
                    zero12 == (p1 == p2),
                    forall|t: int| 0 <= t < pend@.len() ==> (#[trigger] pend@[t]).0 < n - 1
                        && ls@[(pend@[t]).0 as int] != ls@[(pend@[t]).0 + 1],
                    pend@.len() == 0 ==> forall|a: int, b: int|
                        0 <= a < i && a < b <= n - 2 ==> !spec_pair_insertable(ls@, a, b),
                    pend@.len() == 0 ==> forall|b: int|
                        i < b < j ==> !spec_pair_insertable(ls@, i as int, b),
                    spec_no_insertable(ls@) ==> pend@.len() == 0,
                decreases n - 1 - j,
            {
                let p3 = ls.0[j];
                let p4 = ls.0[j + 1];
                if !zero12 && !(p3.x == p4.x && p3.y == p4.y) {
                    match intersection(p1.x, p1.y, p2.x, p2.y, p3.x, p3.y, p4.x, p4.y) {
                        Intersection::Apart | Intersection::EndToEnd => {},
                        Intersection::Crossing(cp) => {
                            // never create a duplicate of an existing vertex
                            if !(cp == p1) && !(cp == p2) {
                                assert(spec_pair_insertable(ls@, i as int, j as int));
                                pend.push((i, cp));
                            }
                            if !(cp == p3) && !(cp == p4) {
                                assert(spec_pair_insertable(ls@, i as int, j as int));
                                pend.push((j, cp));
                            }
                        },
                        Intersection::Overlapping(o1, o2) => {
                            if !(o1 == p1) && !(o1 == p2) {
                                assert(spec_pair_insertable(ls@, i as int, j as int));
                                pend.push((i, o1));
                            }
                            if !(o2 == p1) && !(o2 == p2) {
                                assert(spec_pair_insertable(ls@, i as int, j as int));
                                pend.push((i, o2));
                            }
                            if !(o1 == p3) && !(o1 == p4) {
                                assert(spec_pair_insertable(ls@, i as int, j as int));
                                pend.push((j, o1));
                            }
                            if !(o2 == p3) && !(o2 == p4) {
                                assert(spec_pair_insertable(ls@, i as int, j as int));
                                pend.push((j, o2));
                            }
                        },
                        Intersection::Touching(tp) => {
                            assert(spec_pair_insertable(ls@, i as int, j as int));
                            if tp == p1 || tp == p2 {
                                // the touch is an endpoint of edge i, so it
                                // splits edge j
                                pend.push((j, tp));
                            } else {
                                // a Touching point is always an endpoint of
                                // one of the two edges
                                assert(tp == p3 || tp == p4);
                                pend.push((i, tp));
                            }
                        },
                    }
                }
                j = j + 1;
            }
            i = i + 1;
        }

        if pend.len() == 0 {
            assert(forall|a: int, b: int| 0 <= a < b <= n - 2 ==> !spec_pair_insertable(ls@, a, b));
            break;
        }

        // apply: rebuild the ring with the recorded points inserted after
        // the start vertex of their edge, ordered along the edge
        let ghost idx0 = pend@[0].0 as int;
        let ghost cur = ls@;
        let mut new_v: Vec<Point> = Vec::new();
        proof {
            assert(cur.take(0) =~= Seq::<Point>::empty());
            assert(spec_subsequence(cur.take(0), new_v@));
        }
        let mut idx: usize = 0;
        while idx < n - 1
            invariant
                n == ls@.len(),
                n > 3,
                idx <= n - 1,
                pend@.len() > 0,
                idx0 == pend@[0].0 as int,
                0 <= idx0 < n - 1,
                cur == ls@,
                ls@[idx0] != ls@[idx0 + 1],
                forall|t: int| 0 <= t < pend@.len() ==> (#[trigger] pend@[t]).0 < n - 1
                    && ls@[(pend@[t]).0 as int] != ls@[(pend@[t]).0 + 1],
                new_v@.len() >= idx,
                idx > idx0 ==> new_v@.len() >= idx + 1,
                new_v@.len() > 0 ==> new_v@[0] == ls@[0],
                idx == 0 ==> new_v@.len() == 0,
                spec_subsequence(cur.take(idx as int), new_v@),
            decreases n - 1 - idx,
        {
            proof {
                lemma_subsequence_push_both(cur.take(idx as int), new_v@, cur[idx as int]);
                assert(cur.take(idx + 1) =~= cur.take(idx as int).push(cur[idx as int]));
            }
            new_v.push(ls.0[idx]);
            proof {
                if idx == idx0 {
                    assert((pend@[0]).0 == idx);
                }
            }
            let gathered = collect_for(&pend, idx);
            if gathered.len() > 0 {
                proof {
                    let t = choose|t: int| 0 <= t < pend@.len() && (#[trigger] pend@[t]).0 == idx;
                    assert(ls@[idx as int] != ls@[idx + 1]);
                }
                let sorted = sort_along(ls.0[idx], ls.0[idx + 1], gathered);
                let cleaned = dedup_consecutive(sorted);
                let m = cleaned.len();
                let mut t: usize = 0;
                while t < m
                    invariant
                        t <= m,
                        m == cleaned@.len(),
                        m > 0,
                        cur == ls@,
                        idx < n - 1,
                        n == ls@.len(),
                        new_v@.len() >= idx + 1 + t,
                        new_v@.len() > 0 && new_v@[0] == ls@[0],
                        spec_subsequence(cur.take(idx + 1), new_v@),
                    decreases m - t,
                {
                    proof {
                        lemma_subsequence_push_right(cur.take(idx + 1), new_v@, cleaned@[t as int]);
                    }
                    new_v.push(cleaned[t]);
                    t = t + 1;
                }
            }
            idx = idx + 1;
        }
        proof {
            lemma_subsequence_push_both(cur.take(n - 1), new_v@, cur[n - 1]);
            assert(cur.take(n as int) =~= cur.take(n - 1).push(cur[n - 1]));
        }
        new_v.push(ls.0[n - 1]);
        proof {
            assert(new_v@.len() >= n + 1);
            assert(new_v@[new_v@.len() - 1] == ls@[n - 1]);
            assert(cur.take(n as int) =~= cur);
            assert(spec_subsequence(cur, new_v@));
            lemma_subsequence_trans(old(ls)@, cur, new_v@);
        }
        ls.0 = new_v;
        rounds = rounds + 1;
    }
}

} // verus!
