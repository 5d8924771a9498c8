//! Exact classification of how two line segments meet.
//!
//! Everything here is integer arithmetic: the 2x2 linear system for the
//! crossing point is solved with integer numerators and denominators,
//! promoted to a wide integer type so that no cross-product term can
//! overflow, and the crossing point is brought back to integer
//! coordinates by `spec_round_div` — never by floating point.

use vstd::prelude::*;
use crate::geom::Point;

verus! {

/// How two directed segments meet. Zero-length segments are a precondition
/// violation of the classifier, never a normal outcome.
#[derive(PartialEq, Eq, Clone, Copy, Debug, Structural)]
pub enum Intersection {
    /// The segments do not meet at all.
    Apart,
    /// The segments are collinear and one lies wholly or partially on top of
    /// the other; the two points bound the shared sub-range.
    Overlapping(Point, Point),
    /// The segments share exactly an endpoint.
    EndToEnd,
    /// An endpoint of one segment lies in the other segment's interior.
    Touching(Point),
    /// The segments cross at a single interior point, reduced to integer
    /// coordinates by `spec_round_div`.
    Crossing(Point),
}

pub open spec fn spec_min(a: int, b: int) -> int {
    if a <= b { a } else { b }
}

pub open spec fn spec_max(a: int, b: int) -> int {
    if a <= b { b } else { a }
}

/// The bounding boxes of the two segments do not even overlap.
pub open spec fn spec_bbox_apart(p1: Point, p2: Point, p3: Point, p4: Point) -> bool {
    ||| spec_max(p1.x as int, p2.x as int) < spec_min(p3.x as int, p4.x as int)
    ||| spec_min(p1.x as int, p2.x as int) > spec_max(p3.x as int, p4.x as int)
    ||| spec_max(p1.y as int, p2.y as int) < spec_min(p3.y as int, p4.y as int)
    ||| spec_min(p1.y as int, p2.y as int) > spec_max(p3.y as int, p4.y as int)
}

/// True iff point p is collinear with the line through a and b (also true
/// beyond the ends of the segment ab).
pub open spec fn spec_collinear(a: Point, b: Point, p: Point) -> bool {
    (b.x - a.x) * (p.y - a.y) == (b.y - a.y) * (p.x - a.x)
}

pub open spec fn spec_in_bounds(z: int, a: int, b: int) -> bool {
    spec_min(a, b) <= z && z <= spec_max(a, b)
}

/// p lies on the segment ab, endpoints included (p assumed collinear with ab).
pub open spec fn spec_on_segment_incl(a: Point, b: Point, p: Point) -> bool {
    spec_in_bounds(p.x as int, a.x as int, b.x as int)
        && spec_in_bounds(p.y as int, a.y as int, b.y as int)
}

/// p lies strictly inside the segment ab (p assumed collinear with ab).
pub open spec fn spec_on_segment_excl(a: Point, b: Point, p: Point) -> bool {
    p != a && p != b && spec_on_segment_incl(a, b, p)
}

pub open spec fn spec_delta(a: int, b: int) -> int {
    if a > b { a - b } else { b - a }
}

/// The cross-determinant of the two segments' direction vectors; zero iff
/// the directions are parallel.
pub open spec fn spec_det0(p1: Point, p2: Point, p3: Point, p4: Point) -> int {
    (p2.x - p1.x) * (p3.y - p4.y) - (p3.x - p4.x) * (p2.y - p1.y)
}

/// Classification of two collinear (parallel and on one line) segments,
/// resolved purely by 1-D containment of the four points along the line:
/// an exact end-to-end chain, or the overlap sub-range.
pub open spec fn spec_collinear_case(p1: Point, p2: Point, p3: Point, p4: Point) -> Intersection {
    if (p1 == p3 && p2 == p4) || (p1 == p4 && p2 == p3) {
        Intersection::Overlapping(p1, p2)
    } else if !spec_collinear(p3, p4, p1) {
        // parallel but on distinct lines
        Intersection::Apart
    } else {
        let dx = spec_delta(p1.x as int, p2.x as int) + spec_delta(p3.x as int, p4.x as int);
        let dy = spec_delta(p1.y as int, p2.y as int) + spec_delta(p3.y as int, p4.y as int);
        if (dx == spec_delta(p1.x as int, p4.x as int) && dy == spec_delta(p1.y as int, p4.y as int))
            || (dx == spec_delta(p2.x as int, p4.x as int) && dy == spec_delta(p2.y as int, p4.y as int))
            || (dx == spec_delta(p1.x as int, p3.x as int) && dy == spec_delta(p1.y as int, p3.y as int))
            || (dx == spec_delta(p2.x as int, p3.x as int) && dy == spec_delta(p2.y as int, p3.y as int)) {
            // the total span equals the sum of the parts: one after the other
            Intersection::EndToEnd
        } else {
            let o3 = spec_on_segment_excl(p1, p2, p3);
            let o4 = spec_on_segment_excl(p1, p2, p4);
            if o3 && o4 {
                Intersection::Overlapping(p3, p4)
            } else if o3 {
                Intersection::Overlapping(p3, if spec_on_segment_incl(p3, p4, p1) { p1 } else { p2 })
            } else if o4 {
                Intersection::Overlapping(p4, if spec_on_segment_incl(p3, p4, p1) { p1 } else { p2 })
            } else {
                // the first segment is a sub-range of the second
                Intersection::Overlapping(p1, p2)
            }
        }
    }
}

/// Division of num by a positive den, rounded to the nearest integer with
/// round-half-up on the doubled remainder: the quotient is bumped by one
/// exactly when twice the division remainder reaches the denominator.
/// Division here is floor division with a non-negative remainder, so the
/// same rule covers negative numerators. No floating point is involved
/// anywhere.
pub open spec fn spec_round_div(num: int, den: int) -> int {
    num / den + if 2 * (num % den) >= den { 1int } else { 0int }
}

/// The rounded crossing point of two properly crossing segments, where td
/// over det is the parameter of the crossing along the first segment.
pub open spec fn spec_cross_point(p1: Point, p2: Point, td: int, det: int) -> Point {
    Point {
        x: (p1.x + spec_round_div(td * (p2.x - p1.x), det)) as i32,
        y: (p1.y + spec_round_div(td * (p2.y - p1.y), det)) as i32,
    }
}

/// Classification of two non-parallel segments: solve the 2x2 system with
/// integer numerators sd, td over the positive denominator det and read the
/// relation off where each parameter falls in [0, det].
pub open spec fn spec_skew_case(p1: Point, p2: Point, p3: Point, p4: Point) -> Intersection {
    let a = p2.x - p1.x;
    let b = p3.x - p4.x;
    let c = p2.y - p1.y;
    let d = p3.y - p4.y;
    let e = p3.x - p1.x;
    let f = p3.y - p1.y;
    let det0 = a * d - b * c;
    let sgn = if det0 > 0 { 1int } else { -1int };
    let det = sgn * det0;
    let sd = sgn * (a * f - c * e);
    let td = sgn * (d * e - b * f);
    if sd > det || sd < 0 {
        Intersection::Apart
    } else if td > det || td < 0 {
        Intersection::Apart
    } else if (td == det || td == 0) && (sd == 0 || sd == det) {
        Intersection::EndToEnd
    } else if td == 0 {
        Intersection::Touching(p1)
    } else if td == det {
        Intersection::Touching(p2)
    } else if sd == 0 {
        Intersection::Touching(p3)
    } else if sd == det {
        Intersection::Touching(p4)
    } else {
        Intersection::Crossing(spec_cross_point(p1, p2, td, det))
    }
}

/// How the segments p1-p2 and p3-p4 meet, assuming both have distinct
/// endpoints: the single source of truth that `intersection` implements.
pub open spec fn spec_intersection(p1: Point, p2: Point, p3: Point, p4: Point) -> Intersection {
    if spec_bbox_apart(p1, p2, p3, p4) {
        Intersection::Apart
    } else if spec_det0(p1, p2, p3, p4) == 0 {
        spec_collinear_case(p1, p2, p3, p4)
    } else {
        spec_skew_case(p1, p2, p3, p4)
    }
}

/// If the directions are parallel and p1 lies on the line through p3 and p4,
/// then p2 lies on that line as well.
proof fn lemma_parallel_collinear(p1: Point, p2: Point, p3: Point, p4: Point)
    requires
        spec_det0(p1, p2, p3, p4) == 0,
        spec_collinear(p3, p4, p1),
    ensures
        spec_collinear(p3, p4, p2),
{
    let x1 = p1.x as int; let y1 = p1.y as int;
    let x2 = p2.x as int; let y2 = p2.y as int;
    let x3 = p3.x as int; let y3 = p3.y as int;
    let x4 = p4.x as int; let y4 = p4.y as int;
    assert((x4 - x3) * (y2 - y3) - (y4 - y3) * (x2 - x3)
        == ((x4 - x3) * (y2 - y1) - (y4 - y3) * (x2 - x1))
            + ((x4 - x3) * (y1 - y3) - (y4 - y3) * (x1 - x3))) by (nonlinear_arith);
    assert((x4 - x3) * (y2 - y1) - (y4 - y3) * (x2 - x1)
        == (x2 - x1) * (y3 - y4) - (x3 - x4) * (y2 - y1)) by (nonlinear_arith);
}

/// |a * b| is bounded by the product of bounds on |a| and |b|.
pub proof fn lemma_mul_bound(a: int, b: int, ba: int, bb: int)
    requires
        -ba <= a <= ba,
        -bb <= b <= bb,
        0 <= ba,
        0 <= bb,
    ensures
        -(ba * bb) <= a * b <= ba * bb,
{
    assert(-(ba * bb) <= a * b <= ba * bb) by (nonlinear_arith)
        requires -ba <= a <= ba, -bb <= b <= bb, 0 <= ba, 0 <= bb;
}

/// For a positive denominator, the rounded quotient of td * step over det
/// stays between 0 and step (or between step and 0 for negative step),
/// provided 0 <= td < det.
proof fn lemma_round_div_range(td: int, step: int, det: int)
    requires
        0 < td < det,
    ensures
        step >= 0 ==> 0 <= spec_round_div(td * step, det) <= step,
        step < 0 ==> step <= spec_round_div(td * step, det) <= 0,
{
    let num = td * step;
    vstd::arithmetic::div_mod::lemma_fundamental_div_mod(num, det);
    vstd::arithmetic::div_mod::lemma_mod_bound(num, det);
    let q = num / det;
    let r = num % det;
    if step >= 0 {
        assert(0 <= td * step && td * step <= (det - 1) * step) by (nonlinear_arith)
            requires 0 < td < det && step >= 0;
        vstd::arithmetic::div_mod::lemma_div_pos_is_pos(num, det);
        if step == 0 {
            assert(num == 0) by (nonlinear_arith)
                requires num == td * step && step == 0;
            assert(num / det == 0) by {
                vstd::arithmetic::div_mod::lemma_div_of0(det);
            }
            assert((0int) % det == 0) by {
                vstd::arithmetic::div_mod::lemma_small_mod(0nat, det as nat);
            }
        } else {
            // q < step, so even with the rounding bump the result is <= step
            assert(q < step) by (nonlinear_arith)
                requires
                    det * q + r == num && 0 <= r && num <= (det - 1) * step && step >= 1 && det
                        > 0;
        }
    } else {
        assert(td * step < 0 && td * step >= (det - 1) * step) by (nonlinear_arith)
            requires 0 < td < det && step < 0;
        // the floor quotient is negative and no smaller than step itself
        assert(q < 0) by (nonlinear_arith)
            requires det * q + r == num && 0 <= r < det && num < 0 && det > 0;
        assert(q >= step) by (nonlinear_arith)
            requires
                det * q + r == num && 0 <= r < det && num >= (det - 1) * step && step <= -1
                    && det > 0;
    }
}

/// num / den rounded to the nearest integer, half up, by floor division
/// and the doubled remainder, exactly `spec_round_div`.
fn round_div_i128(num: i128, den: i128) -> (q: i128)
    requires
        0 < den <= 0x1000_0000_0000_0000_0000_0000_0000,
        -0x1000_0000_0000_0000_0000_0000_0000 <= num <= 0x1000_0000_0000_0000_0000_0000_0000,
    ensures
        q == spec_round_div(num as int, den as int),
{
    if num >= 0 {
        let nu = num as u128;
        let du = den as u128;
        let q0 = nu / du;
        let r = nu % du;
        proof {
            vstd::arithmetic::div_mod::lemma_div_basics_5(nu as int, du as int);
            vstd::arithmetic::div_mod::lemma_div_pos_is_pos(nu as int, du as int);
            vstd::arithmetic::div_mod::lemma_mod_bound(nu as int, du as int);
        }
        if 2 * r >= du {
            (q0 as i128) + 1
        } else {
            q0 as i128
        }
    } else {
        // floor division from the magnitude: -num == qm * den + rm
        let m = (-num) as u128;
        let du = den as u128;
        let qm = m / du;
        let rm = m % du;
        proof {
            vstd::arithmetic::div_mod::lemma_fundamental_div_mod(m as int, du as int);
            vstd::arithmetic::div_mod::lemma_mod_bound(m as int, du as int);
            vstd::arithmetic::div_mod::lemma_div_basics_5(m as int, du as int);
            vstd::arithmetic::div_mod::lemma_div_pos_is_pos(m as int, du as int);
            if rm == 0 {
                assert(num as int == (-(qm as int)) * (den as int) + 0) by (nonlinear_arith)
                    requires m as int == (den as int) * (qm as int) && num as int == -(m as int);
                vstd::arithmetic::div_mod::lemma_fundamental_div_mod_converse(
                    num as int,
                    den as int,
                    -(qm as int),
                    0,
                );
            } else {
                assert(num as int == (-(qm as int) - 1) * (den as int) + (den as int
                    - rm as int)) by (nonlinear_arith)
                    requires
                        m as int == (den as int) * (qm as int) + rm as int && num as int == -(
                        m as int);
                vstd::arithmetic::div_mod::lemma_fundamental_div_mod_converse(
                    num as int,
                    den as int,
                    -(qm as int) - 1,
                    den as int - rm as int,
                );
            }
        }
        if rm == 0 {
            // the remainder is zero, so no bump
            -(qm as i128)
        } else {
            let q0 = -(qm as i128) - 1;
            let r = den - (rm as i128);
            if 2 * r >= den {
                q0 + 1
            } else {
                q0
            }
        }
    }
}

/// Classifies how the segments (x1,y1)-(x2,y2) and (x3,y3)-(x4,y4) meet.
///
/// The two segments may share endpoints (EndToEnd) but each must itself have
/// two distinct endpoints. The result is exactly `spec_intersection` of the
/// four points.
#[verifier::rlimit(100)]
#[verifier::spinoff_prover]
pub fn intersection(x1: i32, y1: i32, x2: i32, y2: i32, x3: i32, y3: i32, x4: i32, y4: i32) -> (r:
    Intersection)
    requires
        !(x1 == x2 && y1 == y2),
        !(x3 == x4 && y3 == y4),
    ensures
        r == spec_intersection(
            Point { x: x1, y: y1 },
            Point { x: x2, y: y2 },
            Point { x: x3, y: y3 },
            Point { x: x4, y: y4 },
        ),
{
    let p1 = Point { x: x1, y: y1 };
    let p2 = Point { x: x2, y: y2 };
    let p3 = Point { x: x3, y: y3 };
    let p4 = Point { x: x4, y: y4 };
    let ghost pts = (p1, p2, p3, p4);

    // fast reject via bounding boxes
    let max12x = if x1 <= x2 { x2 } else { x1 };
    let min12x = if x1 <= x2 { x1 } else { x2 };
    let max34x = if x3 <= x4 { x4 } else { x3 };
    let min34x = if x3 <= x4 { x3 } else { x4 };
    let max12y = if y1 <= y2 { y2 } else { y1 };
    let min12y = if y1 <= y2 { y1 } else { y2 };
    let max34y = if y3 <= y4 { y4 } else { y3 };
    let min34y = if y3 <= y4 { y3 } else { y4 };
    if max12x < min34x || min12x > max34x || max12y < min34y || min12y > max34y {
        return Intersection::Apart;
    }

    let x1l = x1 as i128; let y1l = y1 as i128;
    let x2l = x2 as i128; let y2l = y2 as i128;
    let x3l = x3 as i128; let y3l = y3 as i128;
    let x4l = x4 as i128; let y4l = y4 as i128;

    let a = x2l - x1l;
    let b = x3l - x4l;
    let c = y2l - y1l;
    let d = y3l - y4l;

    proof {
        lemma_mul_bound(a as int, d as int, 0x1_0000_0000, 0x1_0000_0000);
        lemma_mul_bound(b as int, c as int, 0x1_0000_0000, 0x1_0000_0000);
    }
    let det0 = a * d - b * c;

    if det0 == 0 {
        // parallel directions: resolve along the shared line
        if (x1 == x3 && y1 == y3 && x2 == x4 && y2 == y4)
            || (x1 == x4 && y1 == y4 && x2 == x3 && y2 == y3) {
            return Intersection::Overlapping(p1, p2);
        }
        proof {
            lemma_mul_bound((x4l - x3l) as int, (y1l - y3l) as int, 0x1_0000_0000, 0x1_0000_0000);
            lemma_mul_bound((y4l - y3l) as int, (x1l - x3l) as int, 0x1_0000_0000, 0x1_0000_0000);
            lemma_mul_bound((x4l - x3l) as int, (y2l - y3l) as int, 0x1_0000_0000, 0x1_0000_0000);
            lemma_mul_bound((y4l - y3l) as int, (x2l - x3l) as int, 0x1_0000_0000, 0x1_0000_0000);
        }
        let p1_col = (x4l - x3l) * (y1l - y3l) == (y4l - y3l) * (x1l - x3l);
        let p2_col = (x4l - x3l) * (y2l - y3l) == (y4l - y3l) * (x2l - x3l);
        if !p1_col && !p2_col {
            return Intersection::Apart;
        }
        if !p1_col || !p2_col {
            proof {
                if p1_col {
                    lemma_parallel_collinear(p1, p2, p3, p4);
                } else {
                    // the roles of p1 and p2 swap: the determinant for (p2, p1)
                    // against (p3, p4) is the negation of det0
                    assert(spec_det0(p2, p1, p3, p4) == -spec_det0(p1, p2, p3, p4))
                        by (nonlinear_arith);
                    lemma_parallel_collinear(p2, p1, p3, p4);
                }
                assert(false);
            }
            return Intersection::Apart;
        }
        // both segments lie on one line
        let dx = delta_i64(x1, x2) + delta_i64(x3, x4);
        let dy = delta_i64(y1, y2) + delta_i64(y3, y4);
        if (dx == delta_i64(x1, x4) && dy == delta_i64(y1, y4))
            || (dx == delta_i64(x2, x4) && dy == delta_i64(y2, y4))
            || (dx == delta_i64(x1, x3) && dy == delta_i64(y1, y3))
            || (dx == delta_i64(x2, x3) && dy == delta_i64(y2, y3)) {
            return Intersection::EndToEnd;
        }
        let p3_on_12 = on_segment_excl(p1, p2, p3);
        let p4_on_12 = on_segment_excl(p1, p2, p4);
        if p3_on_12 && p4_on_12 {
            return Intersection::Overlapping(p3, p4);
        } else if p3_on_12 {
            let other = if on_segment_incl(p3, p4, p1) { p1 } else { p2 };
            return Intersection::Overlapping(p3, other);
        } else if p4_on_12 {
            let other = if on_segment_incl(p3, p4, p1) { p1 } else { p2 };
            return Intersection::Overlapping(p4, other);
        } else {
            return Intersection::Overlapping(p1, p2);
        }
    }

    let e = x3l - x1l;
    let f = y3l - y1l;

    let sgn: i128 = if det0 > 0 { 1 } else { -1 };
    let det = if det0 > 0 { det0 } else { -det0 };

    proof {
        lemma_mul_bound(a as int, f as int, 0x1_0000_0000, 0x1_0000_0000);
        lemma_mul_bound(c as int, e as int, 0x1_0000_0000, 0x1_0000_0000);
        lemma_mul_bound(d as int, e as int, 0x1_0000_0000, 0x1_0000_0000);
        lemma_mul_bound(b as int, f as int, 0x1_0000_0000, 0x1_0000_0000);
    }
    let sd0 = a * f - c * e;
    let sd = if det0 > 0 { sd0 } else { -sd0 };
    proof {
        assert(sd == sgn * sd0) by (nonlinear_arith)
            requires (det0 > 0 ==> sgn == 1 && sd == sd0) && (det0 <= 0 ==> sgn == -1 && sd == -sd0);
    }
    if sd > det || sd < 0 {
        return Intersection::Apart;
    }
    let td0 = d * e - b * f;
    let td = if det0 > 0 { td0 } else { -td0 };
    proof {
        assert(td == sgn * td0) by (nonlinear_arith)
            requires (det0 > 0 ==> sgn == 1 && td == td0) && (det0 <= 0 ==> sgn == -1 && td == -td0);
    }
    if td > det || td < 0 {
        return Intersection::Apart;
    }

    if (td == det || td == 0) && (sd == 0 || sd == det) {
        return Intersection::EndToEnd;
    } else if td == 0 {
        return Intersection::Touching(p1);
    } else if td == det {
        return Intersection::Touching(p2);
    } else if sd == 0 {
        return Intersection::Touching(p3);
    } else if sd == det {
        return Intersection::Touching(p4);
    }

    // proper crossing: 0 < sd < det and 0 < td < det
    proof {
        lemma_mul_bound(td as int, a as int, 0x4_0000_0000_0000_0000, 0x1_0000_0000);
        lemma_mul_bound(td as int, c as int, 0x4_0000_0000_0000_0000, 0x1_0000_0000);
    }
    let numx = td * a;
    let numy = td * c;
    let qx = round_div_i128(numx, det);
    let qy = round_div_i128(numy, det);
    proof {
        lemma_round_div_range(td as int, a as int, det as int);
        lemma_round_div_range(td as int, c as int, det as int);
    }
    let x = x1l + qx;
    let y = y1l + qy;
    let cp = Point { x: x as i32, y: y as i32 };
    proof {
        assert(cp == spec_cross_point(p1, p2, td as int, det as int));
    }
    Intersection::Crossing(cp)
}

/// |a - b| computed without overflow.
fn delta_i64(a: i32, b: i32) -> (r: i64)
    ensures
        r == spec_delta(a as int, b as int),
{
    let al = a as i64;
    let bl = b as i64;
    if al > bl { al - bl } else { bl - al }
}

fn in_bounds_i32(z: i32, a: i32, b: i32) -> (r: bool)
    ensures
        r == spec_in_bounds(z as int, a as int, b as int),
{
    let lo = if a <= b { a } else { b };
    let hi = if a <= b { b } else { a };
    lo <= z && z <= hi
}

fn on_segment_incl(a: Point, b: Point, p: Point) -> (r: bool)
    ensures
        r == spec_on_segment_incl(a, b, p),
{
    in_bounds_i32(p.x, a.x, b.x) && in_bounds_i32(p.y, a.y, b.y)
}

fn on_segment_excl(a: Point, b: Point, p: Point) -> (r: bool)
    ensures
        r == spec_on_segment_excl(a, b, p),
{
    !(p.x == a.x && p.y == a.y) && !(p.x == b.x && p.y == b.y) && in_bounds_i32(p.x, a.x, b.x)
        && in_bounds_i32(p.y, a.y, b.y)
}


/// The two outcomes fall in the same category: the same variant, with the
/// overlap range allowed to come back with its two bounds exchanged.
/// Touching, end-to-end and no-meeting outcomes must agree exactly; of two
/// crossing outcomes only the variant is compared here.
pub open spec fn spec_matches_up_to_overlap(a: Intersection, b: Intersection) -> bool {
    match (a, b) {
        (Intersection::Overlapping(a1, a2), Intersection::Overlapping(b1, b2)) => (b1 == a1 && b2
            == a2) || (b1 == a2 && b2 == a1),
        (Intersection::Crossing(_), Intersection::Crossing(_)) => true,
        _ => a == b,
    }
}

/// Collinearity does not depend on the direction of the reference segment.
proof fn lemma_collinear_reverse(a: Point, b: Point, p: Point)
    ensures
        spec_collinear(a, b, p) == spec_collinear(b, a, p),
{
    assert((a.x - b.x) * (p.y - b.y) - (a.y - b.y) * (p.x - b.x) == -((b.x - a.x) * (p.y - a.y)
        - (b.y - a.y) * (p.x - a.x))) by (nonlinear_arith);
}

/// Classification is invariant under reversing the second segment's
/// endpoint order: the outcome is the same, with the two bounds of an
/// overlap range possibly exchanged.
pub proof fn lemma_intersection_reverse_second(p1: Point, p2: Point, p3: Point, p4: Point)
    requires
        p1 != p2,
        p3 != p4,
    ensures
        spec_matches_up_to_overlap(
            spec_intersection(p1, p2, p3, p4),
            spec_intersection(p1, p2, p4, p3),
        ),
{
    let x1 = p1.x as int; let y1 = p1.y as int;
    let x2 = p2.x as int; let y2 = p2.y as int;
    let x3 = p3.x as int; let y3 = p3.y as int;
    let x4 = p4.x as int; let y4 = p4.y as int;
    assert(spec_bbox_apart(p1, p2, p3, p4) == spec_bbox_apart(p1, p2, p4, p3));
    assert(spec_det0(p1, p2, p4, p3) == -spec_det0(p1, p2, p3, p4)) by (nonlinear_arith);
    if spec_bbox_apart(p1, p2, p3, p4) {
    } else if spec_det0(p1, p2, p3, p4) == 0 {
        lemma_collinear_reverse(p3, p4, p1);
        lemma_collinear_reverse(p3, p4, p2);
        let o = spec_collinear_case(p1, p2, p3, p4);
        let pr = spec_collinear_case(p1, p2, p4, p3);
        if (p1 == p3 && p2 == p4) || (p1 == p4 && p2 == p3) {
            assert(o == Intersection::Overlapping(p1, p2));
            assert(pr == Intersection::Overlapping(p1, p2));
        } else if !spec_collinear(p3, p4, p1) {
            assert(o == Intersection::Apart && pr == Intersection::Apart);
        } else {
            let dx = spec_delta(x1, x2) + spec_delta(x3, x4);
            let dy = spec_delta(y1, y2) + spec_delta(y3, y4);
            assert(spec_delta(x4, x3) == spec_delta(x3, x4));
            assert(spec_delta(y4, y3) == spec_delta(y3, y4));
            let e2e = (dx == spec_delta(x1, x4) && dy == spec_delta(y1, y4)) || (dx == spec_delta(
                x2,
                x4,
            ) && dy == spec_delta(y2, y4)) || (dx == spec_delta(x1, x3) && dy == spec_delta(
                y1,
                y3,
            )) || (dx == spec_delta(x2, x3) && dy == spec_delta(y2, y3));
            if e2e {
                assert(o == Intersection::EndToEnd);
                assert(pr == Intersection::EndToEnd);
            } else {
                let o3 = spec_on_segment_excl(p1, p2, p3);
                let o4 = spec_on_segment_excl(p1, p2, p4);
                assert(spec_on_segment_incl(p4, p3, p1) == spec_on_segment_incl(p3, p4, p1));
                if o3 && o4 {
                    assert(o == Intersection::Overlapping(p3, p4));
                    assert(pr == Intersection::Overlapping(p4, p3));
                } else if o3 {
                    let other = if spec_on_segment_incl(p3, p4, p1) { p1 } else { p2 };
                    assert(o == Intersection::Overlapping(p3, other));
                    assert(pr == Intersection::Overlapping(p3, other));
                } else if o4 {
                    let other = if spec_on_segment_incl(p3, p4, p1) { p1 } else { p2 };
                    assert(o == Intersection::Overlapping(p4, other));
                    assert(pr == Intersection::Overlapping(p4, other));
                } else {
                    assert(o == Intersection::Overlapping(p1, p2));
                    assert(pr == Intersection::Overlapping(p1, p2));
                }
            }
        }
    } else {
        // reversing the second segment keeps td and turns sd into det - sd,
        // so every boundary test is carried across
        let a = x2 - x1; let b = x3 - x4; let c = y2 - y1; let d = y3 - y4;
        let e = x3 - x1; let f = y3 - y1;
        let det0 = a * d - b * c;
        let sd0 = a * f - c * e;
        let td0 = d * e - b * f;
        let det = if det0 > 0 { det0 } else { -det0 };
        let sd = if det0 > 0 { sd0 } else { -sd0 };
        let td = if det0 > 0 { td0 } else { -td0 };
        assert((x2 - x1) * (y4 - y3) - (x4 - x3) * (y2 - y1) == -det0) by (nonlinear_arith)
            requires det0 == (x2 - x1) * (y3 - y4) - (x3 - x4) * (y2 - y1);
        assert((y4 - y3) * (x4 - x1) - (x4 - x3) * (y4 - y1) == -td0) by (nonlinear_arith)
            requires td0 == (y3 - y4) * (x3 - x1) - (x3 - x4) * (y3 - y1);
        assert((x2 - x1) * (y4 - y1) - (y2 - y1) * (x4 - x1) == sd0 - det0) by (nonlinear_arith)
            requires
                sd0 == (x2 - x1) * (y3 - y1) - (y2 - y1) * (x3 - x1) && det0 == (x2 - x1) * (y3
                    - y4) - (x3 - x4) * (y2 - y1);
        // resolve the sign factor on both sides
        assert((if det0 > 0 { 1int } else { -1int }) * det0 == det) by (nonlinear_arith)
            requires det == (if det0 > 0 { det0 } else { -det0 });
        assert((if det0 > 0 { 1int } else { -1int }) * sd0 == sd) by (nonlinear_arith)
            requires sd == (if det0 > 0 { sd0 } else { -sd0 });
        assert((if det0 > 0 { 1int } else { -1int }) * td0 == td) by (nonlinear_arith)
            requires td == (if det0 > 0 { td0 } else { -td0 });
        assert((if -det0 > 0 { 1int } else { -1int }) * (-det0) == det) by (nonlinear_arith)
            requires det0 != 0 && det == (if det0 > 0 { det0 } else { -det0 });
        assert((if -det0 > 0 { 1int } else { -1int }) * (-td0) == td) by (nonlinear_arith)
            requires det0 != 0 && td == (if det0 > 0 { td0 } else { -td0 });
        assert((if -det0 > 0 { 1int } else { -1int }) * (sd0 - det0) == det - sd)
            by (nonlinear_arith)
            requires
                det0 != 0 && det == (if det0 > 0 { det0 } else { -det0 }) && sd == (if det0 > 0 {
                    sd0
                } else {
                    -sd0
                });
        let o = spec_skew_case(p1, p2, p3, p4);
        let pr = spec_skew_case(p1, p2, p4, p3);
        if sd > det || sd < 0 {
            assert(o == Intersection::Apart);
            assert(pr == Intersection::Apart);
        } else if td > det || td < 0 {
            assert(o == Intersection::Apart);
            assert(pr == Intersection::Apart);
        } else if (td == det || td == 0) && (sd == 0 || sd == det) {
            assert(o == Intersection::EndToEnd);
            assert(pr == Intersection::EndToEnd);
        } else if td == 0 {
            assert(o == Intersection::Touching(p1));
            assert(pr == Intersection::Touching(p1));
        } else if td == det {
            assert(o == Intersection::Touching(p2));
            assert(pr == Intersection::Touching(p2));
        } else if sd == 0 {
            assert(o == Intersection::Touching(p3));
            assert(pr == Intersection::Touching(p3));
        } else if sd == det {
            assert(o == Intersection::Touching(p4));
            assert(pr == Intersection::Touching(p4));
        } else {
            assert(o is Crossing);
            assert(pr is Crossing);
        }
    }
}

/// Strict interior containment cannot run both ways: when a point lies
/// strictly inside a segment, no collinear segment starting at that point
/// can contain both of the first segment's endpoints.
proof fn lemma_no_mutual_containment(p1: Point, p2: Point, p3: Point, p4: Point)
    requires
        spec_collinear(p1, p2, p3),
        spec_on_segment_excl(p1, p2, p3),
    ensures
        !(spec_on_segment_incl(p3, p4, p1) && spec_on_segment_incl(p3, p4, p2)),
{
    if spec_on_segment_incl(p3, p4, p1) && spec_on_segment_incl(p3, p4, p2) {
        let x1 = p1.x as int; let y1 = p1.y as int;
        let x2 = p2.x as int; let y2 = p2.y as int;
        let x3 = p3.x as int; let y3 = p3.y as int;
        // per axis, a point between two others that both lie within its
        // own span must coincide with one of them
        assert(x3 == x1 || x3 == x2);
        assert(y3 == y1 || y3 == y2);
        if x3 == x1 && y3 == y2 {
            assert((x2 - x1) * (y2 - y1) == 0) by (nonlinear_arith)
                requires (x2 - x1) * (y3 - y1) == (y2 - y1) * (x3 - x1) && x3 == x1 && y3 == y2;
            assert(x2 == x1 || y2 == y1) by (nonlinear_arith)
                requires (x2 - x1) * (y2 - y1) == 0;
        } else if x3 == x2 && y3 == y1 {
            assert((x2 - x1) * (y2 - y1) == 0) by (nonlinear_arith)
                requires (x2 - x1) * (y3 - y1) == (y2 - y1) * (x3 - x1) && x3 == x2 && y3 == y1;
            assert(x2 == x1 || y2 == y1) by (nonlinear_arith)
                requires (x2 - x1) * (y2 - y1) == 0;
        }
        assert(false);
    }
}

/// Two parallel directions through a shared line: if p1 lies on the line
/// through p3 and p4, then p3 lies on the line through p1 and p2.
proof fn lemma_collinear_transfer(p1: Point, p2: Point, p3: Point, p4: Point)
    requires
        p3 != p4,
        spec_det0(p1, p2, p3, p4) == 0,
        spec_collinear(p3, p4, p1),
    ensures
        spec_collinear(p1, p2, p3),
{
    let ux = p2.x - p1.x; let uy = p2.y - p1.y;
    let vx = p4.x - p3.x; let vy = p4.y - p3.y;
    let wx = p3.x - p1.x; let wy = p3.y - p1.y;
    // u x v == 0 from the parallel directions, v x w == 0 from collinearity
    let uv = ux * (vy as int) - uy * (vx as int);
    let vw = vx * (wy as int) - vy * (wx as int);
    let uw = ux * (wy as int) - uy * (wx as int);
    assert(uv == 0) by (nonlinear_arith)
        requires
            (p2.x - p1.x) * (p3.y - p4.y) - (p3.x - p4.x) * (p2.y - p1.y) == 0 && ux == p2.x
                - p1.x && uy == p2.y - p1.y && vx == p4.x - p3.x && vy == p4.y - p3.y && uv == ux
                * (vy as int) - uy * (vx as int);
    assert(vw == 0) by (nonlinear_arith)
        requires
            (p4.x - p3.x) * (p1.y - p3.y) - (p4.y - p3.y) * (p1.x - p3.x) == 0 && vx == p4.x
                - p3.x && vy == p4.y - p3.y && wx == p3.x - p1.x && wy == p3.y - p1.y && vw == vx
                * (wy as int) - vy * (wx as int);
    assert(vx * uw == ux * vw + wx * uv) by (nonlinear_arith)
        requires
            uw == ux * (wy as int) - uy * (wx as int) && vw == vx * (wy as int) - vy * (
            wx as int) && uv == ux * (vy as int) - uy * (vx as int);
    assert(vy * uw == uy * vw + wy * uv) by (nonlinear_arith)
        requires
            uw == ux * (wy as int) - uy * (wx as int) && vw == vx * (wy as int) - vy * (
            wx as int) && uv == ux * (vy as int) - uy * (vx as int);
    assert(vx != 0 || vy != 0);
    assert(uw == 0) by (nonlinear_arith)
        requires (vx != 0 || vy != 0) && vx * uw == 0 && vy * uw == 0;
    assert(spec_collinear(p1, p2, p3)) by (nonlinear_arith)
        requires
            uw == 0 && uw == (p2.x - p1.x) * (p3.y as int - p1.y) - (p2.y - p1.y) * (p3.x as int
                - p1.x);
}


/// On one axis: a value strictly between two bounds, with some fourth
/// value outside those bounds, spans one of the bounds together with it.
proof fn lemma_one_d_cover(a: int, b: int, c: int, d: int)
    requires
        spec_in_bounds(c, a, b),
        c != a,
        c != b,
        !spec_in_bounds(d, a, b),
    ensures
        spec_in_bounds(a, c, d) || spec_in_bounds(b, c, d),
{
}

/// Betweenness carries from the x axis to the y axis along a line that is
/// not vertical.
proof fn lemma_betweenness_transfer(a: Point, b: Point, p: Point)
    requires
        spec_collinear(a, b, p),
        a.x != b.x,
        spec_in_bounds(p.x as int, a.x as int, b.x as int),
    ensures
        spec_in_bounds(p.y as int, a.y as int, b.y as int),
{
    let ax = a.x as int; let ay = a.y as int;
    let bx = b.x as int; let by = b.y as int;
    let px = p.x as int; let py = p.y as int;
    assert((py - by) * (bx - ax) == (by - ay) * (px - bx)) by (nonlinear_arith)
        requires (bx - ax) * (py - ay) == (by - ay) * (px - ax);
    assert((py - ay) * (py - by) * ((bx - ax) * (bx - ax)) == (by - ay) * (by - ay) * ((px - ax)
        * (px - bx))) by (nonlinear_arith)
        requires
            (bx - ax) * (py - ay) == (by - ay) * (px - ax) && (py - by) * (bx - ax) == (by - ay)
                * (px - bx);
    assert((px - ax) * (px - bx) <= 0) by (nonlinear_arith)
        requires spec_in_bounds(px, ax, bx);
    assert((by - ay) * (by - ay) >= 0) by (nonlinear_arith);
    assert((py - ay) * (py - by) <= 0) by (nonlinear_arith)
        requires
            (py - ay) * (py - by) * ((bx - ax) * (bx - ax)) == (by - ay) * (by - ay) * ((px - ax)
                * (px - bx)) && (px - ax) * (px - bx) <= 0 && (by - ay) * (by - ay) >= 0 && bx
                - ax != 0;
    assert(spec_in_bounds(py, ay, by)) by (nonlinear_arith)
        requires (py - ay) * (py - by) <= 0;
}

/// In a partial overlap — one segment's endpoint strictly inside the
/// other, whose second endpoint lies outside — one endpoint of the outer
/// segment lies on the inner one.
proof fn lemma_partial_overlap_endpoint(p1: Point, p2: Point, p3: Point, p4: Point)
    requires
        p1 != p2,
        p3 != p4,
        spec_collinear(p3, p4, p1),
        spec_collinear(p3, p4, p2),
        spec_collinear(p1, p2, p3),
        spec_collinear(p1, p2, p4),
        spec_on_segment_excl(p1, p2, p3),
        !spec_on_segment_excl(p1, p2, p4),
    ensures
        spec_on_segment_incl(p3, p4, p1) || spec_on_segment_incl(p3, p4, p2),
{
    let x1 = p1.x as int; let y1 = p1.y as int;
    let x2 = p2.x as int; let y2 = p2.y as int;
    let x3 = p3.x as int; let y3 = p3.y as int;
    let x4 = p4.x as int; let y4 = p4.y as int;
    if p4 == p1 || p4 == p2 {
        // that endpoint is shared outright
    } else if x3 == x4 {
        // the shared line is vertical: every x coordinate coincides and
        // the whole question is one-dimensional in y
        assert(y3 != y4);
        assert(x1 == x3) by (nonlinear_arith)
            requires
                (x4 - x3) * (y1 - y3) == (y4 - y3) * (x1 - x3) && x3 == x4 && y3 != y4;
        assert(x2 == x3) by (nonlinear_arith)
            requires
                (x4 - x3) * (y2 - y3) == (y4 - y3) * (x2 - x3) && x3 == x4 && y3 != y4;
        assert(y3 != y1 && y3 != y2);
        assert(!spec_in_bounds(y4, y1, y2));
        lemma_one_d_cover(y1, y2, y3, y4);
    } else {
        assert(x1 != x2) by (nonlinear_arith)
            requires
                (x4 - x3) * (y1 - y3) == (y4 - y3) * (x1 - x3) && (x4 - x3) * (y2 - y3) == (y4
                    - y3) * (x2 - x3) && x3 != x4 && !(x1 == x2 && y1 == y2);
        assert(x3 != x1) by (nonlinear_arith)
            requires
                (x2 - x1) * (y3 - y1) == (y2 - y1) * (x3 - x1) && x1 != x2 && !(x3 == x1 && y3
                    == y1);
        assert(x3 != x2) by (nonlinear_arith)
            requires
                (x2 - x1) * (y3 - y1) == (y2 - y1) * (x3 - x1) && x1 != x2 && !(x3 == x2 && y3
                    == y2);
        if spec_in_bounds(x4, x1, x2) {
            // then p4 would lie on the first segment after all
            lemma_betweenness_transfer(p1, p2, p4);
            assert(false);
        } else {
            lemma_one_d_cover(x1, x2, x3, x4);
            if spec_in_bounds(x1, x3, x4) {
                lemma_betweenness_transfer(p3, p4, p1);
            } else {
                lemma_betweenness_transfer(p3, p4, p2);
            }
        }
    }
}

/// Classification is invariant under reversing the first segment's
/// endpoint order: the outcome is the same, with the two bounds of an
/// overlap range possibly exchanged.
pub proof fn lemma_intersection_reverse_first(p1: Point, p2: Point, p3: Point, p4: Point)
    requires
        p1 != p2,
        p3 != p4,
    ensures
        spec_matches_up_to_overlap(
            spec_intersection(p1, p2, p3, p4),
            spec_intersection(p2, p1, p3, p4),
        ),
{
    let x1 = p1.x as int; let y1 = p1.y as int;
    let x2 = p2.x as int; let y2 = p2.y as int;
    let x3 = p3.x as int; let y3 = p3.y as int;
    let x4 = p4.x as int; let y4 = p4.y as int;
    assert(spec_bbox_apart(p1, p2, p3, p4) == spec_bbox_apart(p2, p1, p3, p4));
    assert(spec_det0(p2, p1, p3, p4) == -spec_det0(p1, p2, p3, p4)) by (nonlinear_arith);
    if spec_bbox_apart(p1, p2, p3, p4) {
    } else if spec_det0(p1, p2, p3, p4) == 0 {
        let o = spec_collinear_case(p1, p2, p3, p4);
        let pr = spec_collinear_case(p2, p1, p3, p4);
        if (p1 == p3 && p2 == p4) || (p1 == p4 && p2 == p3) {
            assert(o == Intersection::Overlapping(p1, p2));
            assert(pr == Intersection::Overlapping(p2, p1));
        } else if !spec_collinear(p3, p4, p1) {
            assert(!spec_collinear(p3, p4, p2)) by {
                if spec_collinear(p3, p4, p2) {
                    lemma_parallel_collinear(p2, p1, p3, p4);
                }
            }
            assert(o == Intersection::Apart && pr == Intersection::Apart);
        } else {
            lemma_parallel_collinear(p1, p2, p3, p4);
            lemma_collinear_transfer(p1, p2, p3, p4);
            lemma_collinear_reverse(p3, p4, p1);
            lemma_collinear_reverse(p3, p4, p2);
            assert(spec_det0(p1, p2, p4, p3) == -spec_det0(p1, p2, p3, p4)) by (nonlinear_arith);
            lemma_collinear_transfer(p1, p2, p4, p3);
            let dx = spec_delta(x1, x2) + spec_delta(x3, x4);
            let dy = spec_delta(y1, y2) + spec_delta(y3, y4);
            assert(spec_delta(x2, x1) == spec_delta(x1, x2));
            assert(spec_delta(y2, y1) == spec_delta(y1, y2));
            let e2e = (dx == spec_delta(x1, x4) && dy == spec_delta(y1, y4)) || (dx == spec_delta(
                x2,
                x4,
            ) && dy == spec_delta(y2, y4)) || (dx == spec_delta(x1, x3) && dy == spec_delta(
                y1,
                y3,
            )) || (dx == spec_delta(x2, x3) && dy == spec_delta(y2, y3));
            if e2e {
                assert(o == Intersection::EndToEnd);
                assert(pr == Intersection::EndToEnd);
            } else {
                let o3 = spec_on_segment_excl(p1, p2, p3);
                let o4 = spec_on_segment_excl(p1, p2, p4);
                assert(spec_on_segment_excl(p2, p1, p3) == o3);
                assert(spec_on_segment_excl(p2, p1, p4) == o4);
                if o3 && o4 {
                    assert(o == Intersection::Overlapping(p3, p4));
                    assert(pr == Intersection::Overlapping(p3, p4));
                } else if o3 {
                    lemma_no_mutual_containment(p1, p2, p3, p4);
                    lemma_partial_overlap_endpoint(p1, p2, p3, p4);
                    if spec_on_segment_incl(p3, p4, p1) {
                        assert(o == Intersection::Overlapping(p3, p1));
                        assert(pr == Intersection::Overlapping(p3, p1));
                    } else {
                        assert(o == Intersection::Overlapping(p3, p2));
                        assert(pr == Intersection::Overlapping(p3, p2));
                    }
                } else if o4 {
                    lemma_no_mutual_containment(p1, p2, p4, p3);
                    lemma_partial_overlap_endpoint(p1, p2, p4, p3);
                    assert(spec_on_segment_incl(p4, p3, p1) == spec_on_segment_incl(p3, p4, p1));
                    assert(spec_on_segment_incl(p4, p3, p2) == spec_on_segment_incl(p3, p4, p2));
                    if spec_on_segment_incl(p3, p4, p1) {
                        assert(o == Intersection::Overlapping(p4, p1));
                        assert(pr == Intersection::Overlapping(p4, p1));
                    } else {
                        assert(o == Intersection::Overlapping(p4, p2));
                        assert(pr == Intersection::Overlapping(p4, p2));
                    }
                } else {
                    assert(o == Intersection::Overlapping(p1, p2));
                    assert(pr == Intersection::Overlapping(p2, p1));
                }
            }
        }
    } else {
        // reversing the first segment keeps sd and turns td into det - td
        let a = x2 - x1; let b = x3 - x4; let c = y2 - y1; let d = y3 - y4;
        let e = x3 - x1; let f = y3 - y1;
        let det0 = a * d - b * c;
        let sd0 = a * f - c * e;
        let td0 = d * e - b * f;
        let det = if det0 > 0 { det0 } else { -det0 };
        let sd = if det0 > 0 { sd0 } else { -sd0 };
        let td = if det0 > 0 { td0 } else { -td0 };
        assert((x1 - x2) * (y3 - y4) - (x3 - x4) * (y1 - y2) == -det0) by (nonlinear_arith)
            requires det0 == (x2 - x1) * (y3 - y4) - (x3 - x4) * (y2 - y1);
        assert((x1 - x2) * (y3 - y2) - (y1 - y2) * (x3 - x2) == -sd0) by (nonlinear_arith)
            requires
                sd0 == (x2 - x1) * (y3 - y1) - (y2 - y1) * (x3 - x1) && det0 == (x2 - x1) * (y3
                    - y4) - (x3 - x4) * (y2 - y1);
        assert((y3 - y4) * (x3 - x2) - (x3 - x4) * (y3 - y2) == td0 - det0) by (nonlinear_arith)
            requires
                td0 == (y3 - y4) * (x3 - x1) - (x3 - x4) * (y3 - y1) && det0 == (x2 - x1) * (y3
                    - y4) - (x3 - x4) * (y2 - y1);
        assert((if det0 > 0 { 1int } else { -1int }) * det0 == det) by (nonlinear_arith)
            requires det == (if det0 > 0 { det0 } else { -det0 });
        assert((if det0 > 0 { 1int } else { -1int }) * sd0 == sd) by (nonlinear_arith)
            requires sd == (if det0 > 0 { sd0 } else { -sd0 });
        assert((if det0 > 0 { 1int } else { -1int }) * td0 == td) by (nonlinear_arith)
            requires td == (if det0 > 0 { td0 } else { -td0 });
        assert((if -det0 > 0 { 1int } else { -1int }) * (-det0) == det) by (nonlinear_arith)
            requires det0 != 0 && det == (if det0 > 0 { det0 } else { -det0 });
        assert((if -det0 > 0 { 1int } else { -1int }) * (-sd0) == sd) by (nonlinear_arith)
            requires det0 != 0 && sd == (if det0 > 0 { sd0 } else { -sd0 });
        assert((if -det0 > 0 { 1int } else { -1int }) * (td0 - det0) == det - td)
            by (nonlinear_arith)
            requires
                det0 != 0 && det == (if det0 > 0 { det0 } else { -det0 }) && td == (if det0 > 0 {
                    td0
                } else {
                    -td0
                });
        let o = spec_skew_case(p1, p2, p3, p4);
        let pr = spec_skew_case(p2, p1, p3, p4);
        if sd > det || sd < 0 {
            assert(o == Intersection::Apart);
            assert(pr == Intersection::Apart);
        } else if td > det || td < 0 {
            assert(o == Intersection::Apart);
            assert(pr == Intersection::Apart);
        } else if (td == det || td == 0) && (sd == 0 || sd == det) {
            assert(o == Intersection::EndToEnd);
            assert(pr == Intersection::EndToEnd);
        } else if td == 0 {
            assert(o == Intersection::Touching(p1));
            assert(pr == Intersection::Touching(p1));
        } else if td == det {
            assert(o == Intersection::Touching(p2));
            assert(pr == Intersection::Touching(p2));
        } else if sd == 0 {
            assert(o == Intersection::Touching(p3));
            assert(pr == Intersection::Touching(p3));
        } else if sd == det {
            assert(o == Intersection::Touching(p4));
            assert(pr == Intersection::Touching(p4));
        } else {
            assert(o is Crossing);
            assert(pr is Crossing);
        }
    }
}


/// Classification does not depend on which segment comes first: swapping
/// the two segments' roles keeps the outcome, with the two bounds of an
/// overlap range possibly exchanged.
pub proof fn lemma_intersection_swap_roles(p1: Point, p2: Point, p3: Point, p4: Point)
    requires
        p1 != p2,
        p3 != p4,
    ensures
        spec_matches_up_to_overlap(
            spec_intersection(p1, p2, p3, p4),
            spec_intersection(p3, p4, p1, p2),
        ),
{
    let x1 = p1.x as int; let y1 = p1.y as int;
    let x2 = p2.x as int; let y2 = p2.y as int;
    let x3 = p3.x as int; let y3 = p3.y as int;
    let x4 = p4.x as int; let y4 = p4.y as int;
    assert(spec_bbox_apart(p1, p2, p3, p4) == spec_bbox_apart(p3, p4, p1, p2));
    assert(spec_det0(p3, p4, p1, p2) == -spec_det0(p1, p2, p3, p4)) by (nonlinear_arith);
    if spec_bbox_apart(p1, p2, p3, p4) {
    } else if spec_det0(p1, p2, p3, p4) == 0 {
        let o = spec_collinear_case(p1, p2, p3, p4);
        let pr = spec_collinear_case(p3, p4, p1, p2);
        if (p1 == p3 && p2 == p4) || (p1 == p4 && p2 == p3) {
            assert(o == Intersection::Overlapping(p1, p2));
            assert(pr == Intersection::Overlapping(p3, p4));
        } else {
            if spec_collinear(p3, p4, p1) {
                lemma_collinear_transfer(p1, p2, p3, p4);
            }
            if spec_collinear(p1, p2, p3) {
                lemma_collinear_transfer(p3, p4, p1, p2);
            }
            assert(spec_collinear(p3, p4, p1) == spec_collinear(p1, p2, p3));
            if !spec_collinear(p3, p4, p1) {
                assert(o == Intersection::Apart && pr == Intersection::Apart);
            } else {
                lemma_parallel_collinear(p1, p2, p3, p4);
                assert(spec_det0(p3, p4, p2, p1) == spec_det0(p1, p2, p3, p4)) by (nonlinear_arith);
                lemma_parallel_collinear(p3, p4, p1, p2);
                lemma_collinear_reverse(p1, p2, p3);
                lemma_collinear_reverse(p1, p2, p4);
                lemma_collinear_reverse(p3, p4, p1);
                lemma_collinear_reverse(p3, p4, p2);
                let dx = spec_delta(x1, x2) + spec_delta(x3, x4);
                let dy = spec_delta(y1, y2) + spec_delta(y3, y4);
                assert(spec_delta(x3, x4) + spec_delta(x1, x2) == dx);
                assert(spec_delta(x3, x2) == spec_delta(x2, x3) && spec_delta(x4, x2)
                    == spec_delta(x2, x4) && spec_delta(x3, x1) == spec_delta(x1, x3)
                    && spec_delta(x4, x1) == spec_delta(x1, x4));
                assert(spec_delta(y3, y2) == spec_delta(y2, y3) && spec_delta(y4, y2)
                    == spec_delta(y2, y4) && spec_delta(y3, y1) == spec_delta(y1, y3)
                    && spec_delta(y4, y1) == spec_delta(y1, y4));
                let e2e = spec_chain_condition(p1, p2, p3, p4);
                if e2e {
                    assert(o == Intersection::EndToEnd);
                    assert(pr == Intersection::EndToEnd);
                } else {
                    let o3 = spec_on_segment_excl(p1, p2, p3);
                    let o4 = spec_on_segment_excl(p1, p2, p4);
                    let q1 = spec_on_segment_excl(p3, p4, p1);
                    let q2 = spec_on_segment_excl(p3, p4, p2);
                    assert(spec_on_segment_incl(p2, p1, p3) == spec_on_segment_incl(p1, p2, p3));
                    assert(spec_on_segment_incl(p2, p1, p4) == spec_on_segment_incl(p1, p2, p4));
                    assert(spec_on_segment_incl(p4, p3, p1) == spec_on_segment_incl(p3, p4, p1));
                    assert(spec_on_segment_incl(p4, p3, p2) == spec_on_segment_incl(p3, p4, p2));
                    if o3 && o4 {
                        if q1 {
                            lemma_no_mutual_containment(p3, p4, p1, p2);
                        }
                        if q2 {
                            lemma_no_mutual_containment(p3, p4, p2, p1);
                        }
                        assert(!q1 && !q2);
                        assert(o == Intersection::Overlapping(p3, p4));
                        assert(pr == Intersection::Overlapping(p3, p4));
                    } else if o3 {
                        lemma_no_mutual_containment(p1, p2, p3, p4);
                        lemma_partial_overlap_endpoint(p1, p2, p3, p4);
                        if q1 && q2 {
                            assert(false);
                        } else if q1 {
                            lemma_no_mutual_containment(p3, p4, p1, p2);
                            assert(o == Intersection::Overlapping(p3, p1));
                            assert(pr == Intersection::Overlapping(p1, p3));
                        } else if q2 {
                            lemma_no_mutual_containment(p3, p4, p2, p1);
                            assert(o == Intersection::Overlapping(p3, p2));
                            assert(pr == Intersection::Overlapping(p2, p3));
                        } else {
                            if spec_on_segment_incl(p3, p4, p1) {
                                assert(p1 != p3);
                                assert(p1 == p4);
                                assert(o == Intersection::Overlapping(p3, p1));
                                assert(pr == Intersection::Overlapping(p3, p4));
                            } else {
                                assert(spec_on_segment_incl(p3, p4, p2));
                                assert(p2 != p3);
                                assert(p2 == p4);
                                assert(o == Intersection::Overlapping(p3, p2));
                                assert(pr == Intersection::Overlapping(p3, p4));
                            }
                        }
                    } else if o4 {
                        lemma_no_mutual_containment(p1, p2, p4, p3);
                        lemma_partial_overlap_endpoint(p1, p2, p4, p3);
                        if q1 && q2 {
                            assert(false);
                        } else if q1 {
                            lemma_no_mutual_containment(p3, p4, p1, p2);
                            assert(o == Intersection::Overlapping(p4, p1));
                            assert(pr == Intersection::Overlapping(p1, p4));
                        } else if q2 {
                            lemma_no_mutual_containment(p3, p4, p2, p1);
                            assert(o == Intersection::Overlapping(p4, p2));
                            assert(pr == Intersection::Overlapping(p2, p4));
                        } else {
                            if spec_on_segment_incl(p3, p4, p1) {
                                assert(p1 != p4);
                                assert(p1 == p3);
                                assert(o == Intersection::Overlapping(p4, p1));
                                assert(pr == Intersection::Overlapping(p3, p4));
                            } else {
                                assert(spec_on_segment_incl(p3, p4, p2));
                                assert(p2 != p4);
                                assert(p2 == p3);
                                assert(o == Intersection::Overlapping(p4, p2));
                                assert(pr == Intersection::Overlapping(p3, p4));
                            }
                        }
                    } else {
                        assert(o == Intersection::Overlapping(p1, p2));
                        if q1 && q2 {
                            assert(pr == Intersection::Overlapping(p1, p2));
                        } else if q1 {
                            lemma_no_mutual_containment(p3, p4, p1, p2);
                            lemma_partial_overlap_endpoint(p3, p4, p1, p2);
                            if spec_on_segment_incl(p1, p2, p3) {
                                assert(p3 != p1);
                                assert(p3 == p2);
                                assert(pr == Intersection::Overlapping(p1, p3));
                            } else {
                                assert(spec_on_segment_incl(p1, p2, p4));
                                assert(p4 != p1);
                                assert(p4 == p2);
                                assert(pr == Intersection::Overlapping(p1, p4));
                            }
                        } else if q2 {
                            lemma_no_mutual_containment(p3, p4, p2, p1);
                            lemma_partial_overlap_endpoint(p3, p4, p2, p1);
                            if spec_on_segment_incl(p1, p2, p3) {
                                assert(p3 != p2);
                                assert(p3 == p1);
                                assert(pr == Intersection::Overlapping(p2, p3));
                            } else {
                                assert(spec_on_segment_incl(p1, p2, p4));
                                assert(p4 != p2);
                                assert(p4 == p1);
                                assert(pr == Intersection::Overlapping(p2, p4));
                            }
                        } else {
                            lemma_separated_or_chained(p1, p2, p3, p4);
                            assert(false);
                        }
                    }
                }
            }
        }
    } else {
        // swapping the roles exchanges the two solved parameters
        let a = x2 - x1; let b = x3 - x4; let c = y2 - y1; let d = y3 - y4;
        let e = x3 - x1; let f = y3 - y1;
        let det0 = a * d - b * c;
        let sd0 = a * f - c * e;
        let td0 = d * e - b * f;
        let det = if det0 > 0 { det0 } else { -det0 };
        let sd = if det0 > 0 { sd0 } else { -sd0 };
        let td = if det0 > 0 { td0 } else { -td0 };
        assert((x4 - x3) * (y1 - y2) - (x1 - x2) * (y4 - y3) == -det0) by (nonlinear_arith)
            requires det0 == (x2 - x1) * (y3 - y4) - (x3 - x4) * (y2 - y1);
        assert((x4 - x3) * (y1 - y3) - (y4 - y3) * (x1 - x3) == -td0) by (nonlinear_arith)
            requires td0 == (y3 - y4) * (x3 - x1) - (x3 - x4) * (y3 - y1);
        assert((y1 - y2) * (x1 - x3) - (x1 - x2) * (y1 - y3) == -sd0) by (nonlinear_arith)
            requires sd0 == (x2 - x1) * (y3 - y1) - (y2 - y1) * (x3 - x1);
        assert((if det0 > 0 { 1int } else { -1int }) * det0 == det) by (nonlinear_arith)
            requires det == (if det0 > 0 { det0 } else { -det0 });
        assert((if det0 > 0 { 1int } else { -1int }) * sd0 == sd) by (nonlinear_arith)
            requires sd == (if det0 > 0 { sd0 } else { -sd0 });
        assert((if det0 > 0 { 1int } else { -1int }) * td0 == td) by (nonlinear_arith)
            requires td == (if det0 > 0 { td0 } else { -td0 });
        assert((if -det0 > 0 { 1int } else { -1int }) * (-det0) == det) by (nonlinear_arith)
            requires det0 != 0 && det == (if det0 > 0 { det0 } else { -det0 });
        assert((if -det0 > 0 { 1int } else { -1int }) * (-td0) == td) by (nonlinear_arith)
            requires det0 != 0 && td == (if det0 > 0 { td0 } else { -td0 });
        assert((if -det0 > 0 { 1int } else { -1int }) * (-sd0) == sd) by (nonlinear_arith)
            requires det0 != 0 && sd == (if det0 > 0 { sd0 } else { -sd0 });
        let o = spec_skew_case(p1, p2, p3, p4);
        let pr = spec_skew_case(p3, p4, p1, p2);
        if sd > det || sd < 0 || td > det || td < 0 {
            assert(o == Intersection::Apart);
            assert(pr == Intersection::Apart);
        } else if (td == det || td == 0) && (sd == 0 || sd == det) {
            assert(o == Intersection::EndToEnd);
            assert(pr == Intersection::EndToEnd);
        } else if td == 0 {
            assert(o == Intersection::Touching(p1));
            assert(pr == Intersection::Touching(p1));
        } else if td == det {
            assert(o == Intersection::Touching(p2));
            assert(pr == Intersection::Touching(p2));
        } else if sd == 0 {
            assert(o == Intersection::Touching(p3));
            assert(pr == Intersection::Touching(p3));
        } else if sd == det {
            assert(o == Intersection::Touching(p4));
            assert(pr == Intersection::Touching(p4));
        } else {
            assert(o is Crossing);
            assert(pr is Crossing);
        }
    }
}

/// The end-to-end test of the collinear branch: the total span equals the
/// sum of the parts for one pairing of the endpoints.
pub open spec fn spec_chain_condition(p1: Point, p2: Point, p3: Point, p4: Point) -> bool {
    let dx = spec_delta(p1.x as int, p2.x as int) + spec_delta(p3.x as int, p4.x as int);
    let dy = spec_delta(p1.y as int, p2.y as int) + spec_delta(p3.y as int, p4.y as int);
    ||| (dx == spec_delta(p1.x as int, p4.x as int) && dy == spec_delta(p1.y as int, p4.y as int))
    ||| (dx == spec_delta(p2.x as int, p4.x as int) && dy == spec_delta(p2.y as int, p4.y as int))
    ||| (dx == spec_delta(p1.x as int, p3.x as int) && dy == spec_delta(p1.y as int, p3.y as int))
    ||| (dx == spec_delta(p2.x as int, p3.x as int) && dy == spec_delta(p2.y as int, p3.y as int))
}

/// Two collinear segments with overlapping bounding boxes, neither of
/// which has an endpoint strictly inside the other, are either the same
/// segment or an end-to-end chain.
proof fn lemma_separated_or_chained(p1: Point, p2: Point, p3: Point, p4: Point)
    requires
        p1 != p2,
        p3 != p4,
        spec_collinear(p3, p4, p1),
        spec_collinear(p3, p4, p2),
        spec_collinear(p1, p2, p3),
        spec_collinear(p1, p2, p4),
        !spec_bbox_apart(p1, p2, p3, p4),
        !spec_on_segment_excl(p1, p2, p3),
        !spec_on_segment_excl(p1, p2, p4),
        !spec_on_segment_excl(p3, p4, p1),
        !spec_on_segment_excl(p3, p4, p2),
    ensures
        ((p1 == p3 && p2 == p4) || (p1 == p4 && p2 == p3)) || spec_chain_condition(p1, p2, p3, p4),
{
    let x1 = p1.x as int; let y1 = p1.y as int;
    let x2 = p2.x as int; let y2 = p2.y as int;
    let x3 = p3.x as int; let y3 = p3.y as int;
    let x4 = p4.x as int; let y4 = p4.y as int;
    if (p1 == p3 && p2 == p4) || (p1 == p4 && p2 == p3) {
    } else if p3 != p1 && p3 != p2 && p4 != p1 && p4 != p2 {
        // no endpoint is shared, so each lies outside the other segment's
        // box; but on one line, two boxes that overlap must then contain
        // an endpoint — a contradiction with the box overlap
        if x3 == x4 {
            assert(y3 != y4);
            assert(x1 == x3 && x2 == x3) by (nonlinear_arith)
                requires
                    (x4 - x3) * (y1 - y3) == (y4 - y3) * (x1 - x3) && (x4 - x3) * (y2 - y3) == (
                    y4 - y3) * (x2 - x3) && x3 == x4 && y3 != y4;
            assert(!spec_in_bounds(y3, y1, y2));
            assert(!spec_in_bounds(y4, y1, y2));
            assert(!spec_in_bounds(y1, y3, y4));
            assert(!spec_in_bounds(y2, y3, y4));
            assert(false);
        } else {
            assert(x1 != x2) by (nonlinear_arith)
                requires
                    (x4 - x3) * (y1 - y3) == (y4 - y3) * (x1 - x3) && (x4 - x3) * (y2 - y3) == (
                    y4 - y3) * (x2 - x3) && x3 != x4 && !(x1 == x2 && y1 == y2);
            assert(x3 != x1 && x3 != x2 && x4 != x1 && x4 != x2) by (nonlinear_arith)
                requires
                    (x2 - x1) * (y3 - y1) == (y2 - y1) * (x3 - x1) && (x2 - x1) * (y4 - y1) == (
                    y2 - y1) * (x4 - x1) && x1 != x2 && !(x3 == x1 && y3 == y1) && !(x3 == x2
                        && y3 == y2) && !(x4 == x1 && y4 == y1) && !(x4 == x2 && y4 == y2);
            if spec_in_bounds(x3, x1, x2) {
                lemma_betweenness_transfer(p1, p2, p3);
                assert(false);
            }
            if spec_in_bounds(x4, x1, x2) {
                lemma_betweenness_transfer(p1, p2, p4);
                assert(false);
            }
            if spec_in_bounds(x1, x3, x4) {
                lemma_betweenness_transfer(p3, p4, p1);
                assert(false);
            }
            if spec_in_bounds(x2, x3, x4) {
                lemma_betweenness_transfer(p3, p4, p2);
                assert(false);
            }
            assert(false);
        }
    } else {
        // exactly one endpoint is shared: the two segments leave it in
        // opposite directions, so the total span is the sum of the parts
        assert(spec_on_segment_excl(p2, p1, p3) == spec_on_segment_excl(p1, p2, p3));
        assert(spec_on_segment_excl(p2, p1, p4) == spec_on_segment_excl(p1, p2, p4));
        assert(spec_on_segment_excl(p4, p3, p1) == spec_on_segment_excl(p3, p4, p1));
        assert(spec_on_segment_excl(p4, p3, p2) == spec_on_segment_excl(p3, p4, p2));
        lemma_collinear_reverse(p1, p2, p3);
        lemma_collinear_reverse(p1, p2, p4);
        if p3 == p1 {
            // the chain runs p2 - p1 - p4
            lemma_chain_from_shared(p1, p2, p4);
            assert(spec_delta(x3, x4) == spec_delta(x1, x4) && spec_delta(y3, y4) == spec_delta(
                y1,
                y4,
            ));
        } else if p3 == p2 {
            // the chain runs p1 - p2 - p4
            lemma_chain_from_shared(p2, p1, p4);
            assert(spec_delta(x1, x2) == spec_delta(x2, x1) && spec_delta(y1, y2) == spec_delta(
                y2,
                y1,
            ));
            assert(spec_delta(x3, x4) == spec_delta(x2, x4) && spec_delta(y3, y4) == spec_delta(
                y2,
                y4,
            ));
        } else if p4 == p1 {
            // the chain runs p2 - p1 - p3
            lemma_chain_from_shared(p1, p2, p3);
            assert(spec_delta(x3, x4) == spec_delta(x3, x1) && spec_delta(y3, y4) == spec_delta(
                y3,
                y1,
            ));
            assert(spec_delta(x3, x1) == spec_delta(x1, x3) && spec_delta(y3, y1) == spec_delta(
                y1,
                y3,
            ));
        } else {
            // the chain runs p1 - p2 - p3
            lemma_chain_from_shared(p2, p1, p3);
            assert(spec_delta(x1, x2) == spec_delta(x2, x1) && spec_delta(y1, y2) == spec_delta(
                y2,
                y1,
            ));
            assert(spec_delta(x3, x4) == spec_delta(x3, x2) && spec_delta(y3, y4) == spec_delta(
                y3,
                y2,
            ));
            assert(spec_delta(x3, x2) == spec_delta(x2, x3) && spec_delta(y3, y2) == spec_delta(
                y2,
                y3,
            ));
        }
    }
}

/// Helper for the shared-endpoint case: b and q leave the shared point s
/// on opposite sides along the line, so spans add up on both axes.
proof fn lemma_chain_from_shared(s: Point, b: Point, q: Point)
    requires
        s != b,
        s != q,
        b != q,
        spec_collinear(s, b, q),
        !spec_on_segment_excl(s, b, q),
        !spec_on_segment_excl(s, q, b),
    ensures
        spec_delta(s.x as int, b.x as int) + spec_delta(s.x as int, q.x as int) == spec_delta(
            b.x as int,
            q.x as int,
        ),
        spec_delta(s.y as int, b.y as int) + spec_delta(s.y as int, q.y as int) == spec_delta(
            b.y as int,
            q.y as int,
        ),
{
    let sx = s.x as int; let sy = s.y as int;
    let bx = b.x as int; let by = b.y as int;
    let qx = q.x as int; let qy = q.y as int;
    if sx == bx {
        assert(sy != by);
        assert((bx - sx) * (qy - sy) == 0) by (nonlinear_arith)
            requires bx == sx;
        assert(qx == sx) by (nonlinear_arith)
            requires (by - sy) * (qx - sx) == 0 && by != sy;
        // all three on one vertical line: q and b leave s in opposite
        // directions in y, else one would lie inside the other's segment
        assert(spec_in_bounds(qx, sx, bx));
        assert(spec_in_bounds(bx, sx, qx));
        assert(!spec_in_bounds(qy, sy, by));
        assert(!spec_in_bounds(by, sy, qy));
        assert((by - sy) * (qy - sy) <= 0) by (nonlinear_arith)
            requires !spec_in_bounds(qy, sy, by) && !spec_in_bounds(by, sy, qy);
        assert((bx - sx) * (qx - sx) <= 0) by (nonlinear_arith)
            requires bx == sx && qx == sx;
    } else {
        assert(qx != sx) by (nonlinear_arith)
            requires
                (bx - sx) * (qy - sy) == (by - sy) * (qx - sx) && bx != sx && !(qx == sx && qy
                    == sy);
        assert((qx - sx) * (by - sy) == (qy - sy) * (bx - sx)) by (nonlinear_arith)
            requires (bx - sx) * (qy - sy) == (by - sy) * (qx - sx);
        assert(spec_collinear(s, q, b));
        if (bx - sx) * (qx - sx) > 0 {
            if spec_in_bounds(qx, sx, bx) {
                lemma_betweenness_transfer(s, b, q);
                assert(spec_on_segment_excl(s, b, q));
                assert(false);
            } else {
                assert(spec_in_bounds(bx, sx, qx)) by (nonlinear_arith)
                    requires (bx - sx) * (qx - sx) > 0 && !spec_in_bounds(qx, sx, bx);
                lemma_betweenness_transfer(s, q, b);
                assert(spec_on_segment_excl(s, q, b));
                assert(false);
            }
        }
        assert((by - sy) * (qx - sx) == (bx - sx) * (qy - sy));
        assert(((by - sy) * (qy - sy)) * ((bx - sx) * (qx - sx)) == ((bx - sx) * (qy - sy)) * ((
        bx - sx) * (qy - sy))) by (nonlinear_arith)
            requires (by - sy) * (qx - sx) == (bx - sx) * (qy - sy);
        assert(((by - sy) * (qy - sy)) * ((bx - sx) * (qx - sx)) >= 0) by (nonlinear_arith)
            requires
                ((by - sy) * (qy - sy)) * ((bx - sx) * (qx - sx)) == ((bx - sx) * (qy - sy)) * ((
                bx - sx) * (qy - sy));
        assert((bx - sx) * (qx - sx) < 0) by (nonlinear_arith)
            requires (bx - sx) * (qx - sx) <= 0 && bx != sx && qx != sx;
        assert((by - sy) * (qy - sy) <= 0) by (nonlinear_arith)
            requires
                ((by - sy) * (qy - sy)) * ((bx - sx) * (qx - sx)) >= 0 && (bx - sx) * (qx - sx)
                    < 0;
    }
    assert(spec_delta(sx, bx) + spec_delta(sx, qx) == spec_delta(bx, qx)) by (nonlinear_arith)
        requires (bx - sx) * (qx - sx) <= 0;
    assert(spec_delta(sy, by) + spec_delta(sy, qy) == spec_delta(by, qy)) by (nonlinear_arith)
        requires (by - sy) * (qy - sy) <= 0;
}

} // verus!
