use std::cmp::Ordering;
use tile_validity::geom::{Point, LineString};
use tile_validity::intersect::{intersection, Intersection};
use tile_validity::validity::has_self_intersections;
use tile_validity::inject::order_points;

fn ls(pts: &[(i32, i32)]) -> LineString {
    LineString(pts.iter().map(|&(x, y)| Point::new(x, y)).collect())
}

fn p(x: i32, y: i32) -> Point {
    Point::new(x, y)
}

#[test]
fn intersect1() {
    assert_eq!(intersection(0, 0, 0, 10, 5, 1, 5, 2), Intersection::Apart);
    assert_eq!(intersection(0, 0, 0, 10, 0, 5, 5, 5), Intersection::Touching(p(0, 5)));

    assert_eq!(intersection(0, 0, 0, 10, 0, 0, 0, 10), Intersection::Overlapping(p(0, 0), p(0, 10)));
    assert_eq!(intersection(0, 0, 0, 10, 0, 5, 0, 10), Intersection::Overlapping(p(0, 5), p(0, 10)));
    assert_eq!(intersection(0, 0, 0, 10, 0, 5, 0, 15), Intersection::Overlapping(p(0, 5), p(0, 10)));
    assert_eq!(intersection(0, 0, 0, 10, 0, 0, 0, 5), Intersection::Overlapping(p(0, 5), p(0, 0)));
    assert_eq!(intersection(0, 0, 0, 10, 0, 2, 0, 8), Intersection::Overlapping(p(0, 2), p(0, 8)));
    assert_eq!(intersection(0, 2, 0, 8, 0, 0, 0, 10), Intersection::Overlapping(p(0, 2), p(0, 8)));

    assert_eq!(intersection(0, 0, 0, 10, 0, 10, 1, 20), Intersection::EndToEnd);
    assert_eq!(intersection(0, 0, 0, 10, 0, 10, 0, 20), Intersection::EndToEnd);
    assert_eq!(intersection(0, 0, 0, 10, 1, 10, 0, 10), Intersection::EndToEnd);

    //   C
    // A-B
    // test all combinations
    // ABBC
    assert_eq!(intersection(0, 0, 0, 1, 0, 1, 1, 1), Intersection::EndToEnd);
    // ABCB
    assert_eq!(intersection(0, 0, 0, 1, 1, 1, 0, 1), Intersection::EndToEnd);
    // BABC
    assert_eq!(intersection(0, 1, 0, 0, 0, 1, 1, 1), Intersection::EndToEnd);
    // BACB
    assert_eq!(intersection(0, 1, 0, 0, 1, 1, 0, 1), Intersection::EndToEnd);

    assert_eq!(intersection(0, 0, 0, 10, 1, 10, 1, 20), Intersection::Apart);
    assert_eq!(intersection(0, 0, 0, 10, 1, 20, 1, 40), Intersection::Apart);

    assert_eq!(intersection(0, 0, 0, 10, -5, 5, 5, 5), Intersection::Crossing(p(0, 5)));
    assert_eq!(intersection(0, 0, 0, 10, -5, 1, 5, 1), Intersection::Crossing(p(0, 1)));

    assert_eq!(intersection(0, 0, 10, 0, 10, 0, 10, 10), Intersection::EndToEnd);
    assert_eq!(intersection(-5, 5, 5, 5, 0, 0, 0, 10), Intersection::Crossing(p(0, 5)));
    assert_eq!(intersection(0, 0, 10, 0, 5, 10, 5, -10), Intersection::Crossing(p(5, 0)));

    // They meet at (0.5, 0.5); halves round up, giving (1, 1)
    assert_eq!(intersection(0, 0, 1, 1, 1, 0, 0, 1), Intersection::Crossing(p(1, 1)));
}

#[test]
fn intersect2() {
    assert!(!has_self_intersections(&ls(&[(0, 0), (1, 0)])));
    assert!(!has_self_intersections(&ls(&[(0, 0), (1, 0), (2, 0)])));
    assert!(!has_self_intersections(&ls(&[(0, 0), (1, 0), (2, 0), (3, 0), (4, 0), (5, 0)])));

    // should be a problem
    assert!(has_self_intersections(&ls(&[(0, 0), (10, 0), (10, 10), (5, 10), (5, -10)])));

    // closed ring, should be OK
    assert!(!has_self_intersections(&ls(&[(0, 0), (0, 1), (1, 1), (1, 0), (0, 0)])));
}

#[test]
fn intersect3() {
    assert_eq!(intersection(4, 0, 2, -1, 2, 1, 0, 0), Intersection::Apart);
}

#[test]
fn intersect4() {
    assert_eq!(intersection(0, 0, 4, 0, 2, -1, 2, 0), Intersection::Touching(p(2, 0)));
    assert_eq!(intersection(0, 0, 4, 0, 2, 0, 2, 1), Intersection::Touching(p(2, 0)));

    assert_eq!(intersection(2, -1, 2, 0, 0, 0, 4, 0), Intersection::Touching(p(2, 0)));
    assert_eq!(intersection(2, 0, 2, 1, 0, 0, 4, 0), Intersection::Touching(p(2, 0)));
}

#[test]
fn intersect5() {
    assert_eq!(intersection(0, 0, 4, 0, 1, -1, 1, 1), Intersection::Crossing(p(1, 0)));
    assert_eq!(intersection(0, 0, 4, 0, 2, -1, 2, 1), Intersection::Crossing(p(2, 0)));
}

#[test]
fn intersect6() {
    // bbox overlaps, and they have the same slope, but they don't touch
    assert_eq!(intersection(0, 0, 10, 10, 1, 2, 6, 7), Intersection::Apart);
    assert_eq!(intersection(1, 2, 6, 7, 0, 0, 10, 10), Intersection::Apart);
    assert_eq!(intersection(10, 10, 0, 0, 6, 7, 1, 2), Intersection::Apart);
    assert_eq!(intersection(6, 7, 1, 2, 10, 10, 0, 0), Intersection::Apart);
}

#[test]
fn intersect7() {
    // bbox overlaps, but they don't have the same slope
    assert_eq!(intersection(0, 0, 10, 10, 1, 2, 1, 5), Intersection::Apart);
}

#[test]
fn intersect8() {
    assert_eq!(intersection(1, 2, 1, 1, 1, 3, 1, 2), Intersection::EndToEnd);
    assert_eq!(intersection(1, 1, 1, 2, 1, 3, 1, 2), Intersection::EndToEnd);

    assert_eq!(intersection(1, 2, 1, 1, 1, 2, 1, 3), Intersection::EndToEnd);
    assert_eq!(intersection(1, 1, 1, 2, 1, 2, 1, 3), Intersection::EndToEnd);
}

fn test_overlapping(
    p1: (i32, i32),
    p2: (i32, i32),
    p3: (i32, i32),
    p4: (i32, i32),
    res1: (i32, i32),
    res2: (i32, i32),
) {
    let r1 = p(res1.0, res1.1);
    let r2 = p(res2.0, res2.1);

    let res = intersection(p1.0, p1.1, p2.0, p2.1, p3.0, p3.1, p4.0, p4.1);
    assert!(res == Intersection::Overlapping(r1, r2) || res == Intersection::Overlapping(r2, r1));

    let res = intersection(p2.0, p2.1, p1.0, p1.1, p3.0, p3.1, p4.0, p4.1);
    assert!(
        res == Intersection::Overlapping(r1, r2) || res == Intersection::Overlapping(r2, r1),
        "res {:?}",
        res
    );

    let res = intersection(p1.0, p1.1, p2.0, p2.1, p4.0, p4.1, p3.0, p3.1);
    assert!(res == Intersection::Overlapping(r1, r2) || res == Intersection::Overlapping(r2, r1));

    let res = intersection(p2.0, p2.1, p1.0, p1.1, p4.0, p4.1, p3.0, p3.1);
    assert!(res == Intersection::Overlapping(r1, r2) || res == Intersection::Overlapping(r2, r1));
}

#[test]
fn intersect10() {
    test_overlapping((0, 2), (0, 0), (0, 0), (0, 1), (0, 0), (0, 1));

    test_overlapping((2, 0), (0, 0), (0, 0), (1, 0), (0, 0), (1, 0));

    test_overlapping((0, 0), (5, 0), (-5, 0), (1, 0), (0, 0), (1, 0));

    test_overlapping((0, 0), (0, 5), (0, -5), (0, 1), (0, 0), (0, 1));

    test_overlapping((-10, -10), (10, 10), (0, 0), (5, 5), (0, 0), (5, 5));

    test_overlapping((0, 0), (10, 10), (0, 0), (5, 5), (0, 0), (5, 5));
}

#[test]
fn intersect11() {
    test_overlapping((0, 0), (10, 0), (10, 0), (-2, 0), (0, 0), (10, 0));
}

#[test]
fn intersect12() {
    // the crossing point is the exact crossing rounded to the nearest
    // integer per coordinate, half up, so it does not depend on the order
    // in which the segments or their endpoints are given
    assert_eq!(intersection(0, 0, 1, 1, 1, 0, 0, 1), Intersection::Crossing(p(1, 1)));
    assert_eq!(intersection(1, 1, 0, 0, 1, 0, 0, 1), Intersection::Crossing(p(1, 1)));
    assert_eq!(intersection(0, 0, 1, 1, 0, 1, 1, 0), Intersection::Crossing(p(1, 1)));
    assert_eq!(intersection(1, 1, 0, 0, 0, 1, 1, 0), Intersection::Crossing(p(1, 1)));

    assert_eq!(intersection(3, 1, 4, 0, 3, 0, 4, 1), Intersection::Crossing(p(4, 1)));
    assert_eq!(intersection(75, 43, 76, 42, 75, 42, 76, 43), Intersection::Crossing(p(76, 43)));
    assert_eq!(
        intersection(1975, 1243, 1976, 1242, 1975, 1242, 1976, 1243),
        Intersection::Crossing(p(1976, 1243))
    );
}

#[test]
fn intersect13() {
    let a = p(2875, 1992);
    let b = p(2905, 1972);
    let c = p(2944, 1990);
    let d = p(2902, 1974);
    assert_eq!(
        intersection(a.x, a.y, b.x, b.y, c.x, c.y, d.x, d.y),
        Intersection::Touching(p(2902, 1974))
    );
    assert_eq!(
        intersection(b.x, b.y, a.x, a.y, c.x, c.y, d.x, d.y),
        Intersection::Touching(p(2902, 1974))
    );
    assert_eq!(
        intersection(a.x, a.y, b.x, b.y, d.x, d.y, c.x, c.y),
        Intersection::Touching(p(2902, 1974))
    );
    assert_eq!(
        intersection(b.x, b.y, a.x, a.y, d.x, d.y, c.x, c.y),
        Intersection::Touching(p(2902, 1974))
    );
}

#[test]
fn intersect14() {
    let a = p(15920, 23516);
    let b = p(16400, 23996);
    let c = p(16400, 24122);
    let d = p(16022, 23318);
    assert_eq!(
        intersection(a.x, a.y, b.x, b.y, c.x, c.y, d.x, d.y),
        Intersection::Crossing(p(16288, 23884))
    );
}

#[test]
fn intersect15() {
    assert_eq!(
        intersection(20480, 23619, 24576, 21764, 24576, 21328, 21328, 24576),
        Intersection::Crossing(p(23779, 22125))
    );
}

fn category(i: &Intersection) -> u32 {
    match i {
        Intersection::Apart => 0,
        Intersection::Overlapping(_, _) => 1,
        Intersection::EndToEnd => 2,
        Intersection::Touching(_) => 3,
        Intersection::Crossing(_) => 4,
    }
}

#[test]
fn intersection_symmetry_categories() {
    // the classification category never depends on the direction of either
    // segment nor on which segment comes first
    let cases: &[((i32, i32), (i32, i32), (i32, i32), (i32, i32))] = &[
        ((0, 0), (0, 10), (5, 1), (5, 2)),
        ((0, 0), (0, 10), (0, 5), (5, 5)),
        ((0, 0), (0, 10), (0, 2), (0, 8)),
        ((0, 0), (0, 10), (0, 10), (1, 20)),
        ((0, 0), (1, 1), (1, 0), (0, 1)),
        ((0, 0), (10, 0), (5, 10), (5, -10)),
        ((2875, 1992), (2905, 1972), (2944, 1990), (2902, 1974)),
        ((15920, 23516), (16400, 23996), (16400, 24122), (16022, 23318)),
    ];
    for &((x1, y1), (x2, y2), (x3, y3), (x4, y4)) in cases {
        let base = category(&intersection(x1, y1, x2, y2, x3, y3, x4, y4));
        assert_eq!(base, category(&intersection(x2, y2, x1, y1, x3, y3, x4, y4)));
        assert_eq!(base, category(&intersection(x1, y1, x2, y2, x4, y4, x3, y3)));
        assert_eq!(base, category(&intersection(x2, y2, x1, y1, x4, y4, x3, y3)));
        assert_eq!(base, category(&intersection(x3, y3, x4, y4, x1, y1, x2, y2)));
    }
}

#[test]
fn order_points1() {
    assert_eq!(order_points(((0, 0), (10, 0)), (5, 0), (1, 0)), Ordering::Greater);
    assert_eq!(order_points(((0, 0), (10, 0)), (1, 0), (5, 0)), Ordering::Less);
    assert_eq!(order_points(((10, 0), (0, 0)), (1, 0), (5, 0)), Ordering::Greater);
    assert_eq!(order_points(((10, 0), (0, 0)), (5, 0), (1, 0)), Ordering::Less);

    assert_eq!(order_points(((0, 0), (10, 0)), (0, 0), (10, 0)), Ordering::Less);
    assert_eq!(order_points(((0, 0), (10, 0)), (10, 0), (0, 0)), Ordering::Greater);

    assert_eq!(order_points(((0, 0), (10, 0)), (0, 0), (5, 0)), Ordering::Less);
    assert_eq!(order_points(((0, 0), (10, 0)), (5, 0), (0, 0)), Ordering::Greater);

    assert_eq!(order_points(((0, 0), (10, 0)), (5, 0), (10, 0)), Ordering::Less);
    assert_eq!(order_points(((0, 0), (10, 0)), (10, 0), (5, 0)), Ordering::Greater);
}

#[test]
fn order_points2() {
    assert_eq!(
        order_points(((29147, 10518), (17365, 10520)), (-16552, 10518), (-4238, 10518)),
        Ordering::Equal
    );
}
