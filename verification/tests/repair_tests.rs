use tile_validity::geom::{Point, LineString, Polygon, MultiPolygon, Geometry};
use tile_validity::validity::{is_valid, is_polygon_valid, twice_linestring_area};
use tile_validity::inject::add_points_for_all_crossings;
use tile_validity::dissolve::dissolve_into_rings;
use tile_validity::repair::{make_valid, make_polygon_valid, make_rings_valid};

fn ls(pts: &[(i32, i32)]) -> LineString {
    LineString(pts.iter().map(|&(x, y)| Point::new(x, y)).collect())
}

fn p(x: i32, y: i32) -> Point {
    Point::new(x, y)
}

fn ring_of(pts: &[Point]) -> LineString {
    LineString(pts.to_vec())
}

#[test]
fn make_valid1() {
    let unit_square = ls(&[(0, 0), (0, 1), (1, 1), (1, 0), (0, 0)]);
    let geom = Polygon::new(unit_square.clone(), vec![]);

    let mut new_geom = make_polygon_valid(geom).unwrap();
    assert_eq!(new_geom.0.len(), 1);
    let new_geom: Polygon = new_geom.0.remove(0);
    assert!(is_polygon_valid(&new_geom));
    assert_eq!(new_geom.exterior, unit_square);
}

#[test]
fn make_valid2() {
    // a-----b
    // | g-h |
    // e-f | |
    // | j-i |
    // d-----c
    let a = p(0, 0);
    let b = p(6, 0);
    let c = p(6, 4);
    let d = p(0, 4);
    let e = p(0, 2);
    let f = p(2, 2);
    let g = p(2, 1);
    let h = p(4, 1);
    let i = p(4, 3);
    let j = p(2, 3);

    let geom = Polygon::new(ring_of(&[a, b, c, d, e, f, j, i, h, g, f, e, a]), vec![]);
    assert!(!is_polygon_valid(&geom));

    let mut new_geom = make_polygon_valid(geom).unwrap();
    assert_eq!(new_geom.0.len(), 1);
    let new_geom: Polygon = new_geom.0.remove(0);
    assert!(is_polygon_valid(&new_geom));
    assert_eq!(
        new_geom,
        Polygon::new(ring_of(&[a, d, c, b, a]), vec![ring_of(&[g, h, i, j, g])])
    );
}

#[test]
fn make_valid3() {
    // a-----b
    // | g-h |
    // | | | |
    // | j-i |
    // d-----c
    let a = p(0, 0);
    let b = p(6, 0);
    let c = p(6, 4);
    let d = p(0, 4);
    let g = p(2, 1);
    let h = p(4, 1);
    let i = p(4, 3);
    let j = p(2, 3);

    let poly = Polygon::new(ring_of(&[a, d, c, b, a]), vec![ring_of(&[g, h, i, j, g])]);
    assert!(is_polygon_valid(&poly));
    let original = poly.clone();

    let mut mp: MultiPolygon = make_polygon_valid(poly).unwrap();
    assert_eq!(mp.0.len(), 1);
    let poly: Polygon = mp.0.remove(0);
    assert!(is_polygon_valid(&poly));
    assert_eq!(poly, original);
}

#[test]
fn make_valid5() {
    // This polygon touches at a point (d). it should be 2 polygons
    //   a-b
    //   | |
    // g-d-c
    // | |
    // f-e
    let a = p(2, 0);
    let b = p(4, 0);
    let c = p(4, 6);
    let d = p(2, 4);
    let e = p(2, 6);
    let f = p(0, 6);
    let g = p(0, 4);
    // sanity check
    assert!(is_polygon_valid(&Polygon::new(ring_of(&[a, d, c, b, a]), vec![])));
    assert!(is_polygon_valid(&Polygon::new(ring_of(&[d, g, f, e, d]), vec![])));

    let poly = Polygon::new(ring_of(&[a, d, g, f, e, d, c, b, a]), vec![]);

    let new_mp: MultiPolygon = make_polygon_valid(poly).unwrap();

    assert_eq!(new_mp.0.len(), 2);
    assert_eq!(new_mp.0[0], Polygon::new(ring_of(&[d, g, f, e, d]), vec![]));
    assert!(is_polygon_valid(&new_mp.0[0]));
    assert_eq!(new_mp.0[1], Polygon::new(ring_of(&[a, d, c, b, a]), vec![]));
    assert!(is_polygon_valid(&new_mp.0[1]));
}

#[test]
fn make_valid6() {
    let poly: Geometry = Geometry::Polygon(Polygon::new(
        ls(&[(3045, 3309), (3044, 3308), (3031, 3316), (3039, 3304), (3026, 3314), (3045, 3309)]),
        vec![],
    ));
    assert!(!is_valid(&poly));
    let poly = make_valid(poly);
    assert!(poly.is_some());
    let poly = poly.unwrap();
    assert!(is_valid(&poly));
    // the bowtie repairs into three simple triangles, split at the two
    // crossing points rounded half-up: (3034,3312) and (3040,3310)
    assert_eq!(
        poly,
        Geometry::MultiPolygon(MultiPolygon(vec![
            Polygon::new(ls(&[(3034, 3312), (3039, 3304), (3026, 3314), (3034, 3312)]), vec![]),
            Polygon::new(ls(&[(3040, 3310), (3034, 3312), (3031, 3316), (3040, 3310)]), vec![]),
            Polygon::new(ls(&[(3045, 3309), (3044, 3308), (3040, 3310), (3045, 3309)]), vec![]),
        ]))
    );
}

fn no_change_when_injecting(pts: &[(i32, i32)]) {
    let mut v = ls(pts);
    let expected = ls(pts);
    add_points_for_all_crossings(&mut v);
    assert_eq!(v, expected);
}

fn injection_result(pts: &[(i32, i32)], expected: &[(i32, i32)]) {
    let mut v = ls(pts);
    add_points_for_all_crossings(&mut v);
    assert_eq!(v, ls(expected));
}

#[test]
fn add_points_for_all_crossings1() {
    no_change_when_injecting(&[(0, 0)]);
    no_change_when_injecting(&[(0, 0), (4, 0), (2, -1)]);
    no_change_when_injecting(&[(0, 0), (2, 0), (4, 0), (2, -1), (2, 0), (2, 1), (0, 0)]);

    injection_result(
        &[(0, 0), (4, 0), (2, -1), (2, 0), (2, 1), (0, 0)],
        &[(0, 0), (2, 0), (4, 0), (2, -1), (2, 0), (2, 1), (0, 0)],
    );
    injection_result(
        &[(0, 0), (4, 0), (2, -1), (2, 1)],
        &[(0, 0), (2, 0), (4, 0), (2, -1), (2, 0), (2, 1)],
    );
}

#[test]
fn add_points_for_all_crossings2() {
    injection_result(
        &[(0, 0), (10, 0), (5, 0), (5, 10), (0, 0)],
        &[(0, 0), (5, 0), (10, 0), (5, 0), (5, 10), (0, 0)],
    );
}

#[test]
fn add_points_for_all_crossings3() {
    injection_result(
        &[(0, 0), (10, 0), (-2, 0), (-2, 10), (0, 0)],
        &[(0, 0), (10, 0), (0, 0), (-2, 0), (-2, 10), (0, 0)],
    );
}

#[test]
fn add_points_for_all_crossings4() {
    injection_result(
        &[(0, 0), (100, 0), (100, 100), (70, 0), (50, 0), (0, 100), (0, 0)],
        &[(0, 0), (50, 0), (70, 0), (100, 0), (100, 100), (70, 0), (50, 0), (0, 100), (0, 0)],
    );
}

#[test]
fn add_points_for_all_crossings5() {
    injection_result(
        &[(0, 0), (100, 0), (110, 100), (110, 0), (50, 0), (0, 100), (0, 0)],
        &[(0, 0), (50, 0), (100, 0), (110, 100), (110, 0), (100, 0), (50, 0), (0, 100), (0, 0)],
    );
}

#[test]
fn add_points_for_all_crossings6() {
    // the two crossings of the bowtie round half-up to (3040,3310) and
    // (3034,3312); each becomes a vertex of both edges it splits
    injection_result(
        &[(3045, 3309), (3044, 3308), (3031, 3316), (3039, 3304), (3026, 3314), (3045, 3309)],
        &[
            (3045, 3309),
            (3044, 3308),
            (3040, 3310),
            (3031, 3316),
            (3034, 3312),
            (3039, 3304),
            (3026, 3314),
            (3034, 3312),
            (3040, 3310),
            (3045, 3309),
        ],
    );
}

#[test]
fn dissolve_into_rings1() {
    let simple = ls(&[(0, 0), (0, 1), (1, 1), (1, 0), (0, 0)]);
    assert_eq!(dissolve_into_rings(simple.clone()), vec![simple]);

    // This polygon touches at a point (d). it should be 2 polygons
    //   a-b
    //   | |
    // g-d-c
    // | |
    // f-e
    let a = p(2, 0);
    let b = p(4, 0);
    let c = p(4, 6);
    let d = p(2, 4);
    let e = p(2, 6);
    let f = p(0, 6);
    let g = p(0, 4);
    // sanity check
    assert!(is_polygon_valid(&Polygon::new(ring_of(&[a, d, e, b, a]), vec![])));
    assert!(is_polygon_valid(&Polygon::new(ring_of(&[d, g, f, e, d]), vec![])));

    let line = ring_of(&[a, d, g, f, e, d, c, b, a]);

    let result = dissolve_into_rings(line);
    assert_eq!(result.len(), 2);
    assert_eq!(result[0], ring_of(&[d, g, f, e, d]));
    assert_eq!(result[1], ring_of(&[a, d, c, b, a]));

    assert_eq!(result, vec![ring_of(&[d, g, f, e, d]), ring_of(&[a, d, c, b, a])]);
}

#[test]
fn dissolve_into_rings2() {
    let a = p(0, 0);
    let b = p(2, 0);
    let c = p(3, 0);
    let d = p(1, 1);

    // a---b--c
    //  \ /
    //   d

    // a-b-a Just the spike
    assert_eq!(dissolve_into_rings(ring_of(&[a, b, a])), vec![]);

    // Triangle (a-b-d-a) is kept, the little spike (b-c-b) is removed.
    assert_eq!(dissolve_into_rings(ring_of(&[a, b, c, b, d, a])), vec![ring_of(&[a, b, d, a])]);
}

#[test]
fn dissolve_into_rings3() {
    let a = p(0, 0);
    let c = p(2, 0);
    let b = p(1, 1);
    let d = p(2, 1);
    let e = p(1, 2);
    let f = p(2, 2);

    // a----c
    //  \ / |
    //   b--d
    //   |  |
    //   e--f
    // Triangle abc is filled in, bcd isn't. cdef is a square that's filled in.
    // we get a ring bcdb and then the exterior.

    let result = dissolve_into_rings(ring_of(&[a, b, c, d, b, e, f, d, c, a]));
    assert_eq!(result.len(), 2);
    assert_eq!(result[0], ring_of(&[b, c, d, b]));
    assert_eq!(result[1], ring_of(&[a, b, e, f, c, a]));
}

#[test]
fn dissolve_into_rings4() {
    // a-----b
    // | g-h |
    // e-f | |
    // | j-i |
    // d-----c
    let a = p(0, 0);
    let b = p(6, 0);
    let c = p(6, 4);
    let d = p(0, 4);
    let e = p(0, 2);
    let f = p(2, 2);
    let g = p(2, 1);
    let h = p(4, 1);
    let i = p(4, 3);
    let j = p(2, 3);

    let result = dissolve_into_rings(ring_of(&[a, b, c, d, e, f, g, h, i, j, f, e, a]));
    assert_eq!(result.len(), 2);
    // e & f are gone
    assert_eq!(result[0], ring_of(&[j, g, h, i, j]));
    assert_eq!(result[1], ring_of(&[a, b, c, d, a]));
}

#[test]
fn dissolve_into_rings5() {
    // This is a complicated real world example.
    let line = ls(&[
        (31071, 21260),
        (31071, 21259),
        (31071, 21258),
        (31072, 21258),
        (31072, 21259),
        (31071, 21259),
        (31071, 21260),
        (31072, 21260),
        (31072, 21262),
        (31073, 21262),
        (31073, 21264),
        (31074, 21264),
        (31074, 21265),
        (31073, 21265),
        (31073, 21264),
        (31072, 21264),
        (31072, 21262),
        (31071, 21262),
        (31071, 21260),
    ]);

    let result = dissolve_into_rings(line);
    assert_eq!(result.len(), 4);
    assert_eq!(
        result[0],
        ls(&[(31071, 21259), (31071, 21258), (31072, 21258), (31072, 21259), (31071, 21259)])
    );
    assert_eq!(
        result[1],
        ls(&[(31073, 21264), (31074, 21264), (31074, 21265), (31073, 21265), (31073, 21264)])
    );
    assert_eq!(
        result[2],
        ls(&[(31072, 21262), (31073, 21262), (31073, 21264), (31072, 21264), (31072, 21262)])
    );
    assert_eq!(
        result[3],
        ls(&[(31071, 21260), (31072, 21260), (31072, 21262), (31071, 21262), (31071, 21260)])
    );
}

#[test]
fn dissolve_into_rings6() {
    // b--c
    // | /
    // a
    // | \
    // e--d
    let b = p(0, 0);
    let c = p(5, 0);
    let a = p(0, 5);
    let e = p(0, 10);
    let d = p(5, 10);
    let line = ring_of(&[a, b, c, a, d, e, a]);
    let result = dissolve_into_rings(line);
    assert_eq!(result.len(), 2);
    assert_eq!(result[0], ring_of(&[a, b, c, a]));
    assert_eq!(result[1], ring_of(&[a, d, e, a]));
}

#[test]
fn dissolve_into_rings8() {
    // a-------b
    // |  i  h |
    // |/ |/ | |
    // e--f--g |
    // d-------c
    let a = p(0, 0);
    let b = p(30, 0);
    let i = p(10, 10);
    let h = p(20, 10);
    let e = p(0, 20);
    let f = p(10, 30);
    let g = p(20, 30);
    let d = p(0, 30);
    let c = p(30, 30);

    let line = ring_of(&[a, b, c, d, e, f, g, h, f, i, e, a]);
    let result = dissolve_into_rings(line);
    assert_eq!(result.len(), 3);
    assert_eq!(result[0], ring_of(&[f, g, h, f]));
    assert_eq!(result[1], ring_of(&[e, f, i, e]));
    assert_eq!(result[2], ring_of(&[a, b, c, d, a]));
}

#[test]
fn dissolve_into_rings9() {
    let line = ls(&[
        (23225, 13212),
        (23237, 13209),
        (23222, 13204),
        (23225, 13212),
        (23226, 13212),
        (23225, 13212),
        (23206, 13220),
        (23214, 13203),
        (23246, 13189),
        (23251, 13210),
        (23224, 13230),
        (23225, 13212),
    ]);
    let result = dissolve_into_rings(line);

    assert_eq!(result.len(), 2);
    assert_eq!(result[0], ls(&[(23225, 13212), (23237, 13209), (23222, 13204), (23225, 13212)]));
    assert_eq!(
        result[1],
        ls(&[
            (23225, 13212),
            (23206, 13220),
            (23214, 13203),
            (23246, 13189),
            (23251, 13210),
            (23224, 13230),
            (23225, 13212)
        ])
    );
}

#[test]
fn dissolve_into_rings10() {
    // b--c
    // | /
    // a
    // | \
    // e--d
    let b = p(0, 0);
    let c = p(5, 0);
    let a = p(0, 5);
    let e = p(0, 10);
    let d = p(5, 10);
    let line = ring_of(&[b, c, a, d, e, a, b]);
    let result = dissolve_into_rings(line);
    assert_eq!(result.len(), 2);
    assert_eq!(result[0], ring_of(&[a, d, e, a]));
    assert_eq!(result[1], ring_of(&[b, c, a, b]));
}

#[test]
fn dissolve_into_rings12() {
    // a---b
    // |   |
    // c-d-e
    //   |
    //   | h
    //   |/|
    //   f-g
    //   |
    //   i
    let a = p(0, 0);
    let b = p(2, 0);
    let c = p(0, 1);
    let d = p(1, 1);
    let e = p(2, 1);
    let h = p(2, 2);
    let f = p(1, 3);
    let g = p(2, 3);
    let i = p(1, 4);
    let line = ring_of(&[a, c, d, f, g, h, f, i, f, d, e, b, a]);
    let result = dissolve_into_rings(line);
    assert_eq!(result.len(), 2);
    assert_eq!(result[0], ring_of(&[f, g, h, f]));
    assert_eq!(result[1], ring_of(&[a, c, e, b, a]));
}

#[test]
fn dissolve_chain_with_degree_three_node() {
    // a--b--c---d-e
    // \ /   |\ /  |
    //  f    | g   |
    //       h-----i
    // c occurs three times, so its node is split into elementary loops;
    // candidates are claimed smallest span first, and the collinear point
    // d is despiked out of the last extracted loop
    let a = p(0, 0);
    let b = p(3, 0);
    let c = p(6, 0);
    let d = p(10, 0);
    let e = p(12, 0);
    let f = p(1, 1);
    let g = p(5, 1);
    let h = p(6, 2);
    let i = p(12, 2);
    let line = ring_of(&[a, f, b, c, d, g, c, h, i, e, d, c, b, a]);
    let result = dissolve_into_rings(line);
    assert_eq!(result.len(), 3);
    assert_eq!(result[0], ring_of(&[c, d, g, c]));
    assert_eq!(result[1], ring_of(&[c, h, i, e, c]));
    assert_eq!(result[2], ring_of(&[a, f, b, a]));
}

#[test]
fn dissolve_loops_sharing_a_stem() {
    // b--c
    // | /
    // a
    // |
    // d
    // | \
    // e--f
    // the stem a-d is walked twice; the bottom triangle is claimed first
    // (smaller index span), and the stem survives only as the two-point
    // remnant of the middle loop, which is too short to emit
    let b = p(0, 0);
    let c = p(5, 0);
    let a = p(0, 5);
    let d = p(0, 10);
    let e = p(0, 15);
    let f = p(5, 15);
    let line = ring_of(&[b, c, a, d, e, f, d, a, b]);
    let result = dissolve_into_rings(line);
    assert_eq!(result.len(), 2);
    assert_eq!(result[0], ring_of(&[d, e, f, d]));
    assert_eq!(result[1], ring_of(&[b, c, a, b]));
}

#[test]
fn make_rings_valid1() {
    // a--b f--e
    // |   X   |
    // h--g c--d
    // the X crosses at (1.5, 0.5), which rounds half-up to c; the curve is
    // split there into the right square and the left shape, whose then
    // collinear corner g is dropped as a spike
    let a = p(0, 0);
    let b = p(1, 0);
    let f = p(2, 0);
    let e = p(3, 0);
    let h = p(0, 1);
    let g = p(1, 1);
    let c = p(2, 1);
    let d = p(3, 1);
    let line = ring_of(&[a, b, c, d, e, f, g, h, a]);
    let rings = vec![line];
    let valid = make_rings_valid(rings).unwrap();
    assert_eq!(valid.0.len(), 2);
    assert_eq!(valid.0[0].exterior, ring_of(&[c, d, e, f, c]));
    assert_eq!(valid.0[0].interiors, Vec::<LineString>::new());

    assert_eq!(valid.0[1].exterior, ring_of(&[a, h, c, b, a]));
    assert_eq!(valid.0[1].interiors, Vec::<LineString>::new());
}

#[test]
fn make_valid_idempotent_on_repaired_bowtie() {
    // repairing twice changes nothing more: the first result is valid and
    // comes back from a second repair unchanged
    let poly: Geometry = Geometry::Polygon(Polygon::new(
        ls(&[(3045, 3309), (3044, 3308), (3031, 3316), (3039, 3304), (3026, 3314), (3045, 3309)]),
        vec![],
    ));
    let once = make_valid(poly).unwrap();
    assert!(is_valid(&once));
    let copy = match &once {
        Geometry::MultiPolygon(mp) => Geometry::MultiPolygon(mp.clone()),
        _ => unreachable!(),
    };
    let twice = make_valid(once).unwrap();
    assert_eq!(twice, copy);
}

#[test]
fn make_valid_no_op_on_valid_input() {
    let unit_square = Geometry::Polygon(Polygon::new(
        ls(&[(0, 0), (0, 1), (1, 1), (1, 0), (0, 0)]),
        vec![],
    ));
    let expected = Geometry::Polygon(Polygon::new(
        ls(&[(0, 0), (0, 1), (1, 1), (1, 0), (0, 0)]),
        vec![],
    ));
    assert!(is_valid(&unit_square));
    assert_eq!(make_valid(unit_square), Some(expected));
}

#[test]
fn cleanup_alone_repairs_a_doubled_vertex() {
    // a ring with a consecutive duplicate point is invalid, but collapsing
    // the duplicate already yields a valid polygon, so repair must succeed
    // with exactly the cleaned geometry
    let doubled = Geometry::Polygon(Polygon::new(
        ls(&[(0, 0), (0, 0), (0, 1), (1, 1), (1, 0), (0, 0)]),
        vec![],
    ));
    assert!(!is_valid(&doubled));
    let repaired = make_valid(doubled).unwrap();
    assert!(is_valid(&repaired));
    assert_eq!(
        repaired,
        Geometry::Polygon(Polygon::new(ls(&[(0, 0), (0, 1), (1, 1), (1, 0), (0, 0)]), vec![]))
    );
}

#[test]
fn make_valid_degenerate_linestrings() {
    // a linestring with 0 or 1 point is invalid and cannot be repaired
    let empty = Geometry::LineString(ls(&[]));
    assert!(!is_valid(&empty));
    assert_eq!(make_valid(empty), None);

    let single = Geometry::LineString(ls(&[(7, 7)]));
    assert!(!is_valid(&single));
    assert_eq!(make_valid(single), None);
}

#[test]
fn repaired_polygons_follow_orientation_law() {
    // every output polygon's exterior has negative signed double area and
    // every interior positive, in the downward-Y convention
    let poly: Geometry = Geometry::Polygon(Polygon::new(
        ls(&[(0, 0), (6, 0), (6, 4), (0, 4), (0, 2), (2, 2), (2, 3), (4, 3), (4, 1), (2, 1), (2, 2), (0, 2), (0, 0)]),
        vec![],
    ));
    let repaired = make_valid(poly).unwrap();
    match repaired {
        Geometry::MultiPolygon(mp) => {
            assert!(mp.0.len() > 0);
            for poly in mp.0.iter() {
                assert!(twice_linestring_area(&poly.exterior) < 0);
                for inner in poly.interiors.iter() {
                    assert!(twice_linestring_area(inner) > 0);
                }
            }
        },
        _ => unreachable!(),
    }
}

#[test]
fn touching_inner_square_splits_into_two_polygons() {
    // a square with an inner square sharing one boundary point becomes two
    // disjoint simple polygons, not one polygon with a hole
    let a = p(2, 0);
    let b = p(4, 0);
    let c = p(4, 6);
    let d = p(2, 4);
    let e = p(2, 6);
    let f = p(0, 6);
    let g = p(0, 4);
    let poly = Polygon::new(ring_of(&[a, d, g, f, e, d, c, b, a]), vec![]);
    let repaired = make_polygon_valid(poly).unwrap();
    assert_eq!(repaired.0.len(), 2);
    assert!(repaired.0.iter().all(|q| q.interiors.is_empty()));
}

#[test]
fn nested_square_keeps_its_hole() {
    // a square-in-square with no shared boundary point stays one polygon
    // with one hole
    let outer = ls(&[(0, 0), (0, 6), (6, 6), (6, 0), (0, 0)]);
    let inner = ls(&[(2, 2), (4, 2), (4, 4), (2, 4), (2, 2)]);
    let valid = make_rings_valid(vec![outer, inner]).unwrap();
    assert_eq!(valid.0.len(), 1);
    assert_eq!(valid.0[0].interiors.len(), 1);
}
