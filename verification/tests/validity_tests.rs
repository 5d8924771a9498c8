use tile_validity::geom::{Point, LineString, Polygon, MultiPolygon, Geometry};
use tile_validity::validity::{is_valid, is_valid_skip_expensive, is_polygon_valid,
    is_linestring_valid, has_self_intersections, num_points_excl_duplicates,
    ensure_polygon_orientation, twice_linestring_area};
use tile_validity::rings::{does_ray_cross, Crossing, RingType, is_ring_ext_int,
    calc_rings_ext_int, convert_rings_to_polygons, distribute_interiors};

fn ls(pts: &[(i32, i32)]) -> LineString {
    LineString(pts.iter().map(|&(x, y)| Point::new(x, y)).collect())
}

fn p(x: i32, y: i32) -> Point {
    Point::new(x, y)
}

fn ring_of(pts: &[Point]) -> LineString {
    LineString(pts.to_vec())
}

#[test]
fn validity_checks() {
    let geom: LineString = LineString(vec![]);
    assert!(!is_linestring_valid(&geom));

    assert!(!is_linestring_valid(&ls(&[(0, 0)])));

    // Linestrings can self-intersect
    assert!(is_linestring_valid(&ls(&[(0, 0), (4, 0), (2, -1), (2, 1)])));

    assert!(has_self_intersections(&ls(&[(0, 0), (4, 0), (2, -1), (2, 1), (0, 0)])));
    assert!(has_self_intersections(&ls(&[(0, 0), (4, 0), (2, -1), (2, 0), (2, 1), (0, 0)])));

    // Simple square - valid
    assert!(is_polygon_valid(&Polygon::new(ls(&[(0, 0), (0, 1), (1, 1), (1, 0), (0, 0)]), vec![])));
    // Unclosed - invalid
    assert!(!is_polygon_valid(&Polygon::new(ls(&[(0, 0), (0, 1), (1, 1), (1, 0)]), vec![])));

    // Has a touching inner
    let geom = Polygon::new(
        ls(&[
            (0, 0),
            (0, 2),
            (1, 2),
            (1, 1),
            (2, 1),
            (2, 3),
            (1, 3),
            (1, 2),
            (0, 2),
            (0, 4),
            (3, 4),
            (3, 0),
            (0, 0),
        ]),
        vec![],
    );
    assert!(!is_polygon_valid(&geom));
}

#[test]
fn does_ray_cross1() {
    fn know_answer((x1, y1): (i32, i32), (x2, y2): (i32, i32), res: Crossing) {
        assert_eq!(
            does_ray_cross(&Point::new(0, 0), &Point::new(x1, y1), &Point::new(x2, y2)),
            res,
            "({:?}, {:?}), ({:?}, {:?}) {:?}",
            x1,
            y1,
            x2,
            y2,
            res
        );
    }

    know_answer((1, 1), (10, 10), Crossing::No);
    know_answer((1, 0), (2, 0), Crossing::No);
    know_answer((-10, 10), (-10, 20), Crossing::No);
    know_answer((-10, -10), (-10, -20), Crossing::No);

    know_answer((0, 0), (10, 10), Crossing::Touches);
    know_answer((10, 1), (0, 0), Crossing::Touches);
    know_answer((-10, 0), (-5, 0), Crossing::Touches);

    know_answer((-10, 10), (-10, -10), Crossing::Yes);
    know_answer((-10, 10), (-10, -10), Crossing::Yes);
}

#[test]
fn does_ray_cross2() {
    assert_eq!(
        does_ray_cross(&p(1, 2), &p(0, 0), &p(0, 2)),
        Crossing::OneEndOnOtherBelow
    );
    assert_eq!(
        does_ray_cross(&p(1, 2), &p(0, 2), &p(0, 0)),
        Crossing::OneEndOnOtherBelow
    );

    assert_eq!(
        does_ray_cross(&p(1, 2), &p(0, 5), &p(0, 2)),
        Crossing::OneEndOnOtherAbove
    );
    assert_eq!(
        does_ray_cross(&p(1, 2), &p(0, 2), &p(0, 5)),
        Crossing::OneEndOnOtherAbove
    );
}

#[test]
fn does_ray_cross3() {
    assert_eq!(
        does_ray_cross(&p(50, 3), &p(50, 2), &p(49, 3)),
        Crossing::OneEndOnOtherBelow
    );
    assert_eq!(
        does_ray_cross(&p(50, 3), &p(49, 3), &p(50, 2)),
        Crossing::OneEndOnOtherBelow
    );
}

#[test]
fn does_ray_cross4() {
    assert_eq!(does_ray_cross(&p(0, 0), &p(1, 0), &p(0, 1)), Crossing::No);
    assert_eq!(does_ray_cross(&p(0, 0), &p(0, 1), &p(1, 0)), Crossing::No);
    assert_eq!(
        does_ray_cross(&p(0, 0), &p(-1, 0), &p(0, -1)),
        Crossing::OneEndOnOtherBelow
    );
    assert_eq!(
        does_ray_cross(&p(0, 0), &p(0, -1), &p(-1, 0)),
        Crossing::OneEndOnOtherBelow
    );

    assert_eq!(does_ray_cross(&p(0, 0), &p(0, -1), &p(1, 0)), Crossing::No);
    assert_eq!(does_ray_cross(&p(0, 0), &p(1, 0), &p(0, -1)), Crossing::No);
}

#[test]
fn does_ray_cross5() {
    assert_eq!(does_ray_cross(&p(0, 0), &p(-5, 5), &p(0, 5)), Crossing::No);
    assert_eq!(does_ray_cross(&p(0, 0), &p(-5, 5), &p(3, 1)), Crossing::No);
}

#[test]
fn does_ray_cross6() {
    assert_eq!(does_ray_cross(&p(0, 0), &p(0, 0), &p(0, 5)), Crossing::Touches);
    assert_eq!(does_ray_cross(&p(0, 0), &p(0, 5), &p(0, 0)), Crossing::Touches);

    assert_eq!(does_ray_cross(&p(0, 0), &p(0, 5), &p(0, -5)), Crossing::Touches);
    assert_eq!(does_ray_cross(&p(0, 0), &p(-1, 1), &p(1, -1)), Crossing::Touches);
}

#[test]
fn calc_rings_ext_int1() {
    // a-----b
    // | g-h |
    // e-f | |
    // | j-i |
    // d-----c
    let a = p(0, 0);
    let b = p(6, 0);
    let c = p(6, 4);
    let d = p(0, 4);
    let g = p(2, 1);
    let h = p(4, 1);
    let i = p(4, 3);
    let j = p(2, 3);

    let unit_square = ring_of(&[a, b, c, d, a]);
    let result = calc_rings_ext_int(vec![unit_square.clone()]);
    assert_eq!(result.len(), 1);
    assert_eq!(result[0].0, unit_square);
    assert_eq!(result[0].1, RingType::Exterior);

    let inner_square = ring_of(&[g, h, i, j, g]);
    let result = calc_rings_ext_int(vec![unit_square.clone(), inner_square.clone()]);
    assert_eq!(result.len(), 2);
    assert_eq!(result[0].0, unit_square);
    assert_eq!(result[0].1, RingType::Exterior);
    assert_eq!(result[1].0, inner_square);
    assert_eq!(result[1].1, RingType::Interior);

    // same but with other order
    let result = calc_rings_ext_int(vec![inner_square.clone(), unit_square.clone()]);
    assert_eq!(result.len(), 2);
    assert_eq!(result[0].0, inner_square);
    assert_eq!(result[0].1, RingType::Interior);
    assert_eq!(result[1].0, unit_square);
    assert_eq!(result[1].1, RingType::Exterior);
}

#[test]
fn calc_rings_ext_int2() {
    // a---e
    // |gh |
    // |f| |
    // b|| |
    // |ji |
    // |   |
    // c---d
    let ring1 = ls(&[(1, 2), (1, 1), (2, 1), (2, 3), (1, 3), (1, 2)]);
    let ring2 = ls(&[(0, 0), (0, 2), (0, 4), (3, 4), (3, 0), (0, 0)]);

    let result = calc_rings_ext_int(vec![ring1.clone(), ring2.clone()]);
    assert_eq!(result.len(), 2);
    assert_eq!(result[0].0, ring1);
    assert_eq!(result[0].1, RingType::Interior);
    assert_eq!(result[1].0, ring2);
    assert_eq!(result[1].1, RingType::Exterior);
}

#[test]
fn calc_rings_ext_int3() {
    // a-------b
    // |  i  h |
    // |/ |/ | |
    // e--f--g |
    // d-------c
    let a = p(0, 0);
    let b = p(30, 0);
    let i = p(10, 10);
    let h = p(20, 10);
    let e = p(0, 20);
    let f = p(10, 30);
    let g = p(20, 30);
    let d = p(0, 30);
    let c = p(30, 30);

    let inner1 = ring_of(&[f, g, h, f]);
    let inner2 = ring_of(&[e, f, i, e]);
    let outer = ring_of(&[a, b, c, d, a]);

    let result = calc_rings_ext_int(vec![outer.clone(), inner1.clone(), inner2.clone()]);
    assert_eq!(result.len(), 3);
    assert_eq!(result[0].0, outer);
    assert_eq!(result[0].1, RingType::Exterior);
    assert_eq!(result[1].0, inner1);
    assert_eq!(result[1].1, RingType::Interior);
    assert_eq!(result[2].0, inner2);
    assert_eq!(result[2].1, RingType::Interior);
}

#[test]
fn is_ring_ext_int1() {
    // a-------b
    // |  i  h |
    // |/ |/ | |
    // e--f--g |
    // d-------c
    let a = p(0, 0);
    let b = p(30, 0);
    let i = p(10, 10);
    let h = p(20, 10);
    let e = p(0, 20);
    let f = p(10, 30);
    let g = p(20, 30);
    let d = p(0, 30);
    let c = p(30, 30);

    let inner1 = ring_of(&[f, g, h, f]);
    let inner2 = ring_of(&[e, f, i, e]);
    let outer = ring_of(&[a, b, c, d, a]);
    let rings = vec![outer.clone(), inner1.clone(), inner2.clone()];

    assert_eq!(is_ring_ext_int(&outer, 0, &rings), RingType::Exterior);
    assert_eq!(is_ring_ext_int(&inner1, 1, &rings), RingType::Interior);
    assert_eq!(is_ring_ext_int(&inner2, 2, &rings), RingType::Interior);
}

#[test]
fn convert_rings_to_polygons1() {
    assert_eq!(convert_rings_to_polygons(Vec::<LineString>::new()), None);

    let unit_square = ls(&[(0, 0), (0, 1), (1, 1), (1, 0), (0, 0)]);
    assert_eq!(
        convert_rings_to_polygons(vec![unit_square.clone()]),
        Some(MultiPolygon(vec![Polygon::new(unit_square, vec![])]))
    );
}

#[test]
fn convert_rings_to_polygons2() {
    // a-----b
    // | g-h |
    // e f | |
    // | j-i |
    // d-----c
    let a = p(0, 0);
    let b = p(6, 0);
    let c = p(6, 4);
    let d = p(0, 4);
    let e = p(0, 2);
    let f = p(2, 2);
    let g = p(2, 1);
    let h = p(4, 1);
    let i = p(4, 3);
    let j = p(2, 3);

    let outer = ring_of(&[a, b, c, d, e, a]);
    let inner = ring_of(&[g, h, i, j, f, g]);
    let rings = vec![outer.clone(), inner.clone()];

    assert_eq!(
        convert_rings_to_polygons(rings),
        Some(MultiPolygon(vec![Polygon::new(outer, vec![inner])]))
    );
}

#[test]
fn convert_rings_to_polygons3() {
    // a-------b
    // |  i  h |
    // |/ |/ | |
    // e--f--g |
    // d-------c
    let a = p(0, 0);
    let b = p(30, 0);
    let i = p(10, 10);
    let h = p(20, 10);
    let e = p(0, 20);
    let f = p(10, 30);
    let g = p(20, 30);
    let d = p(0, 30);
    let c = p(30, 30);

    let inner1 = ring_of(&[f, g, h, f]);
    let inner2 = ring_of(&[e, f, i, e]);
    let outer = ring_of(&[a, b, c, d, a]);
    let rings = vec![outer.clone(), inner1.clone(), inner2.clone()];
    assert_eq!(
        convert_rings_to_polygons(rings),
        Some(MultiPolygon(vec![Polygon::new(outer, vec![inner1, inner2])]))
    );
}

#[test]
fn distribute_interiors1() {
    let mut none: Vec<Polygon> = Vec::new();
    distribute_interiors(&mut none, Vec::new());
    assert_eq!(none, Vec::new());

    // a-----b
    // | g-h |
    // e f | |
    // | j-i |
    // d-----c
    let a = p(0, 0);
    let b = p(6, 0);
    let c = p(6, 4);
    let d = p(0, 4);

    let unit_square = ring_of(&[a, b, c, d, a]);

    let mut polys = vec![Polygon::new(unit_square.clone(), vec![])];
    distribute_interiors(&mut polys, vec![]);
    assert_eq!(polys, vec![Polygon::new(unit_square.clone(), vec![])]);
}

#[test]
fn distribute_interiors4() {
    // a-----b
    // | g-h |
    // e f | |
    // | j-i |
    // d-----c
    let a = p(0, 0);
    let b = p(6, 0);
    let c = p(6, 4);
    let d = p(0, 4);
    let g = p(2, 1);
    let h = p(4, 1);
    let i = p(4, 3);
    let j = p(2, 3);

    let unit_square = ring_of(&[a, b, c, d, a]);
    let inner_square = ring_of(&[g, h, i, j, g]);

    let mut polys = vec![Polygon::new(unit_square.clone(), vec![])];
    distribute_interiors(&mut polys, vec![inner_square.clone()]);
    assert_eq!(polys, vec![Polygon::new(unit_square.clone(), vec![inner_square.clone()])]);
}

#[test]
fn distribute_interiors5() {
    // a-----b   k---l
    // | g-h |   |   |
    // | | | |   m---n
    // | j-i |
    // d-----c
    let a = p(0, 0);
    let b = p(6, 0);
    let c = p(6, 4);
    let d = p(0, 4);

    let g = p(2, 1);
    let h = p(4, 1);
    let i = p(4, 3);
    let j = p(2, 3);

    let k = p(10, 0);
    let l = p(12, 0);
    let m = p(10, 2);
    let n = p(12, 2);

    let unit_square = ring_of(&[a, b, c, d, a]);
    let inner_square = ring_of(&[g, h, i, j, g]);
    let square_on_right = ring_of(&[k, l, n, m, k]);

    let mut polys = vec![
        Polygon::new(unit_square.clone(), vec![]),
        Polygon::new(square_on_right.clone(), vec![]),
    ];
    distribute_interiors(&mut polys, vec![inner_square.clone()]);
    assert_eq!(
        polys,
        vec![
            Polygon::new(unit_square.clone(), vec![inner_square.clone()]),
            Polygon::new(square_on_right.clone(), vec![]),
        ]
    );
}

#[test]
fn orientation_normalization_rewinds_rings() {
    // an exterior listed counter-clockwise is reversed in place; interior
    // rings are made counter-clockwise
    let ext_ccw = ls(&[(0, 0), (6, 0), (6, 4), (0, 4), (0, 0)]);
    let int_cw = ls(&[(2, 1), (2, 3), (4, 3), (4, 1), (2, 1)]);
    assert!(twice_linestring_area(&ext_ccw) > 0);
    assert!(twice_linestring_area(&int_cw) < 0);

    let mut geom = Geometry::Polygon(Polygon::new(ext_ccw, vec![int_cw]));
    ensure_polygon_orientation(&mut geom);
    match &geom {
        Geometry::Polygon(poly) => {
            assert!(twice_linestring_area(&poly.exterior) < 0);
            assert_eq!(poly.exterior, ls(&[(0, 0), (0, 4), (6, 4), (6, 0), (0, 0)]));
            assert_eq!(poly.interiors.len(), 1);
            assert!(twice_linestring_area(&poly.interiors[0]) > 0);
        },
        _ => unreachable!(),
    }

    // an already clockwise exterior stays untouched
    let ext_cw = ls(&[(0, 0), (0, 4), (6, 4), (6, 0), (0, 0)]);
    let mut geom = Geometry::Polygon(Polygon::new(ext_cw.clone(), vec![]));
    ensure_polygon_orientation(&mut geom);
    match &geom {
        Geometry::Polygon(poly) => {
            assert_eq!(poly.exterior, ext_cw);
        },
        _ => unreachable!(),
    }
}

#[test]
fn duplicate_point_counting() {
    assert_eq!(num_points_excl_duplicates(&ls(&[])), 0);
    assert_eq!(num_points_excl_duplicates(&ls(&[(1, 1)])), 1);
    assert_eq!(num_points_excl_duplicates(&ls(&[(1, 1), (1, 1), (2, 2), (1, 1)])), 3);
    assert_eq!(num_points_excl_duplicates(&ls(&[(0, 0), (0, 0), (0, 0)])), 1);
}

#[test]
fn cheap_validity_skips_the_expensive_scan() {
    // the bowtie passes every structural check; only the edge-pair scan
    // rejects it
    let bowtie = Geometry::Polygon(Polygon::new(
        ls(&[(3045, 3309), (3044, 3308), (3031, 3316), (3039, 3304), (3026, 3314), (3045, 3309)]),
        vec![],
    ));
    assert!(is_valid_skip_expensive(&bowtie));
    assert!(!is_valid(&bowtie));

    // points and multipoints are always valid
    assert!(is_valid(&Geometry::Point(p(3, 4))));
    assert!(is_valid_skip_expensive(&Geometry::MultiPoint(vec![p(0, 0), p(1, 1)])));
}
