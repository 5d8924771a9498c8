//! The repair entry point: turning an invalid geometry into a set of
//! simple, correctly oriented polygons.
//!
//! For every ring of the input, the crossing injector and the ring
//! dissolver alternate until an injector pass adds no point; the fixpoint
//! loop carries an explicit bound — the number of distinct coordinates of
//! the ring — so it provably terminates even on adversarial input. The
//! resulting simple rings are classified and assembled into polygons, the
//! winding is normalized, and any polygon that still fails the full
//! validity check is dropped: repair is best-effort, never a crash.

use vstd::prelude::*;
use crate::geom::{Point, LineString, Polygon, MultiPolygon, MultiLineString, Geometry, GeomView,
    PolyView};
use crate::validity::{is_valid, is_polygon_valid, is_linestring_valid, orient_polygon,
    spec_geometry_valid, spec_polygon_valid, spec_polygons_valid, spec_linestring_valid,
    spec_is_cw};
use crate::cleanup::{remove_unneeded_points, lemma_cleanup_valid_identity};
use crate::inject::{add_points_for_all_crossings, spec_no_insertable};
use crate::dissolve::{dissolve_into_rings, spec_is_simple_ring};
use crate::rings::convert_rings_to_polygons;

verus! {

/// A ring on which repair has nothing left to do: simple, nothing to
/// inject, wound clockwise, and valid as a sole exterior ring.
pub open spec fn spec_clean_ring(r: Seq<Point>) -> bool {
    &&& spec_is_simple_ring(r)
    &&& spec_no_insertable(r)
    &&& spec_is_cw(r)
    &&& spec_polygon_valid(PolyView { exterior: r, interiors: Seq::empty() })
}

/// A working set of exactly one clean ring: the repair base case on which
/// success is owed.
pub open spec fn spec_clean_single_ring(rings: Seq<LineString>) -> bool {
    rings.len() == 1 && spec_clean_ring(rings[0]@)
}

/// The number of distinct coordinate values in the line string.
fn num_distinct_points(ls: &LineString) -> (n: usize)
    ensures
        n <= ls@.len(),
{
    let len = ls.0.len();
    let mut count: usize = 0;
    let mut i: usize = 0;
    while i < len
        invariant
            i <= len,
            len == ls@.len(),
            count <= i,
        decreases len - i,
    {
        let p = ls.0[i];
        let mut seen = false;
        let mut t: usize = 0;
        while t < i
            invariant
                t <= i,
                i < len,
                len == ls@.len(),
            decreases i - t,
        {
            let q = ls.0[t];
            if p.x == q.x && p.y == q.y {
                seen = true;
            }
            t = t + 1;
        }
        if !seen {
            count = count + 1;
        }
        i = i + 1;
    }
    count
}

/// Repairs a flat list of rings into a multipolygon of valid polygons.
/// Every polygon of a returned multipolygon passes the full validity
/// check; an empty ring list yields nothing; and success is owed on the
/// base case: a single ring that is simple, has no crossings left to
/// inject, winds clockwise and passes the full validity check comes back
/// as exactly that one polygon.
pub fn make_rings_valid(rings: Vec<LineString>) -> (r: Option<MultiPolygon>)
    ensures
        r matches Some(mp) ==> spec_polygons_valid(mp@),
        rings@.len() == 0 ==> r is None,
        spec_clean_single_ring(rings@) ==> (r matches Some(mp) && mp@.len() == 1
            && mp@[0].exterior == rings@[0]@ && mp@[0].interiors.len() == 0),
{
    let rcount = rings.len();
    if rcount == 0 {
        return Option::None;
    }
    let ghost special = spec_clean_single_ring(rings@);
    let ghost r0 = rings@[0]@;
    let mut rest = rings;
    let mut new_rings: Vec<LineString> = Vec::new();
    while rest.len() > 0
        invariant
            forall|k: int| 0 <= k < new_rings@.len() ==> (#[trigger] new_rings@[k])@.len() >= 4,
            special ==> spec_clean_ring(r0),
            special ==> (rest@.len() == 1 && rest@[0]@ == r0 && new_rings@.len() == 0) || (
            rest@.len() == 0 && new_rings@.len() == 1 && new_rings@[0]@ == r0),
        decreases rest@.len(),
    {
        let ring = rest.remove(0);
        // alternate the injector and the dissolver until an injector pass
        // adds no point; the pass count is bounded by the number of
        // distinct coordinates in the ring
        let fuel = num_distinct_points(&ring);
        let mut round: usize = 0;
        let mut to_process: Vec<LineString> = Vec::new();
        to_process.push(ring);
        loop
            invariant
                round <= fuel,
                special ==> spec_clean_ring(r0),
                special ==> to_process@.len() == 1 && to_process@[0]@ == r0,
            ensures
                forall|k: int| 0 <= k < to_process@.len() ==> (#[trigger] to_process@[k])@.len()
                    >= 4,
                special ==> to_process@.len() == 1 && to_process@[0]@ == r0,
            decreases fuel - round,
        {
            let mut added = false;
            let pcount = to_process.len();
            let mut k: usize = 0;
            while k < pcount
                invariant
                    k <= pcount,
                    pcount == to_process@.len(),
                    special ==> spec_clean_ring(r0),
                    special ==> to_process@.len() == 1 && to_process@[0]@ == r0 && !added,
                decreases pcount - k,
            {
                proof {
                    if special {
                        assert(spec_no_insertable(to_process@[k as int]@));
                    }
                }
                let before = to_process[k].len();
                add_points_for_all_crossings(&mut to_process[k]);
                proof {
                    if special {
                        assert(to_process@[0]@ =~= r0);
                    }
                }
                if to_process[k].len() != before {
                    added = true;
                }
                k = k + 1;
            }
            let mut next: Vec<LineString> = Vec::new();
            while to_process.len() > 0
                invariant
                    forall|k2: int| 0 <= k2 < next@.len() ==> (#[trigger] next@[k2])@.len() >= 4,
                    special ==> spec_clean_ring(r0),
                    special ==> (to_process@.len() + next@.len() == 1) && (to_process@.len() == 1
                        ==> to_process@[0]@ == r0) && (next@.len() == 1 ==> next@[0]@ == r0),
                decreases to_process@.len(),
            {
                let ghost pre = to_process@;
                let one = to_process.remove(0);
                proof {
                    assert(one == pre[0]);
                    if special {
                        assert(one@ == r0);
                        assert(spec_is_simple_ring(one@));
                    }
                }
                let mut pieces = dissolve_into_rings(one);
                proof {
                    if special {
                        assert(pieces@.len() == 1 && pieces@[0]@ == r0);
                    }
                }
                while pieces.len() > 0
                    invariant
                        forall|k2: int| 0 <= k2 < next@.len() ==> (#[trigger] next@[k2])@.len()
                            >= 4,
                        forall|k2: int| 0 <= k2 < pieces@.len() ==> (#[trigger] pieces@[k2])@.len()
                            >= 4 && pieces@[k2]@[0] == pieces@[k2]@[pieces@[k2]@.len() - 1],
                        special ==> spec_clean_ring(r0),
                        special ==> (pieces@.len() + next@.len() == 1) && (pieces@.len() == 1
                            ==> pieces@[0]@ == r0) && (next@.len() == 1 ==> next@[0]@ == r0),
                    decreases pieces@.len(),
                {
                    let ghost oldp = pieces@;
                    let piece = pieces.remove(0);
                    proof {
                        assert(piece@ == oldp[0]@);
                        assert(forall|k2: int| 0 <= k2 < pieces@.len() ==> pieces@[k2] == oldp[k2
                            + 1]);
                    }
                    next.push(piece);
                }
            }
            core::mem::swap(&mut to_process, &mut next);
            if !added {
                break;
            }
            if round >= fuel {
                break;
            }
            round = round + 1;
        }
        while to_process.len() > 0
            invariant
                forall|k: int| 0 <= k < new_rings@.len() ==> (#[trigger] new_rings@[k])@.len()
                    >= 4,
                special ==> spec_clean_ring(r0),
                special ==> (to_process@.len() + new_rings@.len() == 1) && (to_process@.len()
                    == 1 ==> to_process@[0]@ == r0) && (new_rings@.len() == 1 ==> new_rings@[0]@
                    == r0),
                forall|k: int| 0 <= k < to_process@.len() ==> (#[trigger] to_process@[k])@.len()
                    >= 4,
            decreases to_process@.len(),
        {
            let ghost oldp = to_process@;
            let one = to_process.remove(0);
            proof {
                assert(one@ == oldp[0]@);
                assert(forall|k: int| 0 <= k < to_process@.len() ==> to_process@[k] == oldp[k
                    + 1]);
            }
            new_rings.push(one);
        }
    }

    let converted = convert_rings_to_polygons(new_rings);
    let mp = match converted {
        Option::None => {
            proof {
                assert(!special);
            }
            return Option::None;
        },
        Option::Some(mp) => mp,
    };
    proof {
        if special {
            assert(mp@[0].exterior == r0 && mp@[0].interiors.len() == 0);
        }
    }

    // normalize the winding, then drop any polygon the full validity check
    // still refuses: repair is best-effort
    let MultiPolygon(mut polys) = mp;
    let mut valid_polys: Vec<Polygon> = Vec::new();
    while polys.len() > 0
        invariant
            forall|k: int| 0 <= k < valid_polys@.len() ==> spec_polygon_valid(
                (#[trigger] valid_polys@[k])@,
            ),
            special ==> spec_clean_ring(r0),
            special ==> (polys@.len() + valid_polys@.len() == 1) && (polys@.len() == 1
                ==> polys@[0]@.exterior == r0 && polys@[0]@.interiors.len() == 0) && (
            valid_polys@.len() == 1 ==> valid_polys@[0]@.exterior == r0
                && valid_polys@[0]@.interiors.len() == 0),
        decreases polys@.len(),
    {
        let ghost oldp = polys@;
        let mut p = polys.remove(0);
        proof {
            assert(p@ == oldp[0]@);
        }
        proof {
            if special {
                assert(p@.exterior == r0 && p@.interiors.len() == 0);
                assert(spec_is_cw(r0));
            }
        }
        orient_polygon(&mut p);
        proof {
            if special {
                // the ring already winds clockwise and carries no holes,
                // so normalization leaves the polygon untouched
                assert(p@.exterior == crate::validity::spec_orient_cw(r0));
                assert(p@.exterior == r0);
                assert(p@.interiors.len() == 0);
                assert(p@.interiors =~= Seq::<Seq<Point>>::empty());
                assert(p@ =~= (PolyView { exterior: r0, interiors: Seq::empty() }));
            }
        }
        if is_polygon_valid(&p) {
            valid_polys.push(p);
        } else {
            proof {
                if special {
                    assert(spec_polygon_valid(p@));
                }
                assert(!special);
            }
        }
    }
    let out = MultiPolygon(valid_polys);
    proof {
        assert forall|k: int| 0 <= k < out@.len() implies spec_polygon_valid(
            #[trigger] out@[k],
        ) by {
            assert(out@[k] == out.0@[k]@);
        }
        if special {
            assert(out@.len() == 1 && out@[0].exterior == r0 && out@[0].interiors.len() == 0);
        }
    }
    Option::Some(out)
}

/// Repairs one polygon: its exterior and interior rings are thrown into
/// one working set and rebuilt into valid polygons. A polygon without
/// holes whose exterior is already clean comes back as exactly itself.
pub fn make_polygon_valid(p: Polygon) -> (r: Option<MultiPolygon>)
    ensures
        r matches Some(mp) ==> spec_polygons_valid(mp@),
        (p@.interiors.len() == 0 && spec_clean_ring(p@.exterior)) ==> (r matches Some(mp)
            && mp@.len() == 1 && mp@[0].exterior == p@.exterior && mp@[0].interiors.len() == 0),
{
    let ghost cond = p@.interiors.len() == 0 && spec_clean_ring(p@.exterior);
    let ghost e0 = p@.exterior;
    let Polygon { exterior, interiors } = p;
    let mut rings: Vec<LineString> = Vec::new();
    rings.push(exterior);
    let mut rest = interiors;
    while rest.len() > 0
        invariant
            cond ==> rest@.len() == 0,
            cond ==> rings@.len() == 1 && rings@[0]@ == e0,
        decreases rest@.len(),
    {
        let one = rest.remove(0);
        rings.push(one);
    }
    proof {
        if cond {
            assert(spec_clean_single_ring(rings@));
        }
    }
    make_rings_valid(rings)
}

/// Repairs a multipolygon: the rings of all its polygons are flattened
/// into one working set and rebuilt into valid polygons. A multipolygon of
/// one hole-free polygon whose exterior is already clean comes back as
/// exactly itself.
pub fn make_multipolygon_valid(mp: MultiPolygon) -> (r: Option<MultiPolygon>)
    ensures
        r matches Some(out) ==> spec_polygons_valid(out@),
        (mp@.len() == 1 && mp@[0].interiors.len() == 0 && spec_clean_ring(mp@[0].exterior)) ==> (
        r matches Some(out) && out@.len() == 1 && out@[0].exterior == mp@[0].exterior
            && out@[0].interiors.len() == 0),
{
    let ghost cond = mp@.len() == 1 && mp@[0].interiors.len() == 0 && spec_clean_ring(
        mp@[0].exterior,
    );
    let ghost e0 = if mp@.len() > 0 { mp@[0].exterior } else { Seq::empty() };
    let MultiPolygon(mut polys) = mp;
    let mut rings: Vec<LineString> = Vec::new();
    while polys.len() > 0
        invariant
            cond ==> (polys@.len() == 1 && polys@[0]@.exterior == e0 && polys@[0]@.interiors.len()
                == 0 && rings@.len() == 0) || (polys@.len() == 0 && rings@.len() == 1
                && rings@[0]@ == e0),
        decreases polys@.len(),
    {
        let ghost pre = polys@;
        let p = polys.remove(0);
        proof {
            assert(p == pre[0]);
        }
        let Polygon { exterior, interiors } = p;
        rings.push(exterior);
        let mut rest = interiors;
        while rest.len() > 0
            invariant
                cond ==> rest@.len() == 0,
                cond ==> rings@.len() == 1 && rings@[0]@ == e0,
            decreases rest@.len(),
        {
            let one = rest.remove(0);
            rings.push(one);
        }
    }
    proof {
        if cond {
            assert(spec_clean_single_ring(rings@));
        }
    }
    make_rings_valid(rings)
}

/// Deterministically repairs a geometry into a valid one, or reports that
/// nothing valid could be produced.
///
/// A geometry that is already valid comes back unchanged — same points,
/// same ring order — and one that removing redundant points alone makes
/// valid comes back as exactly that cleaned geometry. A repaired polygon
/// or multipolygon comes back as a multipolygon every polygon of which
/// passes the full validity check; a degenerate line string yields
/// nothing; members of a multi line string that are degenerate are
/// dropped. Points, multipoints and geometry collections pass through
/// untouched.
pub fn make_valid(geom: Geometry) -> (r: Option<Geometry>)
    ensures
        spec_geometry_valid(geom@) ==> (r matches Some(o) && o@ == geom@),
        spec_geometry_valid(crate::cleanup::spec_cleanup_geometry(geom@)) ==> (r matches Some(o)
            && o@ == crate::cleanup::spec_cleanup_geometry(geom@)),
        r matches Some(o) ==> spec_geometry_valid(o@),
        (geom@ matches GeomView::LineString(s) && !spec_linestring_valid(s)) ==> r is None,
        (geom@ matches GeomView::Polygon(p) && !spec_geometry_valid(
            crate::cleanup::spec_cleanup_geometry(geom@),
        )) ==> (r is None || (r matches Some(o) && o@ matches GeomView::MultiPolygon(ps))),
        (geom@ matches GeomView::MultiPolygon(q) && !spec_geometry_valid(
            crate::cleanup::spec_cleanup_geometry(geom@),
        )) ==> (r is None || (r matches Some(o) && o@ matches GeomView::MultiPolygon(ps))),
{
    let ghost orig = geom@;
    proof {
        if spec_geometry_valid(orig) {
            lemma_cleanup_valid_identity(orig);
        }
    }
    let cleaned = remove_unneeded_points(geom);
    if is_valid(&cleaned) {
        return Option::Some(cleaned);
    }
    match cleaned {
        Geometry::Polygon(p) => {
            match make_polygon_valid(p) {
                Option::Some(mp) => Option::Some(Geometry::MultiPolygon(mp)),
                Option::None => Option::None,
            }
        },
        Geometry::MultiPolygon(mp) => {
            match make_multipolygon_valid(mp) {
                Option::Some(out) => Option::Some(Geometry::MultiPolygon(out)),
                Option::None => Option::None,
            }
        },
        Geometry::LineString(ls) => {
            if is_linestring_valid(&ls) {
                Option::Some(Geometry::LineString(ls))
            } else {
                Option::None
            }
        },
        Geometry::MultiLineString(mls) => {
            let MultiLineString(mut members) = mls;
            let mut kept: Vec<LineString> = Vec::new();
            while members.len() > 0
                invariant
                    forall|k: int| 0 <= k < kept@.len() ==> spec_linestring_valid(
                        (#[trigger] kept@[k])@,
                    ),
                decreases members@.len(),
            {
                let one = members.remove(0);
                if is_linestring_valid(&one) {
                    kept.push(one);
                }
            }
            if kept.len() == 0 {
                Option::None
            } else {
                let out = MultiLineString(kept);
                proof {
                    assert forall|k: int| 0 <= k < out@.len() implies spec_linestring_valid(
                        #[trigger] out@[k],
                    ) by {
                        assert(out@[k] == out.0@[k]@);
                    }
                }
                Option::Some(Geometry::MultiLineString(out))
            }
        },
        x => Option::Some(x),
    }
}

} // verus!
