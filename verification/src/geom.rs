//! Geometry data model: exact integer coordinates in tile-local space.
//!
//! Points carry 32-bit signed coordinates; equality and ordering are exact,
//! no tolerance is ever used. A closed line string (first point equals last
//! point) is a ring. A polygon is one exterior ring plus interior rings
//! (holes). Contracts speak about these types through their views: a line
//! string is seen as a `Seq<Point>`, a polygon as a pair of point sequences.

use vstd::prelude::*;

verus! {

/// A point in tile-local space.
#[derive(Clone, Copy, PartialEq, Eq, Structural, Debug, Hash)]
pub struct Point {
    pub x: i32,
    pub y: i32,
}

impl Point {
    pub fn new(x: i32, y: i32) -> (p: Point)
        ensures
            p == (Point { x, y }),
    {
        Point { x, y }
    }

    pub fn x(&self) -> (r: i32)
        ensures
            r == self.x,
    {
        self.x
    }

    pub fn y(&self) -> (r: i32)
        ensures
            r == self.y,
    {
        self.y
    }
}

/// The point occurs somewhere in the sequence.
pub open spec fn spec_point_among(p: Point, s: Seq<Point>) -> bool {
    exists|u: int| 0 <= u < s.len() && s[u] == p
}

/// An ordered sequence of points; closed (first equals last) when it is a ring.
#[derive(Clone, PartialEq, Eq, Debug)]
pub struct LineString(pub Vec<Point>);

impl View for LineString {
    type V = Seq<Point>;

    open spec fn view(&self) -> Seq<Point> {
        self.0@
    }
}

impl LineString {
    pub fn len(&self) -> (n: usize)
        ensures
            n == self@.len(),
    {
        self.0.len()
    }

    /// A copy whose view equals this line string's view.
    pub fn duplicate(&self) -> (r: LineString)
        ensures
            r@ == self@,
    {
        let n = self.0.len();
        let mut v: Vec<Point> = Vec::new();
        let mut i: usize = 0;
        while i < n
            invariant
                i <= n,
                n == self@.len(),
                v@ == self@.take(i as int),
            decreases n - i,
        {
            v.push(self.0[i]);
            proof {
                assert(v@ =~= self@.take(i + 1));
            }
            i = i + 1;
        }
        proof {
            assert(self@.take(n as int) =~= self@);
        }
        LineString(v)
    }

    /// Reverses the order of the points in place.
    pub fn reverse(&mut self)
        ensures
            final(self)@ == old(self)@.reverse(),
    {
        let n = self.0.len();
        let mut v: Vec<Point> = Vec::new();
        let mut i: usize = 0;
        while i < n
            invariant
                i <= n,
                n == old(self)@.len(),
                self@ == old(self)@,
                v@.len() == i,
                forall|k: int| 0 <= k < i ==> v@[k] == old(self)@[n - 1 - k],
            decreases n - i,
        {
            v.push(self.0[n - 1 - i]);
            i = i + 1;
        }
        self.0 = v;
        proof {
            assert(self@ =~= old(self)@.reverse());
        }
    }
}

/// The mathematical value of a polygon: its exterior ring and interior rings.
pub ghost struct PolyView {
    pub exterior: Seq<Point>,
    pub interiors: Seq<Seq<Point>>,
}

/// One exterior ring plus a set of interior rings (holes).
#[derive(Clone, PartialEq, Eq, Debug)]
pub struct Polygon {
    pub exterior: LineString,
    pub interiors: Vec<LineString>,
}

impl View for Polygon {
    type V = PolyView;

    open spec fn view(&self) -> PolyView {
        PolyView {
            exterior: self.exterior@,
            interiors: Seq::new(self.interiors@.len(), |i: int| self.interiors@[i]@),
        }
    }
}

impl Polygon {
    pub fn new(exterior: LineString, interiors: Vec<LineString>) -> (p: Polygon)
        ensures
            p@.exterior == exterior@,
            p@.interiors == Seq::new(interiors@.len(), |i: int| interiors@[i]@),
    {
        Polygon { exterior, interiors }
    }

    /// A copy whose view equals this polygon's view.
    pub fn duplicate(&self) -> (r: Polygon)
        ensures
            r@ == self@,
    {
        let exterior = self.exterior.duplicate();
        let m = self.interiors.len();
        let mut interiors: Vec<LineString> = Vec::new();
        let mut k: usize = 0;
        while k < m
            invariant
                k <= m,
                m == self.interiors@.len(),
                exterior@ == self@.exterior,
                interiors@.len() == k,
                forall|t: int| 0 <= t < k ==> #[trigger] interiors@[t]@ == self@.interiors[t],
            decreases m - k,
        {
            interiors.push(self.interiors[k].duplicate());
            k = k + 1;
        }
        let r = Polygon { exterior, interiors };
        proof {
            assert(r@.interiors =~= self@.interiors);
        }
        r
    }
}

/// An ordered collection of polygons; the order is not semantically significant.
#[derive(Clone, PartialEq, Eq, Debug)]
pub struct MultiPolygon(pub Vec<Polygon>);

impl View for MultiPolygon {
    type V = Seq<PolyView>;

    open spec fn view(&self) -> Seq<PolyView> {
        Seq::new(self.0@.len(), |i: int| self.0@[i]@)
    }
}

/// An ordered collection of line strings.
#[derive(Clone, PartialEq, Eq, Debug)]
pub struct MultiLineString(pub Vec<LineString>);

impl View for MultiLineString {
    type V = Seq<Seq<Point>>;

    open spec fn view(&self) -> Seq<Seq<Point>> {
        Seq::new(self.0@.len(), |i: int| self.0@[i]@)
    }
}

/// Any geometry over 32-bit signed integer coordinates in tile-local space.
#[derive(PartialEq, Eq, Debug)]
pub enum Geometry {
    Point(Point),
    MultiPoint(Vec<Point>),
    LineString(LineString),
    MultiLineString(MultiLineString),
    Polygon(Polygon),
    MultiPolygon(MultiPolygon),
    GeometryCollection(Vec<Geometry>),
}

/// The mathematical value of a geometry. Geometry collections are carried
/// through the repair pipeline untouched, so their members are kept as-is.
pub ghost enum GeomView {
    Point(Point),
    MultiPoint(Seq<Point>),
    LineString(Seq<Point>),
    MultiLineString(Seq<Seq<Point>>),
    Polygon(PolyView),
    MultiPolygon(Seq<PolyView>),
    GeometryCollection(Seq<Geometry>),
}

impl View for Geometry {
    type V = GeomView;

    open spec fn view(&self) -> GeomView {
        match self {
            Geometry::Point(p) => GeomView::Point(*p),
            Geometry::MultiPoint(v) => GeomView::MultiPoint(v@),
            Geometry::LineString(ls) => GeomView::LineString(ls@),
            Geometry::MultiLineString(m) => GeomView::MultiLineString(m@),
            Geometry::Polygon(p) => GeomView::Polygon(p@),
            Geometry::MultiPolygon(m) => GeomView::MultiPolygon(m@),
            Geometry::GeometryCollection(gs) => GeomView::GeometryCollection(gs@),
        }
    }
}

} // verus!
