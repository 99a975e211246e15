//! The geometry value of SurrealQL: GeoJSON-like points, lines, polygons,
//! their multi- forms and collections.
//!
//! A geometry is generic in what stands for a coordinate pair: `Coord`, the
//! binary64 patterns of the two coordinates, for comparing; `CoordText`, their
//! texts, for reading and writing the SurrealQL form.
use vstd::prelude::*;

verus! {

/// A coordinate pair by the binary64 patterns of `x` and `y`.
#[derive(Clone, Copy, Debug, PartialEq, Eq)]
pub struct Coord {
    pub x: u64,
    pub y: u64,
}

/// A coordinate pair by the texts of `x` and `y` (as binary64 `Display`
/// writes them, or as they stand in a query).
#[derive(Clone, Debug)]
pub struct CoordText {
    pub x: String,
    pub y: String,
}

/// A polygon: an exterior ring and interior rings (holes).
#[derive(Clone, Debug)]
pub struct Polygon<C> {
    pub exterior: Vec<C>,
    pub interiors: Vec<Vec<C>>,
}

/// A geometry.
#[derive(Debug)]
pub enum Geometry<C> {
    Point(C),
    Line(Vec<C>),
    Polygon(Polygon<C>),
    MultiPoint(Vec<C>),
    MultiLine(Vec<Vec<C>>),
    MultiPolygon(Vec<Polygon<C>>),
    Collection(Vec<Geometry<C>>),
}

/// The position of a kind of geometry in the order of kinds: point, line,
/// polygon, multi-point, multi-line, multi-polygon, collection.
pub open spec fn kind_rank<C>(g: Geometry<C>) -> int {
    match g {
        Geometry::Point(_) => 0,
        Geometry::Line(_) => 1,
        Geometry::Polygon(_) => 2,
        Geometry::MultiPoint(_) => 3,
        Geometry::MultiLine(_) => 4,
        Geometry::MultiPolygon(_) => 5,
        Geometry::Collection(_) => 6,
    }
}

impl<C> Geometry<C> {
    /// Check if this is a Point
    pub fn is_point(&self) -> (r: bool)
        ensures
            r == (*self is Point),
    {
        matches!(self, Geometry::Point(_))
    }

    /// Check if this is a Line
    pub fn is_line(&self) -> (r: bool)
        ensures
            r == (*self is Line),
    {
        matches!(self, Geometry::Line(_))
    }

    /// Check if this is a Polygon
    pub fn is_polygon(&self) -> (r: bool)
        ensures
            r == (*self is Polygon),
    {
        matches!(self, Geometry::Polygon(_))
    }

    /// Check if this is a MultiPoint
    pub fn is_multipoint(&self) -> (r: bool)
        ensures
            r == (*self is MultiPoint),
    {
        matches!(self, Geometry::MultiPoint(_))
    }

    /// Check if this is a MultiLine
    pub fn is_multiline(&self) -> (r: bool)
        ensures
            r == (*self is MultiLine),
    {
        matches!(self, Geometry::MultiLine(_))
    }

    /// Check if this is a MultiPolygon
    pub fn is_multipolygon(&self) -> (r: bool)
        ensures
            r == (*self is MultiPolygon),
    {
        matches!(self, Geometry::MultiPolygon(_))
    }

    /// Check if this is not a Collection
    pub fn is_geometry(&self) -> (r: bool)
        ensures
            r == !(*self is Collection),
    {
        !matches!(self, Geometry::Collection(_))
    }

    /// Check if this is a Collection
    pub fn is_collection(&self) -> (r: bool)
        ensures
            r == (*self is Collection),
    {
        matches!(self, Geometry::Collection(_))
    }

    /// Get the type of this Geometry as text
    pub fn as_type(&self) -> (r: &'static str)
        ensures
            r@ == match *self {
                Geometry::Point(_) => "Point"@,
                Geometry::Line(_) => "LineString"@,
                Geometry::Polygon(_) => "Polygon"@,
                Geometry::MultiPoint(_) => "MultiPoint"@,
                Geometry::MultiLine(_) => "MultiLineString"@,
                Geometry::MultiPolygon(_) => "MultiPolygon"@,
                Geometry::Collection(_) => "GeometryCollection"@,
            },
    {
        match self {
            Geometry::Point(_) => "Point",
            Geometry::Line(_) => "LineString",
            Geometry::Polygon(_) => "Polygon",
            Geometry::MultiPoint(_) => "MultiPoint",
            Geometry::MultiLine(_) => "MultiLineString",
            Geometry::MultiPolygon(_) => "MultiPolygon",
            Geometry::Collection(_) => "GeometryCollection",
        }
    }
}

} // verus!
