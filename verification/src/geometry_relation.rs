//! How the spatial predicates `contains` and `intersects` decide for a pair of
//! geometries, by their kinds: the `geo` predicate on the pair, on the parts
//! of a multi-geometry, or the predicate again on the members of a
//! collection.
use crate::geometry::{kind_rank, Geometry};
use vstd::prelude::*;

verus! {

/// How a spatial predicate decides for a pair of geometries.
#[derive(Clone, Copy, Debug, PartialEq, Eq)]
pub enum Relation {
    /// The `geo` predicate on the two geometries.
    Direct,
    /// The `geo` predicate holds between the first and every part of the
    /// second (a multi-geometry).
    EveryPart,
    /// The `geo` predicate holds between the first and some part of the
    /// second (a multi-geometry).
    SomePart,
    /// The second (a multi-geometry) contains, by `geo`, every one of its own
    /// parts.
    PartsInOwnWhole,
    /// The predicate holds between the first and every member of the second
    /// (a collection).
    EveryOtherMember,
    /// The predicate holds between every member of the first (a collection)
    /// and the second.
    EveryOwnMember,
    /// The predicate does not hold.
    Never,
}

/// How `contains` decides for a geometry of kind `a` and one of kind `b`
/// (kinds by `kind_rank`): a collection by its own members, then against a
/// collection by its members; a point contains points and the parts of a
/// multi-point; a line points and lines; a polygon points, lines and
/// polygons; a multi-point points; a multi-line points and lines; a
/// multi-polygon anything. A line against a multi-line, a polygon against a
/// multi-polygon, a multi-point against a multi-point and a multi-line
/// against a multi-line ask whether the second contains its own parts.
/// Anything else never holds.
pub open spec fn contains_rule(a: int, b: int) -> Relation {
    if a == 6 {
        Relation::EveryOwnMember
    } else if b == 6 {
        Relation::EveryOtherMember
    } else if a == 0 {
        if b == 0 {
            Relation::Direct
        } else if b == 3 {
            Relation::EveryPart
        } else {
            Relation::Never
        }
    } else if a == 1 {
        if b == 0 || b == 1 {
            Relation::Direct
        } else if b == 4 {
            Relation::PartsInOwnWhole
        } else {
            Relation::Never
        }
    } else if a == 2 {
        if b == 0 || b == 1 || b == 2 {
            Relation::Direct
        } else if b == 5 {
            Relation::PartsInOwnWhole
        } else {
            Relation::Never
        }
    } else if a == 3 {
        if b == 0 {
            Relation::Direct
        } else if b == 3 {
            Relation::PartsInOwnWhole
        } else {
            Relation::Never
        }
    } else if a == 4 {
        if b == 0 || b == 1 {
            Relation::Direct
        } else if b == 4 {
            Relation::PartsInOwnWhole
        } else {
            Relation::Never
        }
    } else {
        Relation::Direct
    }
}

/// How `intersects` decides for a geometry of kind `a` and one of kind `b`: a
/// collection by its own members, then against a collection by its members;
/// a point, line, multi-point or multi-line against a multi-line by its
/// parts (some part intersecting); everything else by `geo` directly.
pub open spec fn intersects_rule(a: int, b: int) -> Relation {
    if a == 6 {
        Relation::EveryOwnMember
    } else if b == 6 {
        Relation::EveryOtherMember
    } else if b == 4 && (a == 0 || a == 1 || a == 3 || a == 4) {
        Relation::SomePart
    } else {
        Relation::Direct
    }
}

/// The kind rank of a geometry, computed.
fn rank<C>(g: &Geometry<C>) -> (r: u8)
    ensures
        r as int == kind_rank(*g),
{
    match g {
        Geometry::Point(_) => 0,
        Geometry::Line(_) => 1,
        Geometry::Polygon(_) => 2,
        Geometry::MultiPoint(_) => 3,
        Geometry::MultiLine(_) => 4,
        Geometry::MultiPolygon(_) => 5,
        Geometry::Collection(_) => 6,
    }
}

impl<C> Geometry<C> {
    /// How `self.contains(other)` decides.
    pub fn contains_relation<D>(&self, other: &Geometry<D>) -> (r: Relation)
        ensures
            r == contains_rule(kind_rank(*self), kind_rank(*other)),
            *self is Collection ==> r == Relation::EveryOwnMember,
            !(*self is Collection) && *other is Collection ==> r == Relation::EveryOtherMember,
            *self is Point ==> (*other is Point ==> r == Relation::Direct) && (*other is MultiPoint
                ==> r == Relation::EveryPart) && (*other is Line || *other is Polygon
                || *other is MultiLine || *other is MultiPolygon ==> r == Relation::Never),
            *self is Line ==> (*other is Point || *other is Line ==> r == Relation::Direct) && (
            *other is MultiLine ==> r == Relation::PartsInOwnWhole) && (*other is Polygon
                || *other is MultiPoint || *other is MultiPolygon ==> r == Relation::Never),
            *self is Polygon ==> (*other is Point || *other is Line || *other is Polygon ==> r
                == Relation::Direct) && (*other is MultiPolygon ==> r == Relation::PartsInOwnWhole) && (
            *other is MultiPoint || *other is MultiLine ==> r == Relation::Never),
            *self is MultiPoint ==> (*other is Point ==> r == Relation::Direct) && (*other is MultiPoint
                ==> r == Relation::PartsInOwnWhole) && (*other is Line || *other is Polygon
                || *other is MultiLine || *other is MultiPolygon ==> r == Relation::Never),
            *self is MultiLine ==> (*other is Point || *other is Line ==> r == Relation::Direct) && (
            *other is MultiLine ==> r == Relation::PartsInOwnWhole) && (*other is Polygon
                || *other is MultiPoint || *other is MultiPolygon ==> r == Relation::Never),
            *self is MultiPolygon && !(*other is Collection) ==> r == Relation::Direct,
    {
        let a = rank(self);
        let b = rank(other);
        if a == 6 {
            Relation::EveryOwnMember
        } else if b == 6 {
            Relation::EveryOtherMember
        } else if a == 0 {
            if b == 0 {
                Relation::Direct
            } else if b == 3 {
                Relation::EveryPart
            } else {
                Relation::Never
            }
        } else if a == 5 {
            Relation::Direct
        } else if (a == 1 && b == 4) || (a == 2 && b == 5) || (a == 3 && b == 3) || (a == 4 && b
            == 4) {
            Relation::PartsInOwnWhole
        } else if b == 0 || (b == 1 && a != 3) || (b == 2 && a == 2) {
            Relation::Direct
        } else {
            Relation::Never
        }
    }

    /// How `self.intersects(other)` decides.
    pub fn intersects_relation<D>(&self, other: &Geometry<D>) -> (r: Relation)
        ensures
            r == intersects_rule(kind_rank(*self), kind_rank(*other)),
            *self is Collection ==> r == Relation::EveryOwnMember,
            !(*self is Collection) && *other is Collection ==> r == Relation::EveryOtherMember,
            (*self is Point || *self is Line || *self is MultiPoint || *self is MultiLine)
                && *other is MultiLine ==> r == Relation::SomePart,
            (*self is Polygon || *self is MultiPolygon) && *other is MultiLine ==> r == Relation::Direct,
            !(*self is Collection) && !(*other is Collection) && !(*other is MultiLine) ==> r
                == Relation::Direct,
    {
        let a = rank(self);
        let b = rank(other);
        if a == 6 {
            Relation::EveryOwnMember
        } else if b == 6 {
            Relation::EveryOtherMember
        } else if b == 4 && a != 2 && a != 5 {
            Relation::SomePart
        } else {
            Relation::Direct
        }
    }
}

} // verus!
