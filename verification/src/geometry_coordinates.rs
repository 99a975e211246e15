//! The raw coordinates of a geometry, as nested lists of pairs.
use crate::geometry::{Geometry, Polygon};
use vstd::prelude::*;

verus! {

/// Coordinates as nested lists: a pair, or a list of coordinates.
#[derive(Debug)]
pub enum Coordinates<C> {
    Pair(C),
    List(Vec<Coordinates<C>>),
}

/// `r` is the list of the pairs `cs`, in order.
pub open spec fn lists_pairs<C>(r: Coordinates<C>, cs: Seq<C>) -> bool {
    &&& r is List
    &&& r->List_0@.len() == cs.len()
    &&& forall|i: int| 0 <= i < cs.len() ==> #[trigger] r->List_0@[i] == Coordinates::Pair(cs[i])
}

/// `r` is the list of the rings `rs`, each as the list of its pairs.
pub open spec fn lists_rings<C>(r: Coordinates<C>, rs: Seq<Vec<C>>) -> bool {
    &&& r is List
    &&& r->List_0@.len() == rs.len()
    &&& forall|i: int| 0 <= i < rs.len() ==> lists_pairs(#[trigger] r->List_0@[i], rs[i]@)
}

/// The rings of a polygon: the exterior, then the interiors.
pub open spec fn rings_of<C>(p: Polygon<C>) -> Seq<Vec<C>> {
    seq![p.exterior] + p.interiors@
}

/// `r` is the list of the polygons `ps`, each as the list of its rings.
pub open spec fn lists_polygons<C>(r: Coordinates<C>, ps: Seq<Polygon<C>>) -> bool {
    &&& r is List
    &&& r->List_0@.len() == ps.len()
    &&& forall|i: int| 0 <= i < ps.len() ==> lists_rings(#[trigger] r->List_0@[i], rings_of(ps[i]))
}

/// `r` is the coordinates of `g` (`as_coordinates`): a point as its pair; a
/// line and a multi-point as the list of their pairs; a polygon as the list of
/// its rings, the exterior first; a multi-line as the list of its lines; a
/// multi-polygon as the list of its polygons; a collection as the list of its
/// members' coordinates.
pub open spec fn coordinates_of<C>(r: Coordinates<C>, g: Geometry<C>) -> bool
    decreases g,
{
    match g {
        Geometry::Point(c) => r == Coordinates::Pair(c),
        Geometry::Line(v) => lists_pairs(r, v@),
        Geometry::Polygon(p) => lists_rings(r, rings_of(p)),
        Geometry::MultiPoint(v) => lists_pairs(r, v@),
        Geometry::MultiLine(v) => lists_rings(r, v@),
        Geometry::MultiPolygon(v) => lists_polygons(r, v@),
        Geometry::Collection(v) => r is List && all_coordinates_of(r->List_0@, v@),
    }
}

/// Each of `rs` is the coordinates of the geometry at its place in `gs`.
pub open spec fn all_coordinates_of<C>(rs: Seq<Coordinates<C>>, gs: Seq<Geometry<C>>) -> bool
    decreases gs,
{
    if gs.len() == 0 {
        rs.len() == 0
    } else {
        &&& rs.len() == gs.len()
        &&& all_coordinates_of(rs.drop_last(), gs.drop_last())
        &&& coordinates_of(rs.last(), gs.last())
    }
}

fn pairs<C: Copy>(cs: &Vec<C>) -> (r: Coordinates<C>)
    ensures
        lists_pairs(r, cs@),
{
    let mut out: Vec<Coordinates<C>> = Vec::new();
    let mut i: usize = 0;
    while i < cs.len()
        invariant
            i <= cs@.len(),
            out@.len() == i,
            forall|k: int| 0 <= k < i ==> #[trigger] out@[k] == Coordinates::Pair(cs@[k]),
        decreases cs@.len() - i,
    {
        out.push(Coordinates::Pair(cs[i]));
        i = i + 1;
    }
    Coordinates::List(out)
}

fn rings<C: Copy>(first: Option<&Vec<C>>, rs: &Vec<Vec<C>>) -> (r: Coordinates<C>)
    ensures
        lists_rings(
            r,
            match first {
                Some(e) => seq![*e] + rs@,
                None => rs@,
            },
        ),
{
    let ghost all = match first {
        Some(e) => seq![*e] + rs@,
        None => rs@,
    };
    let mut out: Vec<Coordinates<C>> = Vec::new();
    let skip: usize = match first {
        Some(e) => {
            out.push(pairs(e));
            1
        },
        None => 0,
    };
    let mut i: usize = 0;
    while i < rs.len()
        invariant
            i <= rs@.len(),
            skip <= 1,
            all.len() == rs@.len() + skip,
            forall|k: int| 0 <= k < rs@.len() ==> all[k + skip] == rs@[k],
            out@.len() == i + skip,
            forall|k: int| 0 <= k < i + skip ==> lists_pairs(#[trigger] out@[k], all[k]@),
        decreases rs@.len() - i,
    {
        out.push(pairs(&rs[i]));
        i = i + 1;
    }
    Coordinates::List(out)
}

fn polygons<C: Copy>(ps: &Vec<Polygon<C>>) -> (r: Coordinates<C>)
    ensures
        lists_polygons(r, ps@),
{
    let mut out: Vec<Coordinates<C>> = Vec::new();
    let mut i: usize = 0;
    while i < ps.len()
        invariant
            i <= ps@.len(),
            out@.len() == i,
            forall|k: int| 0 <= k < i ==> lists_rings(#[trigger] out@[k], rings_of(ps@[k])),
        decreases ps@.len() - i,
    {
        out.push(rings(Some(&ps[i].exterior), &ps[i].interiors));
        i = i + 1;
    }
    Coordinates::List(out)
}

fn coordinates_of_geometry<C: Copy>(g: &Geometry<C>) -> (r: Coordinates<C>)
    ensures
        coordinates_of(r, *g),
    decreases g,
{
    match g {
        Geometry::Point(c) => Coordinates::Pair(*c),
        Geometry::Line(v) => pairs(v),
        Geometry::Polygon(p) => rings(Some(&p.exterior), &p.interiors),
        Geometry::MultiPoint(v) => pairs(v),
        Geometry::MultiLine(v) => rings(None, v),
        Geometry::MultiPolygon(v) => polygons(v),
        Geometry::Collection(v) => {
            let mut out: Vec<Coordinates<C>> = Vec::new();
            let mut i: usize = 0;
            while i < v.len()
                invariant
                    i <= v@.len(),
                    *g == Geometry::Collection(*v),
                    all_coordinates_of(out@, v@.take(i as int)),
                decreases v@.len() - i,
            {
                proof {
                    assert(decreases_to!(*g => (*g)->Collection_0));
                    assert(decreases_to!(*v => v@));
                    assert(decreases_to!(v@ => v@[i as int]));
                }
                let c = coordinates_of_geometry(&v[i]);
                let ghost before = out@;
                out.push(c);
                proof {
                    assert(v@.take(i + 1).drop_last() =~= v@.take(i as int));
                    assert(out@.drop_last() =~= before);
                }
                i = i + 1;
            }
            proof {
                assert(v@.take(v@.len() as int) =~= v@);
            }
            Coordinates::List(out)
        },
    }
}

impl<C: Copy> Geometry<C> {
    /// The raw coordinates of the geometry, as nested lists of pairs.
    pub fn as_coordinates(&self) -> (r: Coordinates<C>)
        ensures
            coordinates_of(r, *self),
    {
        coordinates_of_geometry(self)
    }
}

} // verus!
