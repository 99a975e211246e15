//! What the `Hash` of a number or a geometry feeds to the hasher, in order.
//! The hasher itself is the caller's.
use crate::decimal::Dec;
use crate::geometry::{Coord, Geometry, Polygon};
use crate::number::Number;
use vstd::prelude::*;

verus! {

/// One value fed to a hasher.
#[derive(Clone, Copy, Debug)]
pub enum HashPart {
    /// A kind's name, hashed as a `str`.
    Tag(&'static str),
    /// A binary64 pattern, hashed as a `u64`.
    Bits(u64),
    /// An integer, hashed as an `i64`.
    Int(i64),
    /// A decimal, hashed by `rust_decimal`'s `Hash`.
    Decimal(Dec),
}

/// What a number feeds: an integer itself, a float its pattern, a decimal
/// itself.
pub open spec fn number_feed(n: Number) -> Seq<HashPart> {
    match n {
        Number::Int(v) => seq![HashPart::Int(v)],
        Number::Float(b) => seq![HashPart::Bits(b)],
        Number::Decimal(d) => seq![HashPart::Decimal(d)],
    }
}

/// The patterns of the pairs, `x` then `y` of each, in order.
pub open spec fn pairs_feed(cs: Seq<Coord>) -> Seq<HashPart>
    decreases cs.len(),
{
    if cs.len() == 0 {
        Seq::empty()
    } else {
        pairs_feed(cs.drop_last()) + seq![HashPart::Bits(cs.last().x), HashPart::Bits(cs.last().y)]
    }
}

/// The pairs of each ring, ring after ring.
pub open spec fn rings_feed(rs: Seq<Vec<Coord>>) -> Seq<HashPart>
    decreases rs.len(),
{
    if rs.len() == 0 {
        Seq::empty()
    } else {
        rings_feed(rs.drop_last()) + pairs_feed(rs.last()@)
    }
}

/// The pairs of the exterior, then those of the interiors.
pub open spec fn polygon_feed(p: Polygon<Coord>) -> Seq<HashPart> {
    pairs_feed(p.exterior@) + rings_feed(p.interiors@)
}

/// Polygon after polygon.
pub open spec fn polygons_feed(ps: Seq<Polygon<Coord>>) -> Seq<HashPart>
    decreases ps.len(),
{
    if ps.len() == 0 {
        Seq::empty()
    } else {
        polygons_feed(ps.drop_last()) + polygon_feed(ps.last())
    }
}

/// What a geometry feeds: the name of its kind (`Point`, `Line`, `Polygon`,
/// `MultiPoint`, `MultiLine`, `MultiPolygon`, `GeometryCollection`), then the
/// patterns of its pairs in order (a polygon's exterior before its
/// interiors), or for a collection what each member feeds.
pub open spec fn hash_feed(g: Geometry<Coord>) -> Seq<HashPart>
    decreases g,
{
    match g {
        Geometry::Point(c) => seq![HashPart::Tag("Point"), HashPart::Bits(c.x), HashPart::Bits(c.y)],
        Geometry::Line(v) => seq![HashPart::Tag("Line")] + pairs_feed(v@),
        Geometry::Polygon(p) => seq![HashPart::Tag("Polygon")] + polygon_feed(p),
        Geometry::MultiPoint(v) => seq![HashPart::Tag("MultiPoint")] + pairs_feed(v@),
        Geometry::MultiLine(v) => seq![HashPart::Tag("MultiLine")] + rings_feed(v@),
        Geometry::MultiPolygon(v) => seq![HashPart::Tag("MultiPolygon")] + polygons_feed(v@),
        Geometry::Collection(v) => seq![HashPart::Tag("GeometryCollection")] + members_feed(v@),
    }
}

/// What each member feeds, member after member.
pub open spec fn members_feed(gs: Seq<Geometry<Coord>>) -> Seq<HashPart>
    decreases gs,
{
    if gs.len() == 0 {
        Seq::empty()
    } else {
        members_feed(gs.drop_last()) + hash_feed(gs.last())
    }
}

fn feed_pairs(out: &mut Vec<HashPart>, cs: &Vec<Coord>)
    ensures
        final(out)@ == old(out)@ + pairs_feed(cs@),
{
    let ghost start = out@;
    let mut i: usize = 0;
    while i < cs.len()
        invariant
            i <= cs@.len(),
            out@ == start + pairs_feed(cs@.take(i as int)),
        decreases cs@.len() - i,
    {
        proof {
            assert(cs@.take(i + 1).drop_last() =~= cs@.take(i as int));
        }
        out.push(HashPart::Bits(cs[i].x));
        out.push(HashPart::Bits(cs[i].y));
        proof {
            assert(out@ =~= start + pairs_feed(cs@.take(i + 1)));
        }
        i = i + 1;
    }
    proof {
        assert(cs@.take(cs@.len() as int) =~= cs@);
    }
}

fn feed_rings(out: &mut Vec<HashPart>, rs: &Vec<Vec<Coord>>)
    ensures
        final(out)@ == old(out)@ + rings_feed(rs@),
{
    let ghost start = out@;
    let mut i: usize = 0;
    while i < rs.len()
        invariant
            i <= rs@.len(),
            out@ == start + rings_feed(rs@.take(i as int)),
        decreases rs@.len() - i,
    {
        proof {
            assert(rs@.take(i + 1).drop_last() =~= rs@.take(i as int));
        }
        feed_pairs(out, &rs[i]);
        proof {
            assert(out@ =~= start + rings_feed(rs@.take(i + 1)));
        }
        i = i + 1;
    }
    proof {
        assert(rs@.take(rs@.len() as int) =~= rs@);
    }
}

fn feed_polygon(out: &mut Vec<HashPart>, p: &Polygon<Coord>)
    ensures
        final(out)@ == old(out)@ + polygon_feed(*p),
{
    let ghost start = out@;
    feed_pairs(out, &p.exterior);
    feed_rings(out, &p.interiors);
    proof {
        assert(out@ =~= start + polygon_feed(*p));
    }
}

fn feed_polygons(out: &mut Vec<HashPart>, ps: &Vec<Polygon<Coord>>)
    ensures
        final(out)@ == old(out)@ + polygons_feed(ps@),
{
    let ghost start = out@;
    let mut i: usize = 0;
    while i < ps.len()
        invariant
            i <= ps@.len(),
            out@ == start + polygons_feed(ps@.take(i as int)),
        decreases ps@.len() - i,
    {
        proof {
            assert(ps@.take(i + 1).drop_last() =~= ps@.take(i as int));
        }
        feed_polygon(out, &ps[i]);
        proof {
            assert(out@ =~= start + polygons_feed(ps@.take(i + 1)));
        }
        i = i + 1;
    }
    proof {
        assert(ps@.take(ps@.len() as int) =~= ps@);
    }
}

fn feed_geometry(out: &mut Vec<HashPart>, g: &Geometry<Coord>)
    ensures
        final(out)@ == old(out)@ + hash_feed(*g),
    decreases g,
{
    let ghost start = out@;
    match g {
        Geometry::Point(c) => {
            out.push(HashPart::Tag("Point"));
            out.push(HashPart::Bits(c.x));
            out.push(HashPart::Bits(c.y));
        },
        Geometry::Line(v) => {
            out.push(HashPart::Tag("Line"));
            feed_pairs(out, v);
        },
        Geometry::Polygon(p) => {
            out.push(HashPart::Tag("Polygon"));
            feed_polygon(out, p);
        },
        Geometry::MultiPoint(v) => {
            out.push(HashPart::Tag("MultiPoint"));
            feed_pairs(out, v);
        },
        Geometry::MultiLine(v) => {
            out.push(HashPart::Tag("MultiLine"));
            feed_rings(out, v);
        },
        Geometry::MultiPolygon(v) => {
            out.push(HashPart::Tag("MultiPolygon"));
            feed_polygons(out, v);
        },
        Geometry::Collection(v) => {
            out.push(HashPart::Tag("GeometryCollection"));
            let ghost head = out@;
            let mut i: usize = 0;
            while i < v.len()
                invariant
                    i <= v@.len(),
                    *g == Geometry::Collection(*v),
                    out@ == head + members_feed(v@.take(i as int)),
                decreases v@.len() - i,
            {
                proof {
                    assert(v@.take(i + 1).drop_last() =~= v@.take(i as int));
                    assert(decreases_to!(*g => (*g)->Collection_0));
                    assert(decreases_to!(*v => v@));
                    assert(decreases_to!(v@ => v@[i as int]));
                }
                feed_geometry(out, &v[i]);
                proof {
                    assert(out@ =~= head + members_feed(v@.take(i + 1)));
                }
                i = i + 1;
            }
            proof {
                assert(v@.take(v@.len() as int) =~= v@);
            }
        },
    }
    proof {
        assert(out@ =~= start + hash_feed(*g));
    }
}

impl Geometry<Coord> {
    /// What `Hash` feeds to the hasher for this geometry, in order.
    pub fn hash_parts(&self) -> (r: Vec<HashPart>)
        ensures
            r@ == hash_feed(*self),
    {
        let mut out = Vec::new();
        feed_geometry(&mut out, self);
        proof {
            assert(out@ =~= hash_feed(*self));
        }
        out
    }
}

impl Number {
    /// What `Hash` feeds to the hasher for this number.
    pub fn hash_parts(&self) -> (r: Vec<HashPart>)
        ensures
            r@ == number_feed(*self),
    {
        let part = match self {
            Number::Int(v) => HashPart::Int(*v),
            Number::Float(b) => HashPart::Bits(*b),
            Number::Decimal(d) => HashPart::Decimal(*d),
        };
        let mut out = Vec::new();
        out.push(part);
        proof {
            assert(out@ =~= number_feed(*self));
        }
        out
    }
}

} // verus!
