//! Writing a geometry in its SurrealQL form.
use crate::geometry::{CoordText, Geometry, Polygon};
use vstd::prelude::*;

verus! {

/// The items separated by `", "`.
pub open spec fn joined(items: Seq<Seq<char>>) -> Seq<char>
    decreases items.len(),
{
    if items.len() == 0 {
        Seq::empty()
    } else if items.len() == 1 {
        items[0]
    } else {
        joined(items.drop_last()) + ", "@ + items.last()
    }
}

/// `[x, y]`.
pub open spec fn pair_text(c: CoordText) -> Seq<char> {
    "["@ + c.x@ + ", "@ + c.y@ + "]"@
}

/// The pairs, separated by `", "`.
pub open spec fn points_text(cs: Seq<CoordText>) -> Seq<char> {
    joined(cs.map_values(|c: CoordText| pair_text(c)))
}

/// `[` pairs `]`.
pub open spec fn ring_text(r: Seq<CoordText>) -> Seq<char> {
    "["@ + points_text(r) + "]"@
}

/// The rings, separated by `", "`.
pub open spec fn rings_text(rs: Seq<Vec<CoordText>>) -> Seq<char> {
    joined(rs.map_values(|r: Vec<CoordText>| ring_text(r@)))
}

/// `[[` exterior pairs `]` then, where there are holes, `, [` holes `]`; then `]`.
pub open spec fn polygon_text(p: Polygon<CoordText>) -> Seq<char> {
    "[["@ + points_text(p.exterior@) + "]"@ + (if p.interiors@.len() == 0 {
        Seq::empty()
    } else {
        ", ["@ + rings_text(p.interiors@) + "]"@
    }) + "]"@
}

/// The polygons, separated by `", "`.
pub open spec fn polygons_text(ps: Seq<Polygon<CoordText>>) -> Seq<char> {
    joined(ps.map_values(|p: Polygon<CoordText>| polygon_text(p)))
}

/// The SurrealQL text of a geometry: a point as `(x, y)`, anything else as an
/// object with a `type` and its `coordinates` (or `geometries`).
pub open spec fn geometry_text(g: Geometry<CoordText>) -> Seq<char>
    decreases g,
{
    match g {
        Geometry::Point(c) => "("@ + c.x@ + ", "@ + c.y@ + ")"@,
        Geometry::Line(v) => "{ type: 'LineString', coordinates: ["@ + points_text(v@) + "] }"@,
        Geometry::Polygon(p) => "{ type: 'Polygon', coordinates: "@ + polygon_text(p) + " }"@,
        Geometry::MultiPoint(v) => "{ type: 'MultiPoint', coordinates: ["@ + points_text(v@)
            + "] }"@,
        Geometry::MultiLine(v) => "{ type: 'MultiLineString', coordinates: ["@ + rings_text(v@)
            + "] }"@,
        Geometry::MultiPolygon(v) => "{ type: 'MultiPolygon', coordinates: ["@ + polygons_text(v@)
            + "] }"@,
        Geometry::Collection(v) => "{ type: 'GeometryCollection', geometries: ["@
            + geometries_text(v@) + "] }"@,
    }
}

/// The geometries' texts, separated by `", "`.
pub open spec fn geometries_text(gs: Seq<Geometry<CoordText>>) -> Seq<char>
    decreases gs,
{
    if gs.len() == 0 {
        Seq::empty()
    } else if gs.len() == 1 {
        geometry_text(gs[0])
    } else {
        geometries_text(gs.drop_last()) + ", "@ + geometry_text(gs.last())
    }
}

proof fn lemma_joined_step(items: Seq<Seq<char>>, i: int)
    requires
        0 <= i < items.len(),
    ensures
        joined(items.take(i + 1)) == (if i == 0 {
            items[0]
        } else {
            joined(items.take(i)) + ", "@ + items[i]
        }),
{
    let t = items.take(i + 1);
    if i > 0 {
        assert(t.drop_last() =~= items.take(i));
    }
}

fn write_pair(out: &mut String, c: &CoordText)
    ensures
        final(out)@ == old(out)@ + pair_text(*c),
{
    out.append("[");
    out.append(c.x.as_str());
    out.append(", ");
    out.append(c.y.as_str());
    out.append("]");
}

fn write_points(out: &mut String, cs: &Vec<CoordText>)
    ensures
        final(out)@ == old(out)@ + points_text(cs@),
{
    let ghost items = cs@.map_values(|c: CoordText| pair_text(c));
    let ghost start = out@;
    let mut i: usize = 0;
    while i < cs.len()
        invariant
            i <= cs@.len(),
            items == cs@.map_values(|c: CoordText| pair_text(c)),
            out@ == start + joined(items.take(i as int)),
        decreases cs@.len() - i,
    {
        proof {
            lemma_joined_step(items, i as int);
        }
        if i > 0 {
            out.append(", ");
        }
        write_pair(out, &cs[i]);
        i = i + 1;
    }
    proof {
        assert(items.take(cs@.len() as int) =~= items);
    }
}

fn write_ring(out: &mut String, r: &Vec<CoordText>)
    ensures
        final(out)@ == old(out)@ + ring_text(r@),
{
    out.append("[");
    write_points(out, r);
    out.append("]");
}

fn write_rings(out: &mut String, rs: &Vec<Vec<CoordText>>)
    ensures
        final(out)@ == old(out)@ + rings_text(rs@),
{
    let ghost items = rs@.map_values(|r: Vec<CoordText>| ring_text(r@));
    let ghost start = out@;
    let mut i: usize = 0;
    while i < rs.len()
        invariant
            i <= rs@.len(),
            items == rs@.map_values(|r: Vec<CoordText>| ring_text(r@)),
            out@ == start + joined(items.take(i as int)),
        decreases rs@.len() - i,
    {
        proof {
            lemma_joined_step(items, i as int);
        }
        if i > 0 {
            out.append(", ");
        }
        write_ring(out, &rs[i]);
        i = i + 1;
    }
    proof {
        assert(items.take(rs@.len() as int) =~= items);
    }
}

fn write_polygon(out: &mut String, p: &Polygon<CoordText>)
    ensures
        final(out)@ == old(out)@ + polygon_text(*p),
{
    out.append("[[");
    write_points(out, &p.exterior);
    out.append("]");
    if p.interiors.len() > 0 {
        out.append(", [");
        write_rings(out, &p.interiors);
        out.append("]");
    }
    out.append("]");
}

fn write_polygons(out: &mut String, ps: &Vec<Polygon<CoordText>>)
    ensures
        final(out)@ == old(out)@ + polygons_text(ps@),
{
    let ghost items = ps@.map_values(|p: Polygon<CoordText>| polygon_text(p));
    let ghost start = out@;
    let mut i: usize = 0;
    while i < ps.len()
        invariant
            i <= ps@.len(),
            items == ps@.map_values(|p: Polygon<CoordText>| polygon_text(p)),
            out@ == start + joined(items.take(i as int)),
        decreases ps@.len() - i,
    {
        proof {
            lemma_joined_step(items, i as int);
        }
        if i > 0 {
            out.append(", ");
        }
        write_polygon(out, &ps[i]);
        i = i + 1;
    }
    proof {
        assert(items.take(ps@.len() as int) =~= items);
    }
}

fn write_geometry(out: &mut String, g: &Geometry<CoordText>)
    ensures
        final(out)@ == old(out)@ + geometry_text(*g),
    decreases g,
{
    match g {
        Geometry::Point(c) => {
            out.append("(");
            out.append(c.x.as_str());
            out.append(", ");
            out.append(c.y.as_str());
            out.append(")");
        },
        Geometry::Line(v) => {
            out.append("{ type: 'LineString', coordinates: [");
            write_points(out, v);
            out.append("] }");
        },
        Geometry::Polygon(p) => {
            out.append("{ type: 'Polygon', coordinates: ");
            write_polygon(out, p);
            out.append(" }");
        },
        Geometry::MultiPoint(v) => {
            out.append("{ type: 'MultiPoint', coordinates: [");
            write_points(out, v);
            out.append("] }");
        },
        Geometry::MultiLine(v) => {
            out.append("{ type: 'MultiLineString', coordinates: [");
            write_rings(out, v);
            out.append("] }");
        },
        Geometry::MultiPolygon(v) => {
            out.append("{ type: 'MultiPolygon', coordinates: [");
            write_polygons(out, v);
            out.append("] }");
        },
        Geometry::Collection(v) => {
            out.append("{ type: 'GeometryCollection', geometries: [");
            let ghost start = out@;
            let mut i: usize = 0;
            while i < v.len()
                invariant
                    i <= v@.len(),
                    *g == Geometry::Collection(*v),
                    out@ == start + geometries_text(v@.take(i as int)),
                decreases v@.len() - i,
            {
                proof {
                    let t = v@.take(i + 1);
                    if i > 0 {
                        assert(t.drop_last() =~= v@.take(i as int));
                    }
                    assert(decreases_to!(*g => (*g)->Collection_0));
                    assert(decreases_to!(*v => v@));
                    assert(decreases_to!(v@ => v@[i as int]));
                }
                if i > 0 {
                    out.append(", ");
                }
                write_geometry(out, &v[i]);
                i = i + 1;
            }
            proof {
                assert(v@.take(v@.len() as int) =~= v@);
            }
            out.append("] }");
        },
    }
}

impl Geometry<CoordText> {
    /// The SurrealQL text of the geometry (`Display`).
    pub fn to_text(&self) -> (r: String)
        ensures
            r@ == geometry_text(*self),
    {
        let mut out = String::new();
        write_geometry(&mut out, self);
        out
    }
}

} // verus!
