//! The grammar of geometries in SurrealQL, as functions from a position in
//! the UTF-8 bytes of a query to where the construct ends and what it denotes.
//!
//! White space is ASCII space, tab, line feed and carriage return. Lists are
//! written `[a, b, c]`, possibly with a trailing comma; a coordinate pair is
//! `[x, y]`; a number is a float lexeme or `nan` / `inf` in any case.
use crate::geometry::{CoordText, Geometry, Polygon};
use crate::lexical::{byte_at, is_space_at};
use crate::number_text::{ascii_chars, float_lexeme_end, lower};
use vstd::prelude::*;

verus! {

/// The texts of a coordinate pair.
pub type PairText = (Seq<char>, Seq<char>);

/// What a geometry text denotes: the shape of a geometry, with its
/// coordinates as texts.
pub enum Shape {
    Point(PairText),
    Line(Seq<PairText>),
    Polygon(Seq<PairText>, Seq<Seq<PairText>>),
    MultiPoint(Seq<PairText>),
    MultiLine(Seq<Seq<PairText>>),
    MultiPolygon(Seq<(Seq<PairText>, Seq<Seq<PairText>>)>),
    Collection(Seq<Shape>),
}

pub open spec fn pair_of(c: CoordText) -> PairText {
    (c.x@, c.y@)
}

pub open spec fn pairs_of(v: Seq<CoordText>) -> Seq<PairText> {
    v.map_values(|c: CoordText| pair_of(c))
}

pub open spec fn rings_of(v: Seq<Vec<CoordText>>) -> Seq<Seq<PairText>> {
    v.map_values(|r: Vec<CoordText>| pairs_of(r@))
}

pub open spec fn polygon_of(p: Polygon<CoordText>) -> (Seq<PairText>, Seq<Seq<PairText>>) {
    (pairs_of(p.exterior@), rings_of(p.interiors@))
}

pub open spec fn polygons_of(v: Seq<Polygon<CoordText>>) -> Seq<(Seq<PairText>, Seq<Seq<PairText>>)> {
    v.map_values(|p: Polygon<CoordText>| polygon_of(p))
}

/// The shape of a geometry.
pub open spec fn shape_of(g: Geometry<CoordText>) -> Shape
    decreases g,
{
    match g {
        Geometry::Point(c) => Shape::Point(pair_of(c)),
        Geometry::Line(v) => Shape::Line(pairs_of(v@)),
        Geometry::Polygon(p) => Shape::Polygon(pairs_of(p.exterior@), rings_of(p.interiors@)),
        Geometry::MultiPoint(v) => Shape::MultiPoint(pairs_of(v@)),
        Geometry::MultiLine(v) => Shape::MultiLine(rings_of(v@)),
        Geometry::MultiPolygon(v) => Shape::MultiPolygon(polygons_of(v@)),
        Geometry::Collection(v) => Shape::Collection(shapes_of(v@)),
    }
}

/// The shapes of a sequence of geometries.
pub open spec fn shapes_of(gs: Seq<Geometry<CoordText>>) -> Seq<Shape>
    decreases gs,
{
    if gs.len() == 0 {
        Seq::empty()
    } else {
        shapes_of(gs.drop_last()).push(shape_of(gs.last()))
    }
}

/// The end of the white space that starts at `i`.
pub open spec fn ws_end(s: Seq<u8>, i: int) -> int
    decreases s.len() - i,
{
    if 0 <= i < s.len() && is_space_at(s, i) {
        ws_end(s, i + 1)
    } else {
        i
    }
}

/// The byte `c` stands at `i`.
pub open spec fn byte_is(s: Seq<u8>, i: int, c: u8) -> bool {
    byte_at(s, i) == c as int
}

/// The bytes `t` stand at `i`.
pub open spec fn has_tag(s: Seq<u8>, i: int, t: Seq<u8>) -> bool {
    &&& 0 <= i
    &&& i + t.len() <= s.len()
    &&& forall|k: int| 0 <= k < t.len() ==> s[i + k] == t[k]
}

/// The lower-case letters `t` stand at `i`, in any case.
pub open spec fn has_word_any_case(s: Seq<u8>, i: int, t: Seq<u8>) -> bool {
    &&& 0 <= i
    &&& i + t.len() <= s.len()
    &&& forall|k: int| 0 <= k < t.len() ==> lower(s[i + k] as int) == t[k] as int
}

/// The text of the bytes `s[i..e]`.
pub open spec fn lexeme_text(s: Seq<u8>, i: int, e: int) -> Seq<char> {
    ascii_chars(s.subrange(i, e))
}

/// The end of a number at `i` (`nom`'s `double`): a float lexeme, else `nan`
/// or `inf` in any case.
pub open spec fn double_end(s: Seq<u8>, i: int) -> Option<int> {
    if !(0 <= i <= s.len()) {
        None
    } else {
        match float_lexeme_end(s.skip(i)) {
            Some(e) => Some(i + e),
            None => if has_word_any_case(s, i, seq![0x6eu8, 0x61, 0x6e]) || has_word_any_case(
                s,
                i,
                seq![0x69u8, 0x6e, 0x66],
            ) {
                Some(i + 3)
            } else {
                None
            },
        }
    }
}

/// The end of a comma at `i`, with white space before and after it.
pub open spec fn comma_end(s: Seq<u8>, i: int) -> Option<int> {
    let a = ws_end(s, i);
    if byte_is(s, a, 0x2c) {
        Some(ws_end(s, a + 1))
    } else {
        None
    }
}

/// A coordinate pair at `i`: `[`, a number, a comma, a number, `]`.
pub open spec fn coordinate_at(s: Seq<u8>, i: int) -> Option<(int, PairText)> {
    if !byte_is(s, i, 0x5b) {
        None
    } else {
        let a = ws_end(s, i + 1);
        match double_end(s, a) {
            None => None,
            Some(b) => {
                let c = ws_end(s, b);
                if !byte_is(s, c, 0x2c) {
                    None
                } else {
                    let d = ws_end(s, c + 1);
                    match double_end(s, d) {
                        None => None,
                        Some(e) => {
                            let f = ws_end(s, e);
                            if byte_is(s, f, 0x5d) {
                                Some((f + 1, (lexeme_text(s, a, b), lexeme_text(s, d, e))))
                            } else {
                                None
                            }
                        },
                    }
                }
            },
        }
    }
}

/// The rest of a list whose `[` is behind `p`: items, each followed by white
/// space, separated by commas, possibly a trailing comma, then `]`. With
/// `first`, an item must come first (the list is not empty).
pub open spec fn list_items<T>(
    s: Seq<u8>,
    p: int,
    item: spec_fn(int) -> Option<(int, T)>,
    first: bool,
) -> Option<(int, Seq<T>)>
    decreases s.len() - p,
{
    if p < 0 || p > s.len() {
        None
    } else if !first && byte_is(s, p, 0x5d) {
        Some((p + 1, Seq::empty()))
    } else {
        match item(p) {
            None => None,
            Some((q, x)) => {
                let q2 = ws_end(s, q);
                match comma_end(s, q2) {
                    Some(r) => if r <= p || r > s.len() {
                        None
                    } else {
                        match list_items(s, r, item, false) {
                            None => None,
                            Some((e, xs)) => Some((e, seq![x] + xs)),
                        }
                    },
                    None => if byte_is(s, q2, 0x5d) {
                        Some((q2 + 1, seq![x]))
                    } else {
                        None
                    },
                }
            },
        }
    }
}

/// A list at `i`: `[`, white space, then its items.
pub open spec fn list_at<T>(
    s: Seq<u8>,
    i: int,
    item: spec_fn(int) -> Option<(int, T)>,
    first: bool,
) -> Option<(int, Seq<T>)> {
    if byte_is(s, i, 0x5b) {
        list_items(s, ws_end(s, i + 1), item, first)
    } else {
        None
    }
}

/// The parser of coordinate pairs, as a function of the position.
pub open spec fn coordinate_item(s: Seq<u8>) -> spec_fn(int) -> Option<(int, PairText)> {
    |p: int| coordinate_at(s, p)
}

/// The parser of lines, as a function of the position.
pub open spec fn line_item(s: Seq<u8>) -> spec_fn(int) -> Option<(int, Seq<PairText>)> {
    |p: int| line_at(s, p)
}

/// The parser of polygons, as a function of the position.
pub open spec fn polygon_item(s: Seq<u8>) -> spec_fn(int) -> Option<(int, (Seq<PairText>, Seq<Seq<PairText>>))> {
    |p: int| polygon_at(s, p)
}

/// A line's coordinates at `i`: a list of pairs.
pub open spec fn line_at(s: Seq<u8>, i: int) -> Option<(int, Seq<PairText>)> {
    list_at(s, i, coordinate_item(s), false)
}

/// A polygon's coordinates at `i`: a list of at least one line, the exterior
/// ring and then the holes.
pub open spec fn polygon_at(s: Seq<u8>, i: int) -> Option<(int, (Seq<PairText>, Seq<Seq<PairText>>))> {
    match list_at(s, i, line_item(s), true) {
        None => None,
        Some((e, rings)) => Some((e, (rings[0], rings.drop_first()))),
    }
}

/// A polygon's rings read in full: where a list of at least one ring stands at
/// `i`, the polygon there has the first ring as its exterior and every later
/// ring, in order, as a hole; where none stands, no polygon does.
pub proof fn lemma_polygon_reads_all_rings(s: Seq<u8>, i: int)
    ensures
        match list_at(s, i, line_item(s), true) {
            None => polygon_at(s, i) is None,
            Some((e, rings)) => rings.len() >= 1 && (polygon_at(s, i) matches Some((q, (exterior, holes)))
                && q == e && exterior == rings[0] && holes.len() == rings.len() - 1 && forall|k: int|
                0 <= k < holes.len() ==> #[trigger] holes[k] == rings[k + 1]),
        },
{
}

/// The word of a kind of geometry (0 to 6: point, line, polygon,
/// multi-point, multi-line, multi-polygon, collection).
pub open spec fn kind_word(k: int) -> Seq<u8> {
    if k == 0 {
        seq![0x50u8, 0x6f, 0x69, 0x6e, 0x74]
    } else if k == 1 {
        seq![0x4cu8, 0x69, 0x6e, 0x65, 0x53, 0x74, 0x72, 0x69, 0x6e, 0x67]
    } else if k == 2 {
        seq![0x50u8, 0x6f, 0x6c, 0x79, 0x67, 0x6f, 0x6e]
    } else if k == 3 {
        seq![0x4du8, 0x75, 0x6c, 0x74, 0x69, 0x50, 0x6f, 0x69, 0x6e, 0x74]
    } else if k == 4 {
        seq![0x4du8, 0x75, 0x6c, 0x74, 0x69, 0x4c, 0x69, 0x6e, 0x65, 0x53, 0x74, 0x72, 0x69, 0x6e, 0x67]
    } else if k == 5 {
        seq![0x4du8, 0x75, 0x6c, 0x74, 0x69, 0x50, 0x6f, 0x6c, 0x79, 0x67, 0x6f, 0x6e]
    } else {
        seq![
            0x47u8, 0x65, 0x6f, 0x6d, 0x65, 0x74, 0x72, 0x79, 0x43, 0x6f, 0x6c, 0x6c, 0x65, 0x63, 0x74,
            0x69, 0x6f, 0x6e,
        ]
    }
}

pub open spec fn word_type() -> Seq<u8> {
    seq![0x74u8, 0x79, 0x70, 0x65]
}

pub open spec fn word_coordinates() -> Seq<u8> {
    seq![0x63u8, 0x6f, 0x6f, 0x72, 0x64, 0x69, 0x6e, 0x61, 0x74, 0x65, 0x73]
}

pub open spec fn word_geometries() -> Seq<u8> {
    seq![0x67u8, 0x65, 0x6f, 0x6d, 0x65, 0x74, 0x72, 0x69, 0x65, 0x73]
}

/// `word` at `i`, bare or in single or double quotes.
pub open spec fn key_word_end(s: Seq<u8>, i: int, word: Seq<u8>) -> Option<int> {
    if has_tag(s, i, word) {
        Some(i + word.len())
    } else {
        quoted_end(s, i, word)
    }
}

/// `word` at `i` in single or double quotes.
pub open spec fn quoted_end(s: Seq<u8>, i: int, word: Seq<u8>) -> Option<int> {
    if byte_is(s, i, 0x27) && has_tag(s, i + 1, word) && byte_is(s, i + 1 + word.len(), 0x27) {
        Some(i + word.len() + 2)
    } else if byte_is(s, i, 0x22) && has_tag(s, i + 1, word) && byte_is(s, i + 1 + word.len(), 0x22) {
        Some(i + word.len() + 2)
    } else {
        None
    }
}

/// A key at `i`: the word (bare or quoted), white space, `:`, white space.
pub open spec fn key_end(s: Seq<u8>, i: int, word: Seq<u8>) -> Option<int> {
    match key_word_end(s, i, word) {
        None => None,
        Some(a) => {
            let b = ws_end(s, a);
            if byte_is(s, b, 0x3a) {
                Some(ws_end(s, b + 1))
            } else {
                None
            }
        },
    }
}

/// The coordinates of kind `k` (0 to 5) at `i`.
pub open spec fn values_at(s: Seq<u8>, i: int, k: int) -> Option<(int, Shape)> {
    if k == 0 {
        match coordinate_at(s, i) {
            Some((e, c)) => Some((e, Shape::Point(c))),
            None => None,
        }
    } else if k == 1 {
        match line_at(s, i) {
            Some((e, v)) => Some((e, Shape::Line(v))),
            None => None,
        }
    } else if k == 2 {
        match polygon_at(s, i) {
            Some((e, p)) => Some((e, Shape::Polygon(p.0, p.1))),
            None => None,
        }
    } else if k == 3 {
        match list_at(s, i, coordinate_item(s), false) {
            Some((e, v)) => Some((e, Shape::MultiPoint(v))),
            None => None,
        }
    } else if k == 4 {
        match list_at(s, i, line_item(s), false) {
            Some((e, v)) => Some((e, Shape::MultiLine(v))),
            None => None,
        }
    } else {
        match list_at(s, i, polygon_item(s), false) {
            Some((e, v)) => Some((e, Shape::MultiPolygon(v))),
            None => None,
        }
    }
}

/// The body of an object of kind `k` (0 to 5) at `i`: `type: 'Kind'`, a
/// comma, `coordinates: ...`; or the same two entries the other way round.
pub open spec fn kind_at(s: Seq<u8>, i: int, k: int) -> Option<(int, Shape)> {
    let type_first = match key_end(s, i, word_type()) {
        None => None,
        Some(a) => match quoted_end(s, a, kind_word(k)) {
            None => None,
            Some(b) => match comma_end(s, b) {
                None => None,
                Some(c) => match key_end(s, c, word_coordinates()) {
                    None => None,
                    Some(d) => values_at(s, d, k),
                },
            },
        },
    };
    if type_first is Some {
        type_first
    } else {
        match key_end(s, i, word_coordinates()) {
            None => None,
            Some(d) => match values_at(s, d, k) {
                None => None,
                Some((e, shape)) => match comma_end(s, e) {
                    None => None,
                    Some(f) => match key_end(s, f, word_type()) {
                        None => None,
                        Some(g) => match quoted_end(s, g, kind_word(k)) {
                            None => None,
                            Some(h) => Some((h, shape)),
                        },
                    },
                },
            },
        }
    }
}

/// The first of the kinds 0 to 5 whose body stands at `i`, from kind `k` on.
pub open spec fn first_kind_at(s: Seq<u8>, i: int, k: int) -> Option<(int, Shape)>
    decreases 6 - k,
{
    if k >= 6 {
        None
    } else if kind_at(s, i, k) is Some {
        kind_at(s, i, k)
    } else {
        first_kind_at(s, i, k + 1)
    }
}

/// `(x, y)` at `i`: the short form of a point.
pub open spec fn simple_point_at(s: Seq<u8>, i: int) -> Option<(int, Shape)> {
    if !byte_is(s, i, 0x28) {
        None
    } else {
        let a = ws_end(s, i + 1);
        match double_end(s, a) {
            None => None,
            Some(b) => match comma_end(s, b) {
                None => None,
                Some(c) => match double_end(s, c) {
                    None => None,
                    Some(d) => {
                        let e = ws_end(s, d);
                        if byte_is(s, e, 0x29) {
                            Some((e + 1, Shape::Point((lexeme_text(s, a, b), lexeme_text(s, c, d)))))
                        } else {
                            None
                        }
                    },
                },
            },
        }
    }
}

/// The close of an object whose body ends at `b`: white space, an optional
/// comma, white space, `}`.
pub open spec fn object_close(s: Seq<u8>, b: int) -> Option<int> {
    let c = ws_end(s, b);
    let d = if byte_is(s, c, 0x2c) {
        c + 1
    } else {
        c
    };
    let e = ws_end(s, d);
    if byte_is(s, e, 0x7d) {
        Some(e + 1)
    } else {
        None
    }
}

/// A geometry at `i`: `(x, y)`; or `{`, the body of a point, line, polygon,
/// multi-point, multi-line, multi-polygon or collection (the first that
/// fits), and the close. A collection's body is `type: 'GeometryCollection'`
/// and `geometries: [...]` in either order.
pub open spec fn geometry_at(s: Seq<u8>, i: int) -> Option<(int, Shape)>
    decreases s.len() - i, 0int,
{
    if simple_point_at(s, i) is Some {
        simple_point_at(s, i)
    } else if !byte_is(s, i, 0x7b) || i < 0 {
        None
    } else {
        let a = ws_end(s, i + 1);
        let body = if first_kind_at(s, a, 0) is Some {
            first_kind_at(s, a, 0)
        } else {
            let type_first = match key_end(s, a, word_type()) {
                None => None,
                Some(b) => match quoted_end(s, b, kind_word(6)) {
                    None => None,
                    Some(c) => match comma_end(s, c) {
                        None => None,
                        Some(d) => match key_end(s, d, word_geometries()) {
                            None => None,
                            Some(e) => if byte_is(s, e, 0x5b) && i < ws_end(s, e + 1) <= s.len() {
                                match geometry_items(s, ws_end(s, e + 1)) {
                                    None => None,
                                    Some((f, gs)) => Some((f, Shape::Collection(gs))),
                                }
                            } else {
                                None
                            },
                        },
                    },
                },
            };
            if type_first is Some {
                type_first
            } else {
                match key_end(s, a, word_geometries()) {
                    None => None,
                    Some(e) => if byte_is(s, e, 0x5b) && i < ws_end(s, e + 1) <= s.len() {
                        match geometry_items(s, ws_end(s, e + 1)) {
                            None => None,
                            Some((f, gs)) => match comma_end(s, f) {
                                None => None,
                                Some(g) => match key_end(s, g, word_type()) {
                                    None => None,
                                    Some(h) => match quoted_end(s, h, kind_word(6)) {
                                        None => None,
                                        Some(j) => Some((j, Shape::Collection(gs))),
                                    },
                                },
                            },
                        }
                    } else {
                        None
                    },
                }
            }
        };
        match body {
            None => None,
            Some((b, shape)) => match object_close(s, b) {
                None => None,
                Some(e) => Some((e, shape)),
            },
        }
    }
}

/// The rest of a list of geometries whose `[` is behind `p`.
pub open spec fn geometry_items(s: Seq<u8>, p: int) -> Option<(int, Seq<Shape>)>
    decreases s.len() - p, 1int,
{
    if p < 0 || p > s.len() {
        None
    } else if byte_is(s, p, 0x5d) {
        Some((p + 1, Seq::empty()))
    } else {
        match geometry_at(s, p) {
            None => None,
            Some((q, g)) => {
                let q2 = ws_end(s, q);
                match comma_end(s, q2) {
                    Some(r) => if r <= p || r > s.len() {
                        None
                    } else {
                        match geometry_items(s, r) {
                            None => None,
                            Some((e, gs)) => Some((e, seq![g] + gs)),
                        }
                    },
                    None => if byte_is(s, q2, 0x5d) {
                        Some((q2 + 1, seq![g]))
                    } else {
                        None
                    },
                }
            },
        }
    }
}

} // verus!
