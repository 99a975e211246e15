//! The parser of geometry texts: each function reads the construct of
//! `geometry_grammar` that starts at a position and returns where it ends and
//! the geometry it denotes, with the coordinates kept as their texts.
use crate::geometry::{CoordText, Geometry, Polygon};
use crate::geometry_grammar::{
    byte_is, comma_end, coordinate_at, coordinate_item, double_end, has_tag, has_word_any_case, lexeme_text,
    line_at, line_item, list_at, list_items, pair_of, pairs_of, polygon_at, polygon_item, polygon_of, polygons_of,
    rings_of, first_kind_at, key_end, key_word_end, kind_at, kind_word, quoted_end, shape_of, values_at,
    word_coordinates, word_geometries, word_type, ws_end, PairText, Shape, simple_point_at, object_close,
    geometry_at, geometry_items, shapes_of,
};
use vstd::string::StringSliceAdditionalSpecFns;
use crate::lexical::is_space_at;
use crate::number_text::{ascii_chars, byte, float_lexeme, lower, string_of};
use vstd::prelude::*;

verus! {

/// A position found, as an integer.
pub open spec fn position(r: Option<usize>) -> Option<int> {
    match r {
        Some(e) => Some(e as int),
        None => None,
    }
}

proof fn lemma_ws_end(s: Seq<u8>, i: int)
    requires
        0 <= i <= s.len(),
    ensures
        i <= ws_end(s, i) <= s.len(),
        !is_space_at(s, ws_end(s, i)),
    decreases s.len() - i,
{
    if i < s.len() && is_space_at(s, i) {
        lemma_ws_end(s, i + 1);
    }
}

/// Skips the white space at `i`.
fn ws(s: &[u8], i: usize) -> (r: usize)
    requires
        i <= s.len(),
    ensures
        r == ws_end(s@, i as int),
        i <= r <= s@.len(),
{
    proof {
        lemma_ws_end(s@, i as int);
    }
    let mut j = i;
    while j < s.len() && (s[j] == 0x20 || s[j] == 0x09 || s[j] == 0x0a || s[j] == 0x0d)
        invariant
            i <= j <= s@.len(),
            ws_end(s@, j as int) == ws_end(s@, i as int),
        decreases s@.len() - j,
    {
        j = j + 1;
    }
    j
}

/// The byte `c` stands at `i`.
fn byte_eq(s: &[u8], i: usize, c: u8) -> (r: bool)
    ensures
        r == byte_is(s@, i as int, c),
{
    byte(s, i) == c as i32
}

/// The bytes `t` stand at `i`.
fn tag_at(s: &[u8], i: usize, t: &[u8]) -> (r: bool)
    ensures
        r == has_tag(s@, i as int, t@),
{
    if i > s.len() || t.len() > s.len() - i {
        return false;
    }
    let mut k: usize = 0;
    while k < t.len()
        invariant
            i + t@.len() <= s.len(),
            k <= t@.len(),
            forall|m: int| 0 <= m < k ==> s@[i + m] == t@[m],
        decreases t@.len() - k,
    {
        if s[i + k] != t[k] {
            return false;
        }
        k = k + 1;
    }
    true
}

/// The lower-case letters `t` stand at `i`, in any case.
fn word_at(s: &[u8], i: usize, t: &[u8]) -> (r: bool)
    ensures
        r == has_word_any_case(s@, i as int, t@),
{
    if i > s.len() || t.len() > s.len() - i {
        return false;
    }
    let mut k: usize = 0;
    while k < t.len()
        invariant
            i + t@.len() <= s.len(),
            k <= t@.len(),
            forall|m: int| 0 <= m < k ==> lower(s@[i + m] as int) == t@[m] as int,
        decreases t@.len() - k,
    {
        let c = s[i + k];
        let l: u8 = if 0x41 <= c && c <= 0x5a {
            c + 0x20
        } else {
            c
        };
        if l != t[k] {
            return false;
        }
        k = k + 1;
    }
    true
}

/// The end of a number at `i`.
fn double(s: &[u8], i: usize) -> (r: Option<usize>)
    requires
        i <= s.len(),
    ensures
        r matches Some(e) ==> i <= e <= s@.len(),
        double_end(s@, i as int) == position(r),
{
    let rest = vstd::slice::slice_subrange(s, i, s.len());
    assert(rest@ =~= s@.skip(i as int));
    match float_lexeme(rest) {
        Some(e) => Some(i + e),
        None => {
            let nan: [u8; 3] = [0x6e, 0x61, 0x6e];
            let inf: [u8; 3] = [0x69, 0x6e, 0x66];
            assert(nan@ == seq![0x6eu8, 0x61, 0x6e]);
            assert(inf@ == seq![0x69u8, 0x6e, 0x66]);
            if word_at(s, i, &nan) || word_at(s, i, &inf) {
                Some(i + 3)
            } else {
                None
            }
        },
    }
}

/// The text of `s[a..b]`.
fn text_of(s: &[u8], a: usize, b: usize) -> (r: String)
    requires
        a <= b <= s@.len(),
    ensures
        r@ == lexeme_text(s@, a as int, b as int),
{
    let mut chars: Vec<char> = Vec::new();
    let mut k = a;
    while k < b
        invariant
            a <= k <= b <= s@.len(),
            chars@ =~= ascii_chars(s@.subrange(a as int, k as int)),
        decreases b - k,
    {
        chars.push(s[k] as char);
        k = k + 1;
    }
    string_of(chars)
}

/// The end of a comma at `i`, with the white space round it.
fn comma(s: &[u8], i: usize) -> (r: Option<usize>)
    requires
        i <= s.len(),
    ensures
        r matches Some(e) ==> i < e <= s@.len(),
        comma_end(s@, i as int) == position(r),
{
    let a = ws(s, i);
    if byte_eq(s, a, 0x2c) {
        Some(ws(s, a + 1))
    } else {
        None
    }
}

/// What a parsed coordinate pair denotes.
pub open spec fn coordinate_result(r: Option<(usize, CoordText)>) -> Option<(int, PairText)> {
    match r {
        None => None,
        Some((e, c)) => Some((e as int, pair_of(c))),
    }
}

/// Reads a coordinate pair at `i`.
pub fn coordinate(s: &[u8], i: usize) -> (r: Option<(usize, CoordText)>)
    requires
        i <= s.len(),
    ensures
        coordinate_result(r) == coordinate_at(s@, i as int),
        r matches Some((e, _)) ==> i < e <= s@.len(),
{
    if !byte_eq(s, i, 0x5b) {
        return None;
    }
    let a = ws(s, i + 1);
    let b = match double(s, a) {
        Some(b) => b,
        None => return None,
    };
    let c = ws(s, b);
    if !byte_eq(s, c, 0x2c) {
        return None;
    }
    let d = ws(s, c + 1);
    let e = match double(s, d) {
        Some(e) => e,
        None => return None,
    };
    let f = ws(s, e);
    if !byte_eq(s, f, 0x5d) {
        return None;
    }
    let c = CoordText { x: text_of(s, a, b), y: text_of(s, d, e) };
    assert(pair_of(c) == (lexeme_text(s@, a as int, b as int), lexeme_text(s@, d as int, e as int)));
    Some((f + 1, c))
}

/// A list result whose items are preceded by `a`.
pub open spec fn prepended<T>(a: Seq<T>, r: Option<(int, Seq<T>)>) -> Option<(int, Seq<T>)> {
    match r {
        None => None,
        Some((e, xs)) => Some((e, a + xs)),
    }
}

/// One item more read before the rest of a list.
proof fn lemma_prepend_step<T>(a: Seq<T>, x: T, rest: Option<(int, Seq<T>)>)
    ensures
        prepended(
            a,
            match rest {
                None => None,
                Some((e, xs)) => Some((e, seq![x] + xs)),
            },
        ) == prepended(a.push(x), rest),
{
    match rest {
        None => {},
        Some((e, xs)) => {
            assert(a + (seq![x] + xs) =~= a.push(x) + xs);
        },
    }
}

/// The last item of a list read.
proof fn lemma_prepend_last<T>(a: Seq<T>, x: T, e: int)
    ensures
        prepended(a, Some((e, seq![x]))) == Some((e, a.push(x))),
{
    assert(a + seq![x] =~= a.push(x));
}

/// The end of a list read.
proof fn lemma_prepend_end<T>(a: Seq<T>, e: int)
    ensures
        prepended(a, Some((e, Seq::<T>::empty()))) == Some((e, a)),
{
    assert(a + Seq::<T>::empty() =~= a);
}

/// What a parsed list of coordinate pairs denotes.
pub open spec fn coordinates_result(r: Option<(usize, Vec<CoordText>)>) -> Option<(int, Seq<PairText>)> {
    match r {
        None => None,
        Some((e, v)) => Some((e as int, pairs_of(v@))),
    }
}

/// Reads a list of coordinate pairs at `i` (the coordinates of a line or of a
/// multi-point).
pub fn coordinate_list(s: &[u8], i: usize) -> (r: Option<(usize, Vec<CoordText>)>)
    requires
        i <= s.len(),
    ensures
        coordinates_result(r) == list_at(s@, i as int, coordinate_item(s@), false),
        r matches Some((e, _)) ==> i < e <= s@.len(),
{
    if !byte_eq(s, i, 0x5b) {
        return None;
    }
    let p0 = ws(s, i + 1);
    let mut p = p0;
    let mut acc: Vec<CoordText> = Vec::new();
    assert(pairs_of(acc@) =~= Seq::<PairText>::empty());
    assert(prepended(pairs_of(acc@), list_items(s@, p as int, coordinate_item(s@), false)) =~~= list_items(
        s@,
        p as int,
        coordinate_item(s@),
        false,
    ));
    loop
        invariant
            i < p0 <= p <= s.len(),
            list_at(s@, i as int, coordinate_item(s@), false) == list_items(s@, p0 as int, coordinate_item(s@), false),
            list_items(s@, p0 as int, coordinate_item(s@), false) == prepended(
                pairs_of(acc@),
                list_items(s@, p as int, coordinate_item(s@), false),
            ),
        decreases s@.len() - p,
    {
        let ghost a = pairs_of(acc@);
        if byte_eq(s, p, 0x5d) {
            proof {
                lemma_prepend_end(a, p + 1);
            }
            return Some((p + 1, acc));
        }
        let (q, x) = match coordinate(s, p) {
            Some(found) => found,
            None => return None,
        };
        let q2 = ws(s, q);
        match comma(s, q2) {
            Some(r) => {
                proof {
                    lemma_prepend_step(a, pair_of(x), list_items(s@, r as int, coordinate_item(s@), false));
                }
                acc.push(x);
                assert(pairs_of(acc@) =~= a.push(pair_of(x)));
                p = r;
            },
            None => {
                if byte_eq(s, q2, 0x5d) {
                    proof {
                        lemma_prepend_last(a, pair_of(x), q2 + 1);
                    }
                    acc.push(x);
                    assert(pairs_of(acc@) =~= a.push(pair_of(x)));
                    return Some((q2 + 1, acc));
                }
                return None;
            },
        }
    }
}

/// What a parsed list of lines denotes.
pub open spec fn lines_result(r: Option<(usize, Vec<Vec<CoordText>>)>) -> Option<(int, Seq<Seq<PairText>>)> {
    match r {
        None => None,
        Some((e, v)) => Some((e as int, rings_of(v@))),
    }
}

/// Reads a list of lines at `i` (the rings of a polygon, where `first` asks
/// for at least one, or the lines of a multi-line).
pub fn line_list(s: &[u8], i: usize, first: bool) -> (r: Option<(usize, Vec<Vec<CoordText>>)>)
    requires
        i <= s.len(),
    ensures
        lines_result(r) == list_at(s@, i as int, line_item(s@), first),
        r matches Some((e, v)) ==> i < e <= s@.len() && (first ==> v@.len() >= 1),
{
    if !byte_eq(s, i, 0x5b) {
        return None;
    }
    let p0 = ws(s, i + 1);
    let mut p = p0;
    let mut f = first;
    let mut acc: Vec<Vec<CoordText>> = Vec::new();
    assert(rings_of(acc@) =~= Seq::<Seq<PairText>>::empty());
    assert(prepended(rings_of(acc@), list_items(s@, p as int, line_item(s@), f)) =~~= list_items(
        s@,
        p as int,
        line_item(s@),
        f,
    ));
    loop
        invariant
            i < p0 <= p <= s.len(),
            list_at(s@, i as int, line_item(s@), first) == list_items(s@, p0 as int, line_item(s@), first),
            list_items(s@, p0 as int, line_item(s@), first) == prepended(
                rings_of(acc@),
                list_items(s@, p as int, line_item(s@), f),
            ),
            first && !f ==> acc@.len() >= 1,
        decreases s@.len() - p,
    {
        let ghost a = rings_of(acc@);
        if !f && byte_eq(s, p, 0x5d) {
            proof {
                lemma_prepend_end(a, p + 1);
            }
            return Some((p + 1, acc));
        }
        let (q, x) = match coordinate_list(s, p) {
            Some(found) => found,
            None => return None,
        };
        let ghost xv = pairs_of(x@);
        assert(line_at(s@, p as int) == Some((q as int, xv)));
        let q2 = ws(s, q);
        match comma(s, q2) {
            Some(r) => {
                proof {
                    lemma_prepend_step(a, xv, list_items(s@, r as int, line_item(s@), false));
                }
                acc.push(x);
                assert(rings_of(acc@) =~= a.push(xv));
                p = r;
                f = false;
            },
            None => {
                if byte_eq(s, q2, 0x5d) {
                    proof {
                        lemma_prepend_last(a, xv, q2 + 1);
                    }
                    acc.push(x);
                    assert(rings_of(acc@) =~= a.push(xv));
                    return Some((q2 + 1, acc));
                }
                return None;
            },
        }
    }
}

/// What a parsed polygon denotes.
pub open spec fn polygon_result(r: Option<(usize, Polygon<CoordText>)>) -> Option<(int, (Seq<PairText>, Seq<Seq<PairText>>))> {
    match r {
        None => None,
        Some((e, p)) => Some((e as int, polygon_of(p))),
    }
}

/// Reads the rings of a polygon at `i`: the exterior ring, then the holes,
/// each as written (`geo`'s `Polygon::new`, which closes an open ring, is the
/// caller's, on the binary64 values).
pub fn polygon(s: &[u8], i: usize) -> (r: Option<(usize, Polygon<CoordText>)>)
    requires
        i <= s.len(),
    ensures
        polygon_result(r) == polygon_at(s@, i as int),
        r matches Some((e, _)) ==> i < e <= s@.len(),
        match list_at(s@, i as int, line_item(s@), true) {
            None => r is None,
            Some((e, rings)) => r matches Some((q, p)) && q == e && rings.len() >= 1 && pairs_of(
                p.exterior@,
            ) == rings[0] && p.interiors@.len() == rings.len() - 1 && forall|k: int|
                0 <= k < p.interiors@.len() ==> pairs_of(#[trigger] p.interiors@[k]@) == rings[k + 1],
        },
{
    match line_list(s, i, true) {
        None => None,
        Some((e, rings)) => {
            let ghost all = rings_of(rings@);
            let mut interiors = rings;
            let exterior = interiors.remove(0);
            assert(rings_of(interiors@) =~= all.drop_first());
            let p = Polygon { exterior, interiors };
            assert(polygon_of(p) == (all[0], all.drop_first()));
            assert forall|k: int| 0 <= k < p.interiors@.len() implies pairs_of(
                #[trigger] p.interiors@[k]@,
            ) == all[k + 1] by {
                assert(rings_of(p.interiors@)[k] == all.drop_first()[k]);
            }
            Some((e, p))
        },
    }
}

/// What a parsed list of polygons denotes.
pub open spec fn polygons_result(r: Option<(usize, Vec<Polygon<CoordText>>)>) -> Option<(int, Seq<(Seq<PairText>, Seq<Seq<PairText>>)>)> {
    match r {
        None => None,
        Some((e, v)) => Some((e as int, polygons_of(v@))),
    }
}

/// Reads a list of polygons at `i` (the polygons of a multi-polygon).
pub fn polygon_list(s: &[u8], i: usize) -> (r: Option<(usize, Vec<Polygon<CoordText>>)>)
    requires
        i <= s.len(),
    ensures
        polygons_result(r) == list_at(s@, i as int, polygon_item(s@), false),
        r matches Some((e, _)) ==> i < e <= s@.len(),
{
    if !byte_eq(s, i, 0x5b) {
        return None;
    }
    let p0 = ws(s, i + 1);
    let mut p = p0;
    let mut acc: Vec<Polygon<CoordText>> = Vec::new();
    assert(polygons_of(acc@) =~= Seq::<(Seq<PairText>, Seq<Seq<PairText>>)>::empty());
    assert(prepended(polygons_of(acc@), list_items(s@, p as int, polygon_item(s@), false)) =~~= list_items(
        s@,
        p as int,
        polygon_item(s@),
        false,
    ));
    loop
        invariant
            i < p0 <= p <= s.len(),
            list_at(s@, i as int, polygon_item(s@), false) == list_items(s@, p0 as int, polygon_item(s@), false),
            list_items(s@, p0 as int, polygon_item(s@), false) == prepended(
                polygons_of(acc@),
                list_items(s@, p as int, polygon_item(s@), false),
            ),
        decreases s@.len() - p,
    {
        let ghost a = polygons_of(acc@);
        if byte_eq(s, p, 0x5d) {
            proof {
                lemma_prepend_end(a, p + 1);
            }
            return Some((p + 1, acc));
        }
        let (q, x) = match polygon(s, p) {
            Some(found) => found,
            None => return None,
        };
        let ghost xv = polygon_of(x);
        assert(polygon_at(s@, p as int) == Some((q as int, xv)));
        let q2 = ws(s, q);
        match comma(s, q2) {
            Some(r) => {
                proof {
                    lemma_prepend_step(a, xv, list_items(s@, r as int, polygon_item(s@), false));
                }
                acc.push(x);
                assert(polygons_of(acc@) =~= a.push(xv));
                p = r;
            },
            None => {
                if byte_eq(s, q2, 0x5d) {
                    proof {
                        lemma_prepend_last(a, xv, q2 + 1);
                    }
                    acc.push(x);
                    assert(polygons_of(acc@) =~= a.push(xv));
                    return Some((q2 + 1, acc));
                }
                return None;
            },
        }
    }
}

/// The word of kind `k`.
fn kind_word_bytes(k: usize) -> (r: Vec<u8>)
    requires
        k <= 6,
    ensures
        r@ == kind_word(k as int),
{
    let r: Vec<u8> = if k == 0 {
        vec![0x50u8, 0x6f, 0x69, 0x6e, 0x74]
    } else if k == 1 {
        vec![0x4cu8, 0x69, 0x6e, 0x65, 0x53, 0x74, 0x72, 0x69, 0x6e, 0x67]
    } else if k == 2 {
        vec![0x50u8, 0x6f, 0x6c, 0x79, 0x67, 0x6f, 0x6e]
    } else if k == 3 {
        vec![0x4du8, 0x75, 0x6c, 0x74, 0x69, 0x50, 0x6f, 0x69, 0x6e, 0x74]
    } else if k == 4 {
        vec![0x4du8, 0x75, 0x6c, 0x74, 0x69, 0x4c, 0x69, 0x6e, 0x65, 0x53, 0x74, 0x72, 0x69, 0x6e, 0x67]
    } else if k == 5 {
        vec![0x4du8, 0x75, 0x6c, 0x74, 0x69, 0x50, 0x6f, 0x6c, 0x79, 0x67, 0x6f, 0x6e]
    } else {
        vec![
            0x47u8, 0x65, 0x6f, 0x6d, 0x65, 0x74, 0x72, 0x79, 0x43, 0x6f, 0x6c, 0x6c, 0x65, 0x63, 0x74,
            0x69, 0x6f, 0x6e,
        ]
    };
    assert(r@ =~= kind_word(k as int));
    r
}

/// The key words `type`, `coordinates` and `geometries` (0, 1, 2).
fn key_bytes(k: usize) -> (r: Vec<u8>)
    requires
        k <= 2,
    ensures
        k == 0 ==> r@ == word_type(),
        k == 1 ==> r@ == word_coordinates(),
        k == 2 ==> r@ == word_geometries(),
{
    let r: Vec<u8> = if k == 0 {
        vec![0x74u8, 0x79, 0x70, 0x65]
    } else if k == 1 {
        vec![0x63u8, 0x6f, 0x6f, 0x72, 0x64, 0x69, 0x6e, 0x61, 0x74, 0x65, 0x73]
    } else {
        vec![0x67u8, 0x65, 0x6f, 0x6d, 0x65, 0x74, 0x72, 0x69, 0x65, 0x73]
    };
    assert(k == 0 ==> r@ =~= word_type());
    assert(k == 1 ==> r@ =~= word_coordinates());
    assert(k == 2 ==> r@ =~= word_geometries());
    r
}

/// The end of `word` in single or double quotes at `i`.
fn quoted(s: &[u8], i: usize, word: &[u8]) -> (r: Option<usize>)
    requires
        i <= s.len(),
    ensures
        position(r) == quoted_end(s@, i as int, word@),
        r matches Some(e) ==> i < e <= s@.len(),
{
    if i >= s.len() || word.len() > s.len() - i - 1 {
        return None;
    }
    let j = i + 1 + word.len();
    if byte_eq(s, i, 0x27) && tag_at(s, i + 1, word) && byte_eq(s, j, 0x27) {
        Some(j + 1)
    } else if byte_eq(s, i, 0x22) && tag_at(s, i + 1, word) && byte_eq(s, j, 0x22) {
        Some(j + 1)
    } else {
        None
    }
}

/// The end of a key at `i`: `word`, bare or quoted, then `:` with the white
/// space round it.
fn key(s: &[u8], i: usize, word: &[u8]) -> (r: Option<usize>)
    requires
        i <= s.len(),
    ensures
        position(r) == key_end(s@, i as int, word@),
        r matches Some(e) ==> i < e <= s@.len(),
{
    let a = if tag_at(s, i, word) {
        assert(key_word_end(s@, i as int, word@) == Some(i + word@.len()));
        i + word.len()
    } else {
        match quoted(s, i, word) {
            Some(a) => a,
            None => return None,
        }
    };
    assert(key_word_end(s@, i as int, word@) == Some(a as int));
    let b = ws(s, a);
    if byte_eq(s, b, 0x3a) {
        Some(ws(s, b + 1))
    } else {
        None
    }
}

/// What a parsed geometry denotes.
pub open spec fn geometry_result(r: Option<(usize, Geometry<CoordText>)>) -> Option<(int, Shape)> {
    match r {
        None => None,
        Some((e, g)) => Some((e as int, shape_of(g))),
    }
}

/// Reads the coordinates of kind `k` (0 to 5) at `i`.
fn values(s: &[u8], i: usize, k: usize) -> (r: Option<(usize, Geometry<CoordText>)>)
    requires
        i <= s.len(),
        k <= 5,
    ensures
        geometry_result(r) == values_at(s@, i as int, k as int),
        r matches Some((e, _)) ==> i < e <= s@.len(),
{
    if k == 0 {
        match coordinate(s, i) {
            Some((e, c)) => Some((e, Geometry::Point(c))),
            None => None,
        }
    } else if k == 1 {
        match coordinate_list(s, i) {
            Some((e, v)) => Some((e, Geometry::Line(v))),
            None => None,
        }
    } else if k == 2 {
        match polygon(s, i) {
            Some((e, p)) => Some((e, Geometry::Polygon(p))),
            None => None,
        }
    } else if k == 3 {
        match coordinate_list(s, i) {
            Some((e, v)) => Some((e, Geometry::MultiPoint(v))),
            None => None,
        }
    } else if k == 4 {
        match line_list(s, i, false) {
            Some((e, v)) => Some((e, Geometry::MultiLine(v))),
            None => None,
        }
    } else {
        match polygon_list(s, i) {
            Some((e, v)) => Some((e, Geometry::MultiPolygon(v))),
            None => None,
        }
    }
}

/// Reads the body of an object of kind `k` (0 to 5) at `i`: the type and
/// the coordinates, in either order.
fn kind_body(s: &[u8], i: usize, k: usize) -> (r: Option<(usize, Geometry<CoordText>)>)
    requires
        i <= s.len(),
        k <= 5,
    ensures
        geometry_result(r) == kind_at(s@, i as int, k as int),
        r matches Some((e, _)) ==> i < e <= s@.len(),
{
    let type_word = key_bytes(0);
    let coordinates_word = key_bytes(1);
    let kind = kind_word_bytes(k);
    let type_first = match key(s, i, type_word.as_slice()) {
        None => None,
        Some(a) => match quoted(s, a, kind.as_slice()) {
            None => None,
            Some(b) => match comma(s, b) {
                None => None,
                Some(c) => match key(s, c, coordinates_word.as_slice()) {
                    None => None,
                    Some(d) => values(s, d, k),
                },
            },
        },
    };
    if type_first.is_some() {
        return type_first;
    }
    match key(s, i, coordinates_word.as_slice()) {
        None => None,
        Some(d) => match values(s, d, k) {
            None => None,
            Some((e, g)) => match comma(s, e) {
                None => None,
                Some(f) => match key(s, f, type_word.as_slice()) {
                    None => None,
                    Some(h) => match quoted(s, h, kind.as_slice()) {
                        None => None,
                        Some(j) => Some((j, g)),
                    },
                },
            },
        },
    }
}

/// Reads the body of the first of the kinds 0 to 5 that stands at `i`.
fn first_kind(s: &[u8], i: usize) -> (r: Option<(usize, Geometry<CoordText>)>)
    requires
        i <= s.len(),
    ensures
        geometry_result(r) == first_kind_at(s@, i as int, 0),
        r matches Some((e, _)) ==> i < e <= s@.len(),
{
    let mut k: usize = 0;
    while k < 6
        invariant
            i <= s.len(),
            k <= 6,
            first_kind_at(s@, i as int, 0) == first_kind_at(s@, i as int, k as int),
        decreases 6 - k,
    {
        let body = kind_body(s, i, k);
        if body.is_some() {
            return body;
        }
        k = k + 1;
    }
    None
}

/// Reads `(x, y)` at `i`, the short form of a point.
fn simple_point(s: &[u8], i: usize) -> (r: Option<(usize, Geometry<CoordText>)>)
    requires
        i <= s.len(),
    ensures
        geometry_result(r) == simple_point_at(s@, i as int),
        r matches Some((e, _)) ==> i < e <= s@.len(),
{
    if !byte_eq(s, i, 0x28) {
        return None;
    }
    let a = ws(s, i + 1);
    let b = match double(s, a) {
        Some(b) => b,
        None => return None,
    };
    let c = match comma(s, b) {
        Some(c) => c,
        None => return None,
    };
    let d = match double(s, c) {
        Some(d) => d,
        None => return None,
    };
    let e = ws(s, d);
    if !byte_eq(s, e, 0x29) {
        return None;
    }
    let p = CoordText { x: text_of(s, a, b), y: text_of(s, c, d) };
    assert(pair_of(p) == (lexeme_text(s@, a as int, b as int), lexeme_text(s@, c as int, d as int)));
    Some((e + 1, Geometry::Point(p)))
}

/// The end of the close of an object whose body ends at `b`.
fn close(s: &[u8], b: usize) -> (r: Option<usize>)
    requires
        b <= s.len(),
    ensures
        position(r) == object_close(s@, b as int),
        r matches Some(e) ==> b < e <= s@.len(),
{
    let c = ws(s, b);
    let d = if byte_eq(s, c, 0x2c) {
        c + 1
    } else {
        c
    };
    let e = ws(s, d);
    if byte_eq(s, e, 0x7d) {
        Some(e + 1)
    } else {
        None
    }
}

/// What a parsed list of geometries denotes.
pub open spec fn geometries_result(r: Option<(usize, Vec<Geometry<CoordText>>)>) -> Option<(int, Seq<Shape>)> {
    match r {
        None => None,
        Some((e, v)) => Some((e as int, shapes_of(v@))),
    }
}

proof fn lemma_shapes_push(v: Seq<Geometry<CoordText>>, g: Geometry<CoordText>)
    ensures
        shapes_of(v.push(g)) == shapes_of(v).push(shape_of(g)),
{
    assert(v.push(g).drop_last() =~= v);
}

/// Reads a geometry at `i`: the short form of a point, or an object.
pub fn geometry_at_position(s: &[u8], i: usize) -> (r: Option<(usize, Geometry<CoordText>)>)
    requires
        i <= s.len(),
    ensures
        geometry_result(r) == geometry_at(s@, i as int),
        r matches Some((e, _)) ==> i < e <= s@.len(),
    decreases s@.len() - i, 0int,
{
    let simple = simple_point(s, i);
    if simple.is_some() {
        return simple;
    }
    if !byte_eq(s, i, 0x7b) {
        return None;
    }
    let a = ws(s, i + 1);
    let body = match first_kind(s, a) {
        Some(found) => Some(found),
        None => {
            let type_word = key_bytes(0);
            let geometries_word = key_bytes(2);
            let kind = kind_word_bytes(6);
            let type_first = match key(s, a, type_word.as_slice()) {
                None => None,
                Some(b) => match quoted(s, b, kind.as_slice()) {
                    None => None,
                    Some(c) => match comma(s, c) {
                        None => None,
                        Some(d) => match key(s, d, geometries_word.as_slice()) {
                            None => None,
                            Some(e) => if byte_eq(s, e, 0x5b) {
                                let p = ws(s, e + 1);
                                match geometry_list(s, p) {
                                    None => None,
                                    Some((f, gs)) => Some((f, Geometry::Collection(gs))),
                                }
                            } else {
                                None
                            },
                        },
                    },
                },
            };
            if type_first.is_some() {
                type_first
            } else {
                match key(s, a, geometries_word.as_slice()) {
                    None => None,
                    Some(e) => if byte_eq(s, e, 0x5b) {
                        let p = ws(s, e + 1);
                        match geometry_list(s, p) {
                            None => None,
                            Some((f, gs)) => match comma(s, f) {
                                None => None,
                                Some(g) => match key(s, g, type_word.as_slice()) {
                                    None => None,
                                    Some(h) => match quoted(s, h, kind.as_slice()) {
                                        None => None,
                                        Some(j) => Some((j, Geometry::Collection(gs))),
                                    },
                                },
                            },
                        }
                    } else {
                        None
                    },
                }
            }
        },
    };
    match body {
        None => None,
        Some((b, g)) => match close(s, b) {
            None => None,
            Some(e) => Some((e, g)),
        },
    }
}

/// Reads the rest of a list of geometries whose `[` is behind `p`.
pub fn geometry_list(s: &[u8], p: usize) -> (r: Option<(usize, Vec<Geometry<CoordText>>)>)
    requires
        p <= s.len(),
    ensures
        geometries_result(r) == geometry_items(s@, p as int),
        r matches Some((e, _)) ==> p < e <= s@.len(),
    decreases s@.len() - p, 1int,
{
    let mut q = p;
    let mut acc: Vec<Geometry<CoordText>> = Vec::new();
    assert(shapes_of(acc@) =~= Seq::<Shape>::empty());
    assert(prepended(shapes_of(acc@), geometry_items(s@, q as int)) =~~= geometry_items(s@, q as int));
    loop
        invariant
            p <= q <= s.len(),
            geometry_items(s@, p as int) == prepended(shapes_of(acc@), geometry_items(s@, q as int)),
        decreases s@.len() - q,
    {
        let ghost a = shapes_of(acc@);
        if byte_eq(s, q, 0x5d) {
            proof {
                lemma_prepend_end(a, q + 1);
            }
            return Some((q + 1, acc));
        }
        let (t, g) = match geometry_at_position(s, q) {
            Some(found) => found,
            None => return None,
        };
        let ghost gv = shape_of(g);
        let t2 = ws(s, t);
        match comma(s, t2) {
            Some(r) => {
                proof {
                    lemma_prepend_step(a, gv, geometry_items(s@, r as int));
                    lemma_shapes_push(acc@, g);
                }
                acc.push(g);
                q = r;
            },
            None => {
                if byte_eq(s, t2, 0x5d) {
                    proof {
                        lemma_prepend_last(a, gv, t2 + 1);
                        lemma_shapes_push(acc@, g);
                    }
                    acc.push(g);
                    return Some((t2 + 1, acc));
                }
                return None;
            },
        }
    }
}

/// Reads a geometry at the start of `input` (the SurrealQL `geometry`
/// parser): the length consumed and the geometry, with its coordinates as the
/// texts that stand in the input and its rings as written. What the texts
/// denote (`str::parse::<f64>`) and the closing of polygon rings are the
/// caller's.
pub fn geometry(input: &str) -> (r: Option<(usize, Geometry<CoordText>)>)
    ensures
        geometry_result(r) == geometry_at(input.spec_bytes(), 0),
        r matches Some((e, _)) ==> 0 < e <= input.spec_bytes().len(),
{
    let s = input.as_bytes();
    geometry_at_position(s, 0)
}

} // verus!
