//! What `Geometry::to_text` writes, the geometry parser reads back: the same
//! shape, with the same coordinate texts, consuming the whole text. This holds
//! where every coordinate text is a number lexeme on its own and no polygon
//! has holes (the text of the holes has one bracket more than the grammar of
//! a polygon reads).
use crate::geometry::{CoordText, Geometry, Polygon};
use crate::geometry_grammar::{
    byte_is, comma_end, coordinate_at, double_end, has_tag, has_word_any_case, lexeme_text, pair_of, ws_end,
};
use crate::geometry_grammar::{
    coordinate_item, first_kind_at, geometry_at, key_end, kind_at, kind_word, line_at, line_item, list_at,
    list_items, object_close, pairs_of, polygon_at, values_at,
    polygon_item, polygon_of, polygons_of, quoted_end, rings_of, simple_point_at, word_coordinates,
    word_geometries, word_type, PairText, Shape,
};
use crate::geometry_grammar::{geometry_items, shape_of, shapes_of};
use crate::geometry_text::{
    geometries_text, geometry_text, joined, pair_text, points_text, polygon_text, polygons_text, ring_text,
    rings_text,
};
use crate::lexical::is_space_at;
use crate::number_text::ascii_chars;
use crate::lexical::{byte_at, digits_end, is_digit_at, sign_length};
use crate::number_text::float_lexeme_end;
use vstd::prelude::*;

verus! {

/// The bytes of an ASCII text.
pub open spec fn bytes_of(t: Seq<char>) -> Seq<u8> {
    t.map_values(|c: char| c as u8)
}

/// Every character of `t` is ASCII.
pub open spec fn is_ascii(t: Seq<char>) -> bool {
    forall|k: int| 0 <= k < t.len() ==> (#[trigger] t[k] as int) < 128
}

/// `t` is a coordinate text that the number grammar reads whole.
pub open spec fn number_lexeme(t: Seq<char>) -> bool {
    &&& is_ascii(t)
    &&& double_end(bytes_of(t), 0) == Some(t.len() as int)
}

/// A byte that ends a number in a written geometry: `,`, `]` or `)`.
pub open spec fn ends_lexeme(b: u8) -> bool {
    b == 0x2c || b == 0x5d || b == 0x29
}

/// `w` starts with `u` and then a byte that ends a number.
pub open spec fn extends(u: Seq<u8>, w: Seq<u8>) -> bool {
    &&& u.len() < w.len()
    &&& forall|k: int| 0 <= k < u.len() ==> w[k] == u[k]
    &&& ends_lexeme(w[u.len() as int])
}

proof fn lemma_digits_end_extends(u: Seq<u8>, w: Seq<u8>, j: int)
    requires
        extends(u, w),
        0 <= j <= u.len(),
    ensures
        digits_end(w, j) == digits_end(u, j),
    decreases u.len() - j,
{
    if j < u.len() {
        assert(byte_at(w, j) == byte_at(u, j));
        if is_digit_at(u, j) {
            lemma_digits_end_extends(u, w, j + 1);
        }
    } else {
        assert(!is_digit_at(w, j));
    }
}

proof fn lemma_bytes_agree(u: Seq<u8>, w: Seq<u8>, k: int)
    requires
        extends(u, w),
    ensures
        0 <= k < u.len() ==> byte_at(w, k) == byte_at(u, k),
        k == u.len() ==> byte_at(u, k) == -1 && ends_lexeme(w[k]) && byte_at(w, k) == w[k] as int,
{
}

/// A whole float lexeme is read the same where a `,`, `]` or `)` follows it.
#[verifier::rlimit(40)]
proof fn lemma_float_lexeme_extends(u: Seq<u8>, w: Seq<u8>)
    requires
        extends(u, w),
        float_lexeme_end(u) == Some(u.len() as int),
    ensures
        float_lexeme_end(w) == Some(u.len() as int),
{
    let n = u.len() as int;
    lemma_bytes_agree(u, w, 0);
    let i0 = sign_length(u, 0);
    assert(sign_length(w, 0) == i0);
    lemma_bytes_agree(u, w, i0);
    lemma_bytes_agree(u, w, i0 + 1);
    if i0 <= n {
        lemma_digits_end_extends(u, w, i0);
    }
    if i0 + 1 <= n {
        lemma_digits_end_extends(u, w, i0 + 1);
    }
    let mantissa_end = if is_digit_at(u, i0) {
        let j = digits_end(u, i0);
        lemma_bytes_agree(u, w, j);
        if byte_at(u, j) == 0x2e {
            lemma_digits_end_extends(u, w, j + 1);
            digits_end(u, j + 1)
        } else {
            j
        }
    } else if byte_at(u, i0) == 0x2e && is_digit_at(u, i0 + 1) {
        digits_end(u, i0 + 1)
    } else {
        -1
    };
    assert(0 <= mantissa_end <= n) by {
        crate::lexical::lemma_digits_end(u, i0);
        if i0 + 1 <= n {
            crate::lexical::lemma_digits_end(u, i0 + 1);
        }
        if is_digit_at(u, i0) && byte_at(u, digits_end(u, i0)) == 0x2e {
            crate::lexical::lemma_digits_end(u, digits_end(u, i0) + 1);
        }
    }
    lemma_bytes_agree(u, w, mantissa_end);
    lemma_bytes_agree(u, w, mantissa_end + 1);
    if byte_at(u, mantissa_end) == 0x65 || byte_at(u, mantissa_end) == 0x45 {
        let k = mantissa_end + 1 + sign_length(u, mantissa_end + 1);
        assert(sign_length(w, mantissa_end + 1) == sign_length(u, mantissa_end + 1));
        lemma_bytes_agree(u, w, k);
        lemma_digits_end_extends(u, w, k);
    }
}

/// A number lexeme is read whole where a `,`, `]` or `)` follows it.
pub proof fn lemma_double_extends(s: Seq<u8>, i: int, t: Seq<char>)
    requires
        number_lexeme(t),
        0 <= i,
        i + t.len() < s.len(),
        has_tag(s, i, bytes_of(t)),
        ends_lexeme(s[i + t.len()]),
    ensures
        double_end(s, i) == Some(i + t.len()),
{
    let u = bytes_of(t);
    let w = s.skip(i);
    assert forall|k: int| 0 <= k < u.len() implies w[k] == u[k] by {
        assert(s[i + k] == u[k]);
    }
    assert(extends(u, w));
    assert(u.skip(0) =~= u);
    match float_lexeme_end(u) {
        Some(e) => {
            lemma_float_lexeme_extends(u, w);
        },
        None => {
            assert(float_lexeme_end(w) is None) by {
                lemma_bytes_agree(u, w, 0);
                lemma_bytes_agree(u, w, 1);
                lemma_bytes_agree(u, w, 2);
            }
            assert(has_word_any_case(s, i, seq![0x6eu8, 0x61, 0x6e]) == has_word_any_case(u, 0, seq![0x6eu8, 0x61, 0x6e]));
            assert(has_word_any_case(s, i, seq![0x69u8, 0x6e, 0x66]) == has_word_any_case(u, 0, seq![0x69u8, 0x6e, 0x66]));
        },
    }
}

proof fn lemma_tag_split(s: Seq<u8>, i: int, a: Seq<u8>, b: Seq<u8>)
    requires
        has_tag(s, i, a + b),
    ensures
        has_tag(s, i, a),
        has_tag(s, i + a.len(), b),
{
    assert forall|k: int| 0 <= k < a.len() implies s[i + k] == a[k] by {
        assert((a + b)[k] == a[k]);
    }
    assert forall|k: int| 0 <= k < b.len() implies s[i + a.len() + k] == b[k] by {
        assert((a + b)[a.len() + k] == b[k]);
    }
}

proof fn lemma_ascii_char(c: char)
    requires
        (c as int) < 128,
    ensures
        ((c as u8) as char) == c,
        (c as u8) as int == c as int,
{
}

/// The text of ASCII bytes is the text they were written from.
proof fn lemma_ascii_text(t: Seq<char>)
    requires
        is_ascii(t),
    ensures
        ascii_chars(bytes_of(t)) == t,
{
    assert forall|k: int| 0 <= k < t.len() implies ((t[k] as u8) as char) == t[k] by {
        assert((t[k] as int) < 128);
        lemma_ascii_char(t[k]);
    }
    assert(ascii_chars(bytes_of(t)) =~= t);
}

/// The bytes at `[i, e)` are the text `t`.
proof fn lemma_lexeme_text(s: Seq<u8>, i: int, t: Seq<char>)
    requires
        is_ascii(t),
        has_tag(s, i, bytes_of(t)),
    ensures
        lexeme_text(s, i, i + t.len()) == t,
{
    assert(s.subrange(i, i + t.len()) =~= bytes_of(t));
    lemma_ascii_text(t);
}

/// A number lexeme is not empty and does not start with white space.
proof fn lemma_lexeme_start(t: Seq<char>)
    requires
        number_lexeme(t),
    ensures
        t.len() >= 1,
        !is_space_at(bytes_of(t), 0),
{
    let u = bytes_of(t);
    assert(u.skip(0) =~= u);
}

/// White space stops before a byte that is not white space.
proof fn lemma_ws_stop(s: Seq<u8>, i: int)
    requires
        0 <= i,
        !is_space_at(s, i),
    ensures
        ws_end(s, i) == i,
{
}

/// A single space is skipped.
proof fn lemma_ws_one(s: Seq<u8>, i: int)
    requires
        0 <= i < s.len(),
        s[i] == 0x20,
        !is_space_at(s, i + 1),
    ensures
        ws_end(s, i) == i + 1,
{
    assert(ws_end(s, i + 1) == i + 1);
}

/// A coordinate pair whose texts are number lexemes.
pub open spec fn writable_pair(c: CoordText) -> bool {
    number_lexeme(c.x@) && number_lexeme(c.y@)
}

/// The bytes of `t` stand at `i`: each byte there is a character of `t`.
proof fn lemma_tag_byte(s: Seq<u8>, i: int, t: Seq<char>, k: int)
    requires
        has_tag(s, i, bytes_of(t)),
        0 <= k < t.len(),
    ensures
        s[i + k] == t[k] as u8,
{
    assert(bytes_of(t)[k] == t[k] as u8);
    assert(s[i + k] == bytes_of(t)[k]);
}

/// The bytes of `t[a..]`'s prefix `u` stand at `i + a`.
proof fn lemma_tag_part(s: Seq<u8>, i: int, t: Seq<char>, a: int, u: Seq<char>)
    requires
        has_tag(s, i, bytes_of(t)),
        0 <= a,
        a + u.len() <= t.len(),
        forall|k: int| 0 <= k < u.len() ==> t[a + k] == u[k],
    ensures
        has_tag(s, i + a, bytes_of(u)),
{
    assert forall|k: int| 0 <= k < u.len() implies s[i + a + k] == bytes_of(u)[k] by {
        assert(s[i + (a + k)] == bytes_of(t)[a + k]);
    }
}

/// A written coordinate pair `[x, y]` reads back as that pair.
#[verifier::rlimit(40)]
pub proof fn lemma_pair_reads(s: Seq<u8>, i: int, c: CoordText)
    requires
        writable_pair(c),
        has_tag(s, i, bytes_of(pair_text(c))),
    ensures
        coordinate_at(s, i) == Some((i + pair_text(c).len(), pair_of(c))),
{
    let x = c.x@;
    let y = c.y@;
    let t = pair_text(c);
    reveal_strlit("[");
    reveal_strlit(", ");
    reveal_strlit("]");
    let a = i + 1;
    let b = a + x.len();
    let d = b + 2;
    let e = d + y.len();
    assert(t.len() == x.len() + y.len() + 4);
    assert(t[0] == '[');
    assert(t[b - i] == ',');
    assert(t[b - i + 1] == ' ');
    assert(t[e - i] == ']');
    lemma_tag_byte(s, i, t, 0);
    lemma_tag_byte(s, i, t, b - i);
    lemma_tag_byte(s, i, t, b - i + 1);
    lemma_tag_byte(s, i, t, e - i);
    lemma_tag_part(s, i, t, 1, x);
    lemma_tag_part(s, i, t, d - i, y);
    lemma_lexeme_start(x);
    lemma_lexeme_start(y);
    assert(s[a] == bytes_of(x)[0]);
    assert(s[d] == bytes_of(y)[0]);
    lemma_ws_stop(s, a);
    lemma_double_extends(s, a, x);
    lemma_ws_stop(s, b);
    lemma_ws_one(s, b + 1);
    lemma_double_extends(s, d, y);
    lemma_ws_stop(s, e);
    lemma_lexeme_text(s, a, x);
    lemma_lexeme_text(s, d, y);
}

/// `item` reads the text `t` at `q` as `v`.
pub open spec fn reads<A>(item: spec_fn(int) -> Option<(int, A)>, q: int, t: Seq<char>, v: A) -> bool {
    item(q) == Some((q + t.len(), v))
}

/// The text opens with `[`, `(` or `{`.
pub open spec fn opens(t: Seq<char>) -> bool {
    t.len() >= 1 && (t[0] == '[' || t[0] == '(' || t[0] == '{')
}

/// Joining from the front: the first item, `", "`, the rest joined.
proof fn lemma_joined_front(items: Seq<Seq<char>>)
    requires
        items.len() >= 1,
    ensures
        items.len() == 1 ==> joined(items) == items[0],
        items.len() >= 2 ==> joined(items) == items[0] + ", "@ + joined(items.drop_first()),
    decreases items.len(),
{
    if items.len() >= 3 {
        let init = items.drop_last();
        lemma_joined_front(init);
        assert(init.drop_first() =~= items.drop_first().drop_last());
        assert(joined(items.drop_first()) == joined(items.drop_first().drop_last()) + ", "@
            + items.drop_first().last());
        assert(joined(items) =~= items[0] + ", "@ + joined(items.drop_first()));
    } else if items.len() == 2 {
        assert(joined(items.drop_first()) == items.drop_first()[0]);
        assert(joined(items.drop_last()) == items.drop_last()[0]);
        assert(joined(items) == joined(items.drop_last()) + ", "@ + items.last());
    }
}

/// A written list of items `t[k]`, each read as `v[k]` wherever it stands,
/// followed by `]`, reads back as the list of the `v[k]`.
#[verifier::rlimit(40)]
pub proof fn lemma_list_reads<A>(
    s: Seq<u8>,
    p: int,
    item: spec_fn(int) -> Option<(int, A)>,
    first: bool,
    t: Seq<Seq<char>>,
    v: Seq<A>,
)
    requires
        t.len() == v.len(),
        first ==> t.len() >= 1,
        0 <= p,
        has_tag(s, p, bytes_of(joined(t) + "]"@)),
        forall|k: int| 0 <= k < t.len() ==> #[trigger] opens(t[k]),
        forall|q: int, k: int|
            0 <= k < t.len() && has_tag(s, q, bytes_of(t[k])) ==> #[trigger] reads(item, q, t[k], v[k]),
    ensures
        list_items(s, p, item, first) == Some((p + joined(t).len() + 1, v)),
    decreases t.len(),
{
    reveal_strlit("]");
    reveal_strlit(", ");
    let w = joined(t) + "]"@;
    if t.len() == 0 {
        assert(joined(t) =~= Seq::<char>::empty());
        assert(w[0] == ']');
        lemma_tag_byte(s, p, w, 0);
        assert(byte_is(s, p, 0x5d));
        assert(v =~= Seq::<A>::empty());
        assert(list_items(s, p, item, first) == Some((p + 1, Seq::<A>::empty())));
    } else {
        lemma_joined_front(t);
        let t0 = t[0];
        let q = p + t0.len();
        lemma_tag_part(s, p, w, 0, t0);
        assert(opens(t0));
        lemma_tag_byte(s, p, w, 0);
        assert(w[0] == t0[0]);
        assert(!byte_is(s, p, 0x5d));
        assert(reads(item, p, t[0], v[0]));
        lemma_tag_byte(s, p, w, t0.len() as int);
        lemma_ws_stop(s, q);
        assert(item(p) == Some((q, v[0])));
        if t.len() == 1 {
            assert(w[t0.len() as int] == ']');
            assert(s[q] == 0x5d);
            assert(comma_end(s, q) is None);
            assert(v =~= seq![v[0]]);
            assert(list_items(s, p, item, first) == Some((q + 1, seq![v[0]])));
        } else {
            let rest = t.drop_first();
            let r = q + 2;
            lemma_tag_byte(s, p, w, t0.len() + 1int);
            assert(s[q] == 0x2c);
            assert(s[q + 1] == 0x20);
            let w2 = joined(rest) + "]"@;
            lemma_tag_part(s, p, w, t0.len() + 2int, w2);
            assert(rest[0] == t[1]);
            lemma_joined_front(rest);
            assert(opens(t[1]));
            assert(opens(rest[0]));
            assert(w2[0] == rest[0][0]);
            lemma_tag_byte(s, r, w2, 0);
            assert(opens(rest[0]));
            assert(!is_space_at(s, r));
            lemma_ws_one(s, q + 1);
            assert(comma_end(s, q) == Some(r));
            assert forall|q1: int, k: int|
                0 <= k < rest.len() && has_tag(s, q1, bytes_of(rest[k])) implies #[trigger] reads(
                item,
                q1,
                rest[k],
                v.drop_first()[k],
            ) by {
                assert(reads(item, q1, t[k + 1], v[k + 1]));
            }
            assert forall|k: int| 0 <= k < rest.len() implies #[trigger] opens(rest[k]) by {
                assert(opens(t[k + 1]));
            }
            lemma_list_reads(s, r, item, false, rest, v.drop_first());
            assert(seq![v[0]] + v.drop_first() =~= v);
            assert(list_items(s, p, item, first) == Some((r + joined(rest).len() + 1, v)));
        }
    }
}

/// Where the words of two kinds first differ.
spec fn difference(j: int, k: int) -> int {
    if (j == 0 && k == 2) || (j == 2 && k == 0) {
        2
    } else if (j == 3 && k == 5) || (j == 5 && k == 3) {
        7
    } else if (j == 3 && k == 4) || (j == 4 && k == 3) || (j == 4 && k == 5) || (j == 5 && k == 4) {
        5
    } else {
        0
    }
}

proof fn lemma_kind_words_differ(j: int, k: int)
    requires
        0 <= j <= 6,
        0 <= k <= 6,
        j != k,
    ensures
        difference(j, k) < kind_word(j).len(),
        difference(j, k) < kind_word(k).len(),
        kind_word(j)[difference(j, k)] != kind_word(k)[difference(j, k)],
{
}

/// The key of the values of an object of kind `k`.
pub open spec fn values_key(k: int) -> Seq<u8> {
    if k == 6 {
        word_geometries()
    } else {
        word_coordinates()
    }
}

/// The written head of an object of kind `k` (1 to 6): `{ type: '`, the
/// kind's word, `', `, the key of its values, `: `.
pub open spec fn head_bytes(k: int) -> Seq<u8> {
    seq![0x7bu8, 0x20] + word_type() + seq![0x3au8, 0x20, 0x27] + kind_word(k) + seq![0x27u8, 0x2c, 0x20]
        + values_key(k) + seq![0x3au8, 0x20]
}

/// The bytes `t` stand at `i`: the byte at `i + m`.
proof fn lemma_tag_at(s: Seq<u8>, i: int, t: Seq<u8>, m: int)
    requires
        has_tag(s, i, t),
        0 <= m < t.len(),
    ensures
        s[i + m] == t[m],
{
}

/// The head of an object reads as its parts.
#[verifier::rlimit(40)]
pub proof fn lemma_head_reads(s: Seq<u8>, i: int, k: int)
    requires
        1 <= k <= 6,
        has_tag(s, i, head_bytes(k)),
        !is_space_at(s, i + head_bytes(k).len()),
    ensures
        byte_is(s, i, 0x7b),
        !byte_is(s, i, 0x28),
        ws_end(s, i + 1) == i + 2,
        key_end(s, i + 2, word_type()) == Some(i + 8),
        forall|j: int| 0 <= j <= 6 && j != k ==> quoted_end(s, i + 8, #[trigger] kind_word(j)) is None,
        quoted_end(s, i + 8, kind_word(k)) == Some(i + 10 + kind_word(k).len()),
        comma_end(s, i + 10 + kind_word(k).len()) == Some(i + 12 + kind_word(k).len()),
        key_end(s, i + 12 + kind_word(k).len(), values_key(k)) == Some(i + head_bytes(k).len()),
        key_end(s, i + 2, word_coordinates()) is None,
        key_end(s, i + 2, word_geometries()) is None,
{
    let o = seq![0x7bu8, 0x20];
    let c1 = seq![0x3au8, 0x20, 0x27];
    let w = kind_word(k);
    let c2 = seq![0x27u8, 0x2c, 0x20];
    let key = values_key(k);
    let c3 = seq![0x3au8, 0x20];
    let n = w.len() as int;
    lemma_tag_split(s, i, o + word_type() + c1 + w + c2 + key, c3);
    lemma_tag_split(s, i, o + word_type() + c1 + w + c2, key);
    lemma_tag_split(s, i, o + word_type() + c1 + w, c2);
    lemma_tag_split(s, i, o + word_type() + c1, w);
    lemma_tag_split(s, i, o + word_type(), c1);
    lemma_tag_split(s, i, o, word_type());
    lemma_tag_at(s, i, o, 0);
    lemma_tag_at(s, i, o, 1);
    lemma_tag_at(s, i + 6, c1, 0);
    lemma_tag_at(s, i + 6, c1, 1);
    lemma_tag_at(s, i + 6, c1, 2);
    lemma_tag_at(s, i + 9 + n, c2, 0);
    lemma_tag_at(s, i + 9 + n, c2, 1);
    lemma_tag_at(s, i + 9 + n, c2, 2);
    lemma_tag_at(s, i + 12 + n + key.len(), c3, 0);
    lemma_tag_at(s, i + 12 + n + key.len(), c3, 1);
    lemma_tag_at(s, i + 2, word_type(), 0);
    lemma_tag_at(s, i + 12 + n, key, 0);
    assert(ws_end(s, i + 2) == i + 2);
    lemma_ws_one(s, i + 1);
    lemma_ws_one(s, i + 7);
    lemma_ws_one(s, i + 11 + n);
    lemma_ws_one(s, i + 13 + n + key.len());
    assert(ws_end(s, i + 6) == i + 6);
    assert(ws_end(s, i + 10 + n) == i + 10 + n);
    assert(ws_end(s, i + 12 + n + key.len()) == i + 12 + n + key.len());
    assert forall|j: int| 0 <= j <= 6 && j != k implies quoted_end(s, i + 8, #[trigger] kind_word(j)) is None by {
        lemma_kind_words_differ(j, k);
        let m = difference(j, k);
        lemma_tag_at(s, i + 9, w, m);
    }
    assert(!has_tag(s, i + 2, word_coordinates())) by {
        assert(s[i + 2 + 0] != word_coordinates()[0]);
    }
    assert(!has_tag(s, i + 2, word_geometries())) by {
        assert(s[i + 2 + 0] != word_geometries()[0]);
    }
}

/// A written list `[` items `]` reads back as the list of what its items read as.
pub proof fn lemma_bracket_reads<A>(
    s: Seq<u8>,
    i: int,
    item: spec_fn(int) -> Option<(int, A)>,
    first: bool,
    t: Seq<Seq<char>>,
    v: Seq<A>,
)
    requires
        t.len() == v.len(),
        first ==> t.len() >= 1,
        0 <= i,
        has_tag(s, i, bytes_of("["@ + joined(t) + "]"@)),
        forall|k: int| 0 <= k < t.len() ==> #[trigger] opens(t[k]),
        forall|q: int, k: int|
            0 <= k < t.len() && has_tag(s, q, bytes_of(t[k])) ==> #[trigger] reads(item, q, t[k], v[k]),
    ensures
        list_at(s, i, item, first) == Some((i + joined(t).len() + 2, v)),
{
    reveal_strlit("[");
    reveal_strlit("]");
    let w = "["@ + joined(t) + "]"@;
    let inner = joined(t) + "]"@;
    lemma_tag_byte(s, i, w, 0);
    lemma_tag_part(s, i, w, 1, inner);
    lemma_tag_byte(s, i + 1, inner, 0);
    if t.len() >= 1 {
        lemma_joined_front(t);
        assert(opens(t[0]));
        assert(inner[0] == t[0][0]);
    } else {
        assert(joined(t) =~= Seq::<char>::empty());
    }
    lemma_ws_stop(s, i + 1);
    lemma_list_reads(s, i + 1, item, first, t, v);
}

/// Coordinate pairs whose texts are number lexemes.
pub open spec fn writable_pairs(cs: Seq<CoordText>) -> bool {
    forall|k: int| 0 <= k < cs.len() ==> #[trigger] writable_pair(cs[k])
}

/// Rings of such pairs.
pub open spec fn writable_rings(rs: Seq<Vec<CoordText>>) -> bool {
    forall|k: int| 0 <= k < rs.len() ==> #[trigger] writable_pairs(rs[k]@)
}

/// A polygon without holes whose exterior ring is of such pairs.
pub open spec fn writable_polygon(p: Polygon<CoordText>) -> bool {
    writable_pairs(p.exterior@) && p.interiors@.len() == 0
}

/// Polygons of that kind.
pub open spec fn writable_polygons(ps: Seq<Polygon<CoordText>>) -> bool {
    forall|k: int| 0 <= k < ps.len() ==> #[trigger] writable_polygon(ps[k])
}

/// A written list of coordinate pairs reads back as those pairs.
pub proof fn lemma_points_reads(s: Seq<u8>, i: int, cs: Seq<CoordText>)
    requires
        0 <= i,
        writable_pairs(cs),
        has_tag(s, i, bytes_of("["@ + points_text(cs) + "]"@)),
    ensures
        list_at(s, i, coordinate_item(s), false) == Some((i + points_text(cs).len() + 2, pairs_of(cs))),
{
    reveal_strlit("[");
    let t = cs.map_values(|c: CoordText| pair_text(c));
    let v = pairs_of(cs);
    assert forall|k: int| 0 <= k < t.len() implies #[trigger] opens(t[k]) by {
        assert(t[k] == pair_text(cs[k]));
    }
    assert forall|q: int, k: int| 0 <= k < t.len() && has_tag(s, q, bytes_of(t[k])) implies #[trigger] reads(
        coordinate_item(s),
        q,
        t[k],
        v[k],
    ) by {
        assert(writable_pair(cs[k]));
        lemma_pair_reads(s, q, cs[k]);
    }
    lemma_bracket_reads(s, i, coordinate_item(s), false, t, v);
}

/// A written list of rings reads back as those rings.
pub proof fn lemma_rings_reads(s: Seq<u8>, i: int, rs: Seq<Vec<CoordText>>, first: bool)
    requires
        0 <= i,
        writable_rings(rs),
        first ==> rs.len() >= 1,
        has_tag(s, i, bytes_of("["@ + rings_text(rs) + "]"@)),
    ensures
        list_at(s, i, line_item(s), first) == Some((i + rings_text(rs).len() + 2, rings_of(rs))),
{
    reveal_strlit("[");
    reveal_strlit("]");
    let t = rs.map_values(|r: Vec<CoordText>| ring_text(r@));
    let v = rings_of(rs);
    assert forall|k: int| 0 <= k < t.len() implies #[trigger] opens(t[k]) by {
        assert(t[k] == ring_text(rs[k]@));
    }
    assert forall|q: int, k: int| 0 <= k < t.len() && has_tag(s, q, bytes_of(t[k])) implies #[trigger] reads(
        line_item(s),
        q,
        t[k],
        v[k],
    ) by {
        assert(writable_pairs(rs[k]@));
        assert(t[k] == ring_text(rs[k]@));
        lemma_points_reads(s, q, rs[k]@);
        assert(line_at(s, q) == list_at(s, q, coordinate_item(s), false));
        assert(v[k] == pairs_of(rs[k]@));
        assert(t[k].len() == points_text(rs[k]@).len() + 2);
        assert(line_item(s)(q) == line_at(s, q));
    }
    lemma_bracket_reads(s, i, line_item(s), first, t, v);
}

/// A written polygon without holes reads back as that polygon.
#[verifier::rlimit(40)]
pub proof fn lemma_polygon_reads(s: Seq<u8>, i: int, p: Polygon<CoordText>)
    requires
        0 <= i,
        writable_polygon(p),
        has_tag(s, i, bytes_of(polygon_text(p))),
    ensures
        polygon_at(s, i) == Some((i + polygon_text(p).len(), polygon_of(p))),
{
    reveal_strlit("[");
    reveal_strlit("[[");
    reveal_strlit("]");
    let rs = seq![p.exterior];
    let one = rs.map_values(|r: Vec<CoordText>| ring_text(r@));
    assert(one =~= seq![ring_text(p.exterior@)]);
    assert(rings_text(rs) == ring_text(p.exterior@));
    assert(polygon_text(p) =~= "["@ + rings_text(rs) + "]"@);
    assert(writable_pairs(rs[0]@));
    assert(writable_rings(rs));
    lemma_rings_reads(s, i, rs, true);
    assert(rings_of(rs) =~= seq![pairs_of(p.exterior@)]);
    assert(rings_of(rs).drop_first() =~= rings_of(p.interiors@));
}

/// A written list of polygons without holes reads back as those polygons.
pub proof fn lemma_polygons_reads(s: Seq<u8>, i: int, ps: Seq<Polygon<CoordText>>)
    requires
        0 <= i,
        writable_polygons(ps),
        has_tag(s, i, bytes_of("["@ + polygons_text(ps) + "]"@)),
    ensures
        list_at(s, i, polygon_item(s), false) == Some((i + polygons_text(ps).len() + 2, polygons_of(ps))),
{
    reveal_strlit("[[");
    let t = ps.map_values(|p: Polygon<CoordText>| polygon_text(p));
    let v = polygons_of(ps);
    assert forall|k: int| 0 <= k < t.len() implies #[trigger] opens(t[k]) by {
        assert(t[k] == polygon_text(ps[k]));
    }
    assert forall|q: int, k: int| 0 <= k < t.len() && has_tag(s, q, bytes_of(t[k])) implies #[trigger] reads(
        polygon_item(s),
        q,
        t[k],
        v[k],
    ) by {
        assert(writable_polygon(ps[k]));
        assert(t[k] == polygon_text(ps[k]));
        lemma_polygon_reads(s, q, ps[k]);
    }
    lemma_bracket_reads(s, i, polygon_item(s), false, t, v);
}

/// The written head of an object of kind `k` (1 to 6).
pub open spec fn head_text(k: int) -> Seq<char> {
    if k == 1 {
        "{ type: 'LineString', coordinates: "@
    } else if k == 2 {
        "{ type: 'Polygon', coordinates: "@
    } else if k == 3 {
        "{ type: 'MultiPoint', coordinates: "@
    } else if k == 4 {
        "{ type: 'MultiLineString', coordinates: "@
    } else if k == 5 {
        "{ type: 'MultiPolygon', coordinates: "@
    } else {
        "{ type: 'GeometryCollection', geometries: "@
    }
}

proof fn lemma_head_text_bytes(k: int)
    requires
        1 <= k <= 6,
    ensures
        bytes_of(head_text(k)) == head_bytes(k),
        is_ascii(head_text(k)),
{
    if k == 1 {
        reveal_strlit("{ type: 'LineString', coordinates: ");
    } else if k == 2 {
        reveal_strlit("{ type: 'Polygon', coordinates: ");
    } else if k == 3 {
        reveal_strlit("{ type: 'MultiPoint', coordinates: ");
    } else if k == 4 {
        reveal_strlit("{ type: 'MultiLineString', coordinates: ");
    } else if k == 5 {
        reveal_strlit("{ type: 'MultiPolygon', coordinates: ");
    } else {
        reveal_strlit("{ type: 'GeometryCollection', geometries: ");
    }
    assert(bytes_of(head_text(k)) =~= head_bytes(k));
}

/// Kinds whose bodies do not stand at `a` are passed over.
proof fn lemma_first_kind_skips(s: Seq<u8>, a: int, j: int, k: int)
    requires
        0 <= j <= k <= 6,
        forall|m: int| j <= m < k ==> #[trigger] kind_at(s, a, m) is None,
    ensures
        first_kind_at(s, a, j) == first_kind_at(s, a, k),
    decreases k - j,
{
    if j < k {
        assert(kind_at(s, a, j) is None);
        lemma_first_kind_skips(s, a, j + 1, k);
    }
}

/// The body of no kind but `k` stands after the head of an object of kind `k`.
proof fn lemma_other_kinds_fail(s: Seq<u8>, i: int, k: int, m: int)
    requires
        1 <= k <= 6,
        0 <= m <= 5,
        m != k,
        has_tag(s, i, head_bytes(k)),
        !is_space_at(s, i + head_bytes(k).len()),
    ensures
        kind_at(s, i + 2, m) is None,
{
    lemma_head_reads(s, i, k);
    assert(quoted_end(s, i + 8, kind_word(m)) is None);
}

/// The close of an object: ` }`.
proof fn lemma_close_reads(s: Seq<u8>, b: int)
    requires
        0 <= b,
        b + 1 < s.len(),
        s[b] == 0x20,
        s[b + 1] == 0x7d,
    ensures
        object_close(s, b) == Some(b + 2),
{
    lemma_ws_one(s, b);
    lemma_ws_stop(s, b + 1);
}

/// A written object of kind `k` (1 to 5) whose values read back as `shape`
/// reads back as `shape`.
#[verifier::rlimit(40)]
proof fn lemma_object_reads(s: Seq<u8>, i: int, k: int, body: Seq<char>, shape: Shape)
    requires
        1 <= k <= 5,
        0 <= i,
        opens(body),
        has_tag(s, i, bytes_of(head_text(k) + body + " }"@)),
        values_at(s, i + head_text(k).len(), k) == Some((i + head_text(k).len() + body.len(), shape)),
    ensures
        geometry_at(s, i) == Some((i + head_text(k).len() + body.len() + 2, shape)),
{
    reveal_strlit(" }");
    let text = head_text(k) + body + " }"@;
    let h = head_text(k).len() as int;
    lemma_head_text_bytes(k);
    lemma_tag_part(s, i, text, 0, head_text(k));
    lemma_tag_byte(s, i, text, h);
    lemma_tag_byte(s, i, text, h + body.len());
    lemma_tag_byte(s, i, text, h + body.len() + 1);
    assert(text[h] == body[0]);
    assert(!is_space_at(s, i + h));
    lemma_head_reads(s, i, k);
    assert forall|m: int| 0 <= m < k implies #[trigger] kind_at(s, i + 2, m) is None by {
        lemma_other_kinds_fail(s, i, k, m);
    }
    lemma_first_kind_skips(s, i + 2, 0, k);
    assert(kind_at(s, i + 2, k) == Some((i + h + body.len(), shape)));
    lemma_close_reads(s, i + h + body.len());
}

/// A written point `(x, y)` reads back as that point.
#[verifier::rlimit(40)]
proof fn lemma_simple_point_reads(s: Seq<u8>, i: int, c: CoordText)
    requires
        0 <= i,
        writable_pair(c),
        has_tag(s, i, bytes_of(geometry_text(Geometry::Point(c)))),
    ensures
        simple_point_at(s, i) == Some((i + geometry_text(Geometry::Point(c)).len(), Shape::Point(pair_of(c)))),
{
    let x = c.x@;
    let y = c.y@;
    let t = geometry_text(Geometry::Point(c));
    reveal_strlit("(");
    reveal_strlit(", ");
    reveal_strlit(")");
    let a = i + 1;
    let b = a + x.len();
    let d = b + 2;
    let e = d + y.len();
    assert(t.len() == x.len() + y.len() + 4);
    assert(t[0] == '(');
    assert(t[b - i] == ',');
    assert(t[b - i + 1] == ' ');
    assert(t[e - i] == ')');
    lemma_tag_byte(s, i, t, 0);
    lemma_tag_byte(s, i, t, b - i);
    lemma_tag_byte(s, i, t, b - i + 1);
    lemma_tag_byte(s, i, t, e - i);
    lemma_tag_part(s, i, t, 1, x);
    lemma_tag_part(s, i, t, d - i, y);
    lemma_lexeme_start(x);
    lemma_lexeme_start(y);
    assert(s[a] == bytes_of(x)[0]);
    assert(s[d] == bytes_of(y)[0]);
    lemma_ws_stop(s, a);
    lemma_double_extends(s, a, x);
    lemma_ws_stop(s, b);
    lemma_ws_one(s, b + 1);
    assert(comma_end(s, b) == Some(d));
    lemma_double_extends(s, d, y);
    lemma_ws_stop(s, e);
    lemma_lexeme_text(s, a, x);
    lemma_lexeme_text(s, d, y);
}

/// The geometries' texts are their texts joined.
proof fn lemma_geometries_text_joined(gs: Seq<Geometry<CoordText>>)
    ensures
        geometries_text(gs) == joined(gs.map_values(|g: Geometry<CoordText>| geometry_text(g))),
    decreases gs.len(),
{
    let t = gs.map_values(|g: Geometry<CoordText>| geometry_text(g));
    if gs.len() >= 2 {
        lemma_geometries_text_joined(gs.drop_last());
        assert(gs.drop_last().map_values(|g: Geometry<CoordText>| geometry_text(g)) =~= t.drop_last());
    } else if gs.len() == 1 {
    } else {
    }
}

/// The shapes of geometries, one by one.
proof fn lemma_shapes_of(gs: Seq<Geometry<CoordText>>)
    ensures
        shapes_of(gs) == gs.map_values(|g: Geometry<CoordText>| shape_of(g)),
    decreases gs.len(),
{
    if gs.len() > 0 {
        lemma_shapes_of(gs.drop_last());
        assert(gs.map_values(|g: Geometry<CoordText>| shape_of(g)) =~= gs.drop_last().map_values(
            |g: Geometry<CoordText>| shape_of(g),
        ).push(shape_of(gs.last())));
    } else {
        assert(gs.map_values(|g: Geometry<CoordText>| shape_of(g)) =~= Seq::<Shape>::empty());
    }
}

/// The parser of geometries, as a function of the position.
pub open spec fn geometry_item(s: Seq<u8>) -> spec_fn(int) -> Option<(int, Shape)> {
    |q: int| geometry_at(s, q)
}

/// The rest of a list of geometries is the list grammar over geometries.
proof fn lemma_geometry_items_list(s: Seq<u8>, p: int)
    ensures
        geometry_items(s, p) == list_items(s, p, geometry_item(s), false),
    decreases s.len() - p,
{
    if 0 <= p <= s.len() && !byte_is(s, p, 0x5d) {
        match geometry_at(s, p) {
            None => {},
            Some((q, g)) => {
                let q2 = ws_end(s, q);
                match comma_end(s, q2) {
                    Some(r) => {
                        if p < r <= s.len() {
                            lemma_geometry_items_list(s, r);
                        }
                    },
                    None => {},
                }
            },
        }
    }
}

/// A written geometry opens with `(` or `{`.
proof fn lemma_geometry_text_opens(g: Geometry<CoordText>)
    ensures
        opens(geometry_text(g)),
{
    reveal_strlit("(");
    reveal_strlit("{ type: 'LineString', coordinates: [");
    reveal_strlit("{ type: 'Polygon', coordinates: ");
    reveal_strlit("{ type: 'MultiPoint', coordinates: [");
    reveal_strlit("{ type: 'MultiLineString', coordinates: [");
    reveal_strlit("{ type: 'MultiPolygon', coordinates: [");
    reveal_strlit("{ type: 'GeometryCollection', geometries: [");
}

/// A geometry that its text form reads back as: every coordinate text a
/// number lexeme, no polygon with holes.
pub open spec fn writable(g: Geometry<CoordText>) -> bool
    decreases g,
{
    match g {
        Geometry::Point(c) => writable_pair(c),
        Geometry::Line(v) => writable_pairs(v@),
        Geometry::Polygon(p) => writable_polygon(p),
        Geometry::MultiPoint(v) => writable_pairs(v@),
        Geometry::MultiLine(v) => writable_rings(v@),
        Geometry::MultiPolygon(v) => writable_polygons(v@),
        Geometry::Collection(v) => writable_all(v@),
    }
}

/// Every one of the geometries is `writable`.
pub open spec fn writable_all(gs: Seq<Geometry<CoordText>>) -> bool
    decreases gs,
{
    if gs.len() == 0 {
        true
    } else {
        writable_all(gs.drop_last()) && writable(gs.last())
    }
}

proof fn lemma_writable_all(gs: Seq<Geometry<CoordText>>, k: int)
    requires
        writable_all(gs),
        0 <= k < gs.len(),
    ensures
        writable(gs[k]),
    decreases gs.len(),
{
    if k < gs.len() - 1 {
        lemma_writable_all(gs.drop_last(), k);
    }
}

proof fn lemma_line_text(v: Vec<CoordText>)
    ensures
        geometry_text(Geometry::Line(v)) == head_text(1) + ("["@ + points_text(v@) + "]"@) + " }"@,
{
    reveal_strlit("[");
    reveal_strlit("]");
    reveal_strlit(" }");
    reveal_strlit("] }");
    reveal_strlit("{ type: 'LineString', coordinates: [");
    reveal_strlit("{ type: 'LineString', coordinates: ");
    assert(geometry_text(Geometry::Line(v)) =~= head_text(1) + ("["@ + points_text(v@) + "]"@) + " }"@);
}

proof fn lemma_line_values(s: Seq<u8>, d: int, v: Vec<CoordText>)
    requires
        0 <= d,
        writable_pairs(v@),
        has_tag(s, d, bytes_of("["@ + points_text(v@) + "]"@)),
    ensures
        values_at(s, d, 1) == Some((d + ("["@ + points_text(v@) + "]"@).len(), shape_of(Geometry::Line(v)))),
{
    reveal_strlit("[");
    reveal_strlit("]");
    lemma_points_reads(s, d, v@);
}

#[verifier::spinoff_prover]
#[verifier::rlimit(40)]
proof fn lemma_line_reads(s: Seq<u8>, i: int, v: Vec<CoordText>)
    requires
        0 <= i,
        writable_pairs(v@),
        has_tag(s, i, bytes_of(geometry_text(Geometry::Line(v)))),
    ensures
        geometry_at(s, i) == Some((i + geometry_text(Geometry::Line(v)).len(), shape_of(Geometry::Line(v)))),
{
    reveal_strlit("[");
    reveal_strlit(" }");
    let body = "["@ + points_text(v@) + "]"@;
    let text = head_text(1) + body + " }"@;
    lemma_line_text(v);
    let h = head_text(1).len() as int;
    lemma_tag_part(s, i, text, h, body);
    lemma_line_values(s, i + h, v);
    lemma_object_reads(s, i, 1, body, shape_of(Geometry::Line(v)));
}

proof fn lemma_multipoint_text(v: Vec<CoordText>)
    ensures
        geometry_text(Geometry::MultiPoint(v)) == head_text(3) + ("["@ + points_text(v@) + "]"@) + " }"@,
{
    reveal_strlit("[");
    reveal_strlit("]");
    reveal_strlit(" }");
    reveal_strlit("] }");
    reveal_strlit("{ type: 'MultiPoint', coordinates: [");
    reveal_strlit("{ type: 'MultiPoint', coordinates: ");
    assert(geometry_text(Geometry::MultiPoint(v)) =~= head_text(3) + ("["@ + points_text(v@) + "]"@) + " }"@);
}

proof fn lemma_multipoint_values(s: Seq<u8>, d: int, v: Vec<CoordText>)
    requires
        0 <= d,
        writable_pairs(v@),
        has_tag(s, d, bytes_of("["@ + points_text(v@) + "]"@)),
    ensures
        values_at(s, d, 3) == Some((d + ("["@ + points_text(v@) + "]"@).len(), shape_of(Geometry::MultiPoint(v)))),
{
    reveal_strlit("[");
    reveal_strlit("]");
    lemma_points_reads(s, d, v@);
}

#[verifier::spinoff_prover]
#[verifier::rlimit(40)]
proof fn lemma_multipoint_reads(s: Seq<u8>, i: int, v: Vec<CoordText>)
    requires
        0 <= i,
        writable_pairs(v@),
        has_tag(s, i, bytes_of(geometry_text(Geometry::MultiPoint(v)))),
    ensures
        geometry_at(s, i) == Some((i + geometry_text(Geometry::MultiPoint(v)).len(), shape_of(Geometry::MultiPoint(v)))),
{
    reveal_strlit("[");
    reveal_strlit(" }");
    let body = "["@ + points_text(v@) + "]"@;
    let text = head_text(3) + body + " }"@;
    lemma_multipoint_text(v);
    let h = head_text(3).len() as int;
    lemma_tag_part(s, i, text, h, body);
    lemma_multipoint_values(s, i + h, v);
    lemma_object_reads(s, i, 3, body, shape_of(Geometry::MultiPoint(v)));
}

proof fn lemma_multiline_text(v: Vec<Vec<CoordText>>)
    ensures
        geometry_text(Geometry::MultiLine(v)) == head_text(4) + ("["@ + rings_text(v@) + "]"@) + " }"@,
{
    reveal_strlit("[");
    reveal_strlit("]");
    reveal_strlit(" }");
    reveal_strlit("] }");
    reveal_strlit("{ type: 'MultiLineString', coordinates: [");
    reveal_strlit("{ type: 'MultiLineString', coordinates: ");
    assert(geometry_text(Geometry::MultiLine(v)) =~= head_text(4) + ("["@ + rings_text(v@) + "]"@) + " }"@);
}

proof fn lemma_multiline_values(s: Seq<u8>, d: int, v: Vec<Vec<CoordText>>)
    requires
        0 <= d,
        writable_rings(v@),
        has_tag(s, d, bytes_of("["@ + rings_text(v@) + "]"@)),
    ensures
        values_at(s, d, 4) == Some((d + ("["@ + rings_text(v@) + "]"@).len(), shape_of(Geometry::MultiLine(v)))),
{
    reveal_strlit("[");
    reveal_strlit("]");
    lemma_rings_reads(s, d, v@, false);
}

#[verifier::spinoff_prover]
#[verifier::rlimit(40)]
proof fn lemma_multiline_reads(s: Seq<u8>, i: int, v: Vec<Vec<CoordText>>)
    requires
        0 <= i,
        writable_rings(v@),
        has_tag(s, i, bytes_of(geometry_text(Geometry::MultiLine(v)))),
    ensures
        geometry_at(s, i) == Some((i + geometry_text(Geometry::MultiLine(v)).len(), shape_of(Geometry::MultiLine(v)))),
{
    reveal_strlit("[");
    reveal_strlit(" }");
    let body = "["@ + rings_text(v@) + "]"@;
    let text = head_text(4) + body + " }"@;
    lemma_multiline_text(v);
    let h = head_text(4).len() as int;
    lemma_tag_part(s, i, text, h, body);
    lemma_multiline_values(s, i + h, v);
    lemma_object_reads(s, i, 4, body, shape_of(Geometry::MultiLine(v)));
}

proof fn lemma_multipolygon_text(v: Vec<Polygon<CoordText>>)
    ensures
        geometry_text(Geometry::MultiPolygon(v)) == head_text(5) + ("["@ + polygons_text(v@) + "]"@) + " }"@,
{
    reveal_strlit("[");
    reveal_strlit("]");
    reveal_strlit(" }");
    reveal_strlit("] }");
    reveal_strlit("{ type: 'MultiPolygon', coordinates: [");
    reveal_strlit("{ type: 'MultiPolygon', coordinates: ");
    assert(geometry_text(Geometry::MultiPolygon(v)) =~= head_text(5) + ("["@ + polygons_text(v@) + "]"@) + " }"@);
}

proof fn lemma_multipolygon_values(s: Seq<u8>, d: int, v: Vec<Polygon<CoordText>>)
    requires
        0 <= d,
        writable_polygons(v@),
        has_tag(s, d, bytes_of("["@ + polygons_text(v@) + "]"@)),
    ensures
        values_at(s, d, 5) == Some((d + ("["@ + polygons_text(v@) + "]"@).len(), shape_of(Geometry::MultiPolygon(v)))),
{
    reveal_strlit("[");
    reveal_strlit("]");
    lemma_polygons_reads(s, d, v@);
}

#[verifier::spinoff_prover]
#[verifier::rlimit(40)]
proof fn lemma_multipolygon_reads(s: Seq<u8>, i: int, v: Vec<Polygon<CoordText>>)
    requires
        0 <= i,
        writable_polygons(v@),
        has_tag(s, i, bytes_of(geometry_text(Geometry::MultiPolygon(v)))),
    ensures
        geometry_at(s, i) == Some((i + geometry_text(Geometry::MultiPolygon(v)).len(), shape_of(Geometry::MultiPolygon(v)))),
{
    reveal_strlit("[");
    reveal_strlit(" }");
    let body = "["@ + polygons_text(v@) + "]"@;
    let text = head_text(5) + body + " }"@;
    lemma_multipolygon_text(v);
    let h = head_text(5).len() as int;
    lemma_tag_part(s, i, text, h, body);
    lemma_multipolygon_values(s, i + h, v);
    lemma_object_reads(s, i, 5, body, shape_of(Geometry::MultiPolygon(v)));
}

proof fn lemma_polygon_object_text(p: Polygon<CoordText>)
    ensures
        geometry_text(Geometry::Polygon(p)) == head_text(2) + polygon_text(p) + " }"@,
{
    reveal_strlit(" }");
    reveal_strlit("{ type: 'Polygon', coordinates: ");
    assert(geometry_text(Geometry::Polygon(p)) =~= head_text(2) + polygon_text(p) + " }"@);
}

proof fn lemma_polygon_values(s: Seq<u8>, d: int, p: Polygon<CoordText>)
    requires
        0 <= d,
        writable_polygon(p),
        has_tag(s, d, bytes_of(polygon_text(p))),
    ensures
        values_at(s, d, 2) == Some((d + polygon_text(p).len(), shape_of(Geometry::Polygon(p)))),
{
    lemma_polygon_reads(s, d, p);
}

#[verifier::spinoff_prover]
#[verifier::rlimit(40)]
proof fn lemma_polygon_object_reads(s: Seq<u8>, i: int, p: Polygon<CoordText>)
    requires
        0 <= i,
        writable_polygon(p),
        has_tag(s, i, bytes_of(geometry_text(Geometry::Polygon(p)))),
    ensures
        geometry_at(s, i) == Some((i + geometry_text(Geometry::Polygon(p)).len(), shape_of(Geometry::Polygon(p)))),
{
    reveal_strlit("[[");
    reveal_strlit(" }");
    let body = polygon_text(p);
    let text = head_text(2) + body + " }"@;
    lemma_polygon_object_text(p);
    let h = head_text(2).len() as int;
    lemma_tag_part(s, i, text, h, body);
    lemma_polygon_values(s, i + h, p);
    lemma_object_reads(s, i, 2, body, shape_of(Geometry::Polygon(p)));
}

/// The text of a collection: its head, `[`, its members' texts, `]`, ` }`.
proof fn lemma_collection_text(v: Vec<Geometry<CoordText>>)
    ensures
        geometry_text(Geometry::Collection(v)) == head_text(6) + ("["@ + geometries_text(v@) + "]"@) + " }"@,
{
    reveal_strlit("[");
    reveal_strlit("]");
    reveal_strlit(" }");
    reveal_strlit("] }");
    reveal_strlit("{ type: 'GeometryCollection', geometries: [");
    reveal_strlit("{ type: 'GeometryCollection', geometries: ");
    assert(geometry_text(Geometry::Collection(v)) =~= head_text(6) + ("["@ + geometries_text(v@) + "]"@)
        + " }"@);
}

/// The head of a written collection reads as such, up to its list of members.
#[verifier::rlimit(40)]
proof fn lemma_collection_head(s: Seq<u8>, i: int, body: Seq<char>)
    requires
        0 <= i,
        body.len() >= 2,
        body[0] == '[',
        body[1] == ']' || body[1] == '[' || body[1] == '(' || body[1] == '{',
        has_tag(s, i, bytes_of(head_text(6) + body + " }"@)),
    ensures
        first_kind_at(s, i + 2, 0) is None,
        key_end(s, i + 2, word_type()) == Some(i + 8),
        quoted_end(s, i + 8, kind_word(6)) == Some(i + 10 + kind_word(6).len()),
        comma_end(s, i + 10 + kind_word(6).len()) == Some(i + 12 + kind_word(6).len()),
        key_end(s, i + 12 + kind_word(6).len(), word_geometries()) == Some(i + head_text(6).len()),
        byte_is(s, i + head_text(6).len(), 0x5b),
        ws_end(s, i + head_text(6).len() + 1) == i + head_text(6).len() + 1,
        has_tag(s, i + head_text(6).len() + 1, bytes_of(body.drop_first())),
        object_close(s, i + head_text(6).len() + body.len()) == Some(i + head_text(6).len() + body.len() + 2),
        byte_is(s, i, 0x7b),
        !byte_is(s, i, 0x28),
        ws_end(s, i + 1) == i + 2,
{
    reveal_strlit(" }");
    let text = head_text(6) + body + " }"@;
    let h = head_text(6).len() as int;
    lemma_head_text_bytes(6);
    lemma_tag_part(s, i, text, 0, head_text(6));
    lemma_tag_part(s, i, text, h + 1, body.drop_first());
    lemma_tag_byte(s, i, text, h);
    lemma_tag_byte(s, i, text, h + 1);
    lemma_tag_byte(s, i, text, h + body.len());
    lemma_tag_byte(s, i, text, h + body.len() + 1);
    assert(!is_space_at(s, i + h));
    lemma_head_reads(s, i, 6);
    assert forall|m: int| 0 <= m < 6 implies #[trigger] kind_at(s, i + 2, m) is None by {
        lemma_other_kinds_fail(s, i, 6, m);
    }
    lemma_first_kind_skips(s, i + 2, 0, 6);
    lemma_ws_stop(s, i + h + 1);
    lemma_close_reads(s, i + h + body.len());
}

/// A collection object whose parts read as such reads as the collection.
#[verifier::rlimit(40)]
proof fn lemma_collection_at(s: Seq<u8>, i: int, e: int, f: int, shapes: Seq<Shape>)
    requires
        0 <= i,
        e == i + head_text(6).len(),
        e + 1 <= s.len(),
        first_kind_at(s, i + 2, 0) is None,
        key_end(s, i + 2, word_type()) == Some(i + 8),
        quoted_end(s, i + 8, kind_word(6)) == Some(i + 10 + kind_word(6).len()),
        comma_end(s, i + 10 + kind_word(6).len()) == Some(i + 12 + kind_word(6).len()),
        key_end(s, i + 12 + kind_word(6).len(), word_geometries()) == Some(e),
        byte_is(s, e, 0x5b),
        ws_end(s, e + 1) == e + 1,
        geometry_items(s, e + 1) == Some((f, shapes)),
        object_close(s, f) == Some(f + 2),
        byte_is(s, i, 0x7b),
        !byte_is(s, i, 0x28),
        ws_end(s, i + 1) == i + 2,
    ensures
        geometry_at(s, i) == Some((f + 2, Shape::Collection(shapes))),
{
    assert(simple_point_at(s, i) is None);
}

/// The members of a written collection, followed by `]`, read back as
/// their shapes.
#[verifier::rlimit(40)]
proof fn lemma_members_read(s: Seq<u8>, p: int, gs: Seq<Geometry<CoordText>>)
    requires
        0 <= p,
        writable_all(gs),
        has_tag(s, p, bytes_of(geometries_text(gs) + "]"@)),
    ensures
        geometry_items(s, p) == Some((p + geometries_text(gs).len() + 1, shapes_of(gs))),
    decreases gs,
{
    let t = gs.map_values(|x: Geometry<CoordText>| geometry_text(x));
    let shapes = gs.map_values(|x: Geometry<CoordText>| shape_of(x));
    lemma_geometries_text_joined(gs);
    lemma_shapes_of(gs);
    assert forall|k: int| 0 <= k < t.len() implies #[trigger] opens(t[k]) by {
        lemma_geometry_text_opens(gs[k]);
    }
    assert forall|q: int, k: int| 0 <= k < t.len() && has_tag(s, q, bytes_of(t[k])) implies #[trigger] reads(
        geometry_item(s),
        q,
        t[k],
        shapes[k],
    ) by {
        assert(decreases_to!(gs => gs[k]));
        lemma_writable_all(gs, k);
        lemma_geometry_reads(s, q, gs[k]);
    }
    lemma_list_reads(s, p, geometry_item(s), false, t, shapes);
    lemma_geometry_items_list(s, p);
}

/// The list of a collection's members opens with `[`, then `]` or a member.
proof fn lemma_members_body(gs: Seq<Geometry<CoordText>>)
    ensures
        ("["@ + geometries_text(gs) + "]"@).len() >= 2,
        ("["@ + geometries_text(gs) + "]"@)[0] == '[',
        ("["@ + geometries_text(gs) + "]"@)[1] == ']' || ("["@ + geometries_text(gs) + "]"@)[1] == '['
            || ("["@ + geometries_text(gs) + "]"@)[1] == '(' || ("["@ + geometries_text(gs) + "]"@)[1] == '{',
        ("["@ + geometries_text(gs) + "]"@).drop_first() == geometries_text(gs) + "]"@,
{
    reveal_strlit("[");
    reveal_strlit("]");
    let body = "["@ + geometries_text(gs) + "]"@;
    if gs.len() > 0 {
        let t = gs.map_values(|x: Geometry<CoordText>| geometry_text(x));
        lemma_geometries_text_joined(gs);
        lemma_joined_front(t);
        lemma_geometry_text_opens(gs[0]);
        assert(t[0] == geometry_text(gs[0]));
        assert(body[1] == t[0][0]);
    } else {
        assert(geometries_text(gs) =~= Seq::<char>::empty());
    }
    assert(body.drop_first() =~= geometries_text(gs) + "]"@);
}

/// A written collection reads back as the collection of its members' shapes.
#[verifier::rlimit(40)]
proof fn lemma_collection_reads(s: Seq<u8>, i: int, v: Vec<Geometry<CoordText>>)
    requires
        0 <= i,
        writable_all(v@),
        has_tag(s, i, bytes_of(geometry_text(Geometry::Collection(v)))),
    ensures
        geometry_at(s, i) == Some((i + geometry_text(Geometry::Collection(v)).len(), shape_of(Geometry::Collection(v)))),
    decreases v,
{
    reveal_strlit("[");
    reveal_strlit("]");
    reveal_strlit(" }");
    let gs = v@;
    lemma_collection_text(v);
    let body = "["@ + geometries_text(gs) + "]"@;
    let h = head_text(6).len() as int;
    let e = i + h;
    lemma_members_body(gs);
    lemma_collection_head(s, i, body);
    assert(decreases_to!(v => v@));
    lemma_members_read(s, e + 1, gs);
    lemma_collection_at(s, i, e, e + 1 + geometries_text(gs).len() + 1, shapes_of(gs));
}

/// What `Geometry::to_text` writes, the geometry parser reads back, where
/// every coordinate text is a number lexeme and no polygon has holes: the
/// same shape, with the same coordinate texts, ending where the text ends.
pub proof fn lemma_geometry_reads(s: Seq<u8>, i: int, g: Geometry<CoordText>)
    requires
        0 <= i,
        writable(g),
        has_tag(s, i, bytes_of(geometry_text(g))),
    ensures
        geometry_at(s, i) == Some((i + geometry_text(g).len(), shape_of(g))),
    decreases g,
{
    match g {
        Geometry::Point(c) => lemma_simple_point_reads(s, i, c),
        Geometry::Line(v) => lemma_line_reads(s, i, v),
        Geometry::Polygon(p) => lemma_polygon_object_reads(s, i, p),
        Geometry::MultiPoint(v) => lemma_multipoint_reads(s, i, v),
        Geometry::MultiLine(v) => lemma_multiline_reads(s, i, v),
        Geometry::MultiPolygon(v) => lemma_multipolygon_reads(s, i, v),
        Geometry::Collection(v) => {
            assert(decreases_to!(g => g->Collection_0));
            lemma_collection_reads(s, i, v);
        },
    }
}

/// The whole text of a geometry reads back as that geometry (the law above,
/// on the text alone): the parser consumes all of it and finds the same shape.
pub proof fn lemma_text_reads_back(g: Geometry<CoordText>)
    requires
        writable(g),
    ensures
        geometry_at(bytes_of(geometry_text(g)), 0) == Some(
            (bytes_of(geometry_text(g)).len() as int, shape_of(g)),
        ),
{
    let s = bytes_of(geometry_text(g));
    assert(has_tag(s, 0, s));
    lemma_geometry_reads(s, 0, g);
}

} // verus!
