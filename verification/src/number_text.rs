//! The SurrealQL text of numbers: scanning a number in a query, reading a
//! string as a number, and writing numbers back out.
use crate::binary64;
use crate::decimal::{self, Dec};
use crate::lexical::{
    byte_at, digit_run, digits_end, digits_value, int_text_value, is_digit_at, is_space_at, leading_int,
    lemma_digits_end, parse_int_text, read_leading_int, sign_length,
};
use crate::number::Number;
use vstd::prelude::*;
use vstd::string::StringSliceAdditionalSpecFns;

verus! {

/// The end of the float lexeme at the start of `s` (`nom`'s `recognize_float`):
/// an optional sign, then digits with an optional point and optional
/// digits after it, or a point and digits; then an optional exponent, an `e`
/// or `E`, an optional sign and digits (without them the lexeme fails).
pub open spec fn float_lexeme_end(s: Seq<u8>) -> Option<int> {
    let i0 = sign_length(s, 0);
    let mantissa_end = if is_digit_at(s, i0) {
        let j = digits_end(s, i0);
        if byte_at(s, j) == 0x2e {
            digits_end(s, j + 1)
        } else {
            j
        }
    } else if byte_at(s, i0) == 0x2e && is_digit_at(s, i0 + 1) {
        digits_end(s, i0 + 1)
    } else {
        -1
    };
    if mantissa_end < 0 {
        None
    } else if byte_at(s, mantissa_end) == 0x65 || byte_at(s, mantissa_end) == 0x45 {
        let k = mantissa_end + 1 + sign_length(s, mantissa_end + 1);
        if is_digit_at(s, k) {
            Some(digits_end(s, k))
        } else {
            None
        }
    } else {
        Some(mantissa_end)
    }
}

/// The byte as a lower-case ASCII letter where it is an upper-case one.
pub open spec fn lower(c: int) -> int {
    if 0x41 <= c <= 0x5a {
        c + 0x20
    } else {
        c
    }
}

/// `s[i..]` spells `word` (lower-case ASCII), ignoring the case of letters, and nothing follows.
pub open spec fn spells_rest(s: Seq<u8>, i: int, word: Seq<u8>) -> bool {
    &&& s.len() - i == word.len()
    &&& forall|k: int| 0 <= k < word.len() ==> lower(byte_at(s, i + k)) == word[k] as int
}

/// The whole of `s` is a binary64 literal that `f64::from_str` accepts: an
/// optional sign, then `inf`, `infinity` or `nan` in any case, or a decimal
/// number with an optional exponent.
pub open spec fn is_float_text(s: Seq<u8>) -> bool {
    let i0 = sign_length(s, 0);
    ||| spells_rest(s, i0, seq![0x69u8, 0x6e, 0x66])
    ||| spells_rest(s, i0, seq![0x69u8, 0x6e, 0x66, 0x69, 0x6e, 0x69, 0x74, 0x79])
    ||| spells_rest(s, i0, seq![0x6eu8, 0x61, 0x6e])
    ||| float_lexeme_end(s) == Some(s.len() as int)
}

/// What a text reads as, as a number: the number, or a float whose value is
/// `f64::from_str` of the text (`FloatText` with the length of that text).
#[derive(Clone, Copy, Debug)]
pub enum Scanned {
    Number(Number),
    FloatText(usize),
}

/// `Number::try_from(text)`: an `i64` where the text is one, else a float
/// where `f64::from_str` accepts it, else an error.
pub open spec fn text_reading(s: Seq<u8>, r: Result<Scanned, ()>) -> bool {
    match int_text_value(s) {
        Some(v) => r == Ok::<Scanned, ()>(Scanned::Number(Number::Int(v as i64))),
        None => if is_float_text(s) {
            r == Ok::<Scanned, ()>(Scanned::FloatText(s.len() as usize))
        } else {
            r == Err::<Scanned, ()>(())
        },
    }
}

/// The three letters `a`, `b`, `c` stand at `i`.
pub open spec fn tag3(s: Seq<u8>, i: int, a: u8, b: u8, c: u8) -> bool {
    byte_at(s, i) == a && byte_at(s, i + 1) == b && byte_at(s, i + 2) == c
}

/// What may follow a number: the end of the text, white space, or one of
/// `) ] } ; ,`.
pub open spec fn ends_number(s: Seq<u8>, i: int) -> bool {
    ||| i == s.len()
    ||| is_space_at(s, i)
    ||| byte_at(s, i) == 0x29
    ||| byte_at(s, i) == 0x5d
    ||| byte_at(s, i) == 0x7d
    ||| byte_at(s, i) == 0x3b
    ||| byte_at(s, i) == 0x2c
}

/// The suffix after the lexeme that ends at `e`: 0 for none, 1 for `f`
/// (float), 2 for `dec` (decimal).
pub open spec fn suffix_kind(s: Seq<u8>, e: int) -> int {
    if byte_at(s, e) == 0x66 {
        1
    } else if tag3(s, e, 0x64, 0x65, 0x63) {
        2
    } else {
        0
    }
}

pub open spec fn suffix_length(kind: int) -> int {
    if kind == 1 {
        1
    } else if kind == 2 {
        3
    } else {
        0
    }
}

/// What the number scanner finds at the start of `s`: `NaN`; or a float
/// lexeme, an optional suffix, and then an ending. Without a suffix the
/// lexeme is an `i64` where it reads as one and a float otherwise; with `f` a
/// float; with `dec` a decimal by `rust_decimal`'s `from_str` (which may
/// fail). `r` holds the length consumed.
pub open spec fn number_scan(s: Seq<u8>, r: Option<(usize, Scanned)>) -> bool {
    if tag3(s, 0, 0x4e, 0x61, 0x4e) {
        r == Some((3usize, Scanned::Number(Number::Float(binary64::NAN_BITS))))
    } else {
        match float_lexeme_end(s) {
            None => r is None,
            Some(e) => {
                let kind = suffix_kind(s, e);
                let p = e + suffix_length(kind);
                if !ends_number(s, p) {
                    r is None
                } else if kind == 0 {
                    match int_text_value(s.subrange(0, e)) {
                        Some(v) => r == Some((p as usize, Scanned::Number(Number::Int(v as i64)))),
                        None => r == Some((p as usize, Scanned::FloatText(e as usize))),
                    }
                } else if kind == 1 {
                    r == Some((p as usize, Scanned::FloatText(e as usize)))
                } else {
                    match decimal::decimal_from_text(s.subrange(0, e)) {
                        Some(d) => r matches Some((q, Scanned::Number(Number::Decimal(x)))) && q == p
                            && decimal::full(x) == d,
                        None => r is None,
                    }
                }
            },
        }
    }
}

/// Where the number scanner meets a plain decimal lexeme (`decimal::plain_decimal`)
/// in the range of `rust_decimal`, followed by `dec` and an ending: the length
/// consumed and the decimal in full that the lexeme denotes.
pub open spec fn plain_decimal_scan(s: Seq<u8>) -> Option<(int, (int, nat, bool))> {
    match float_lexeme_end(s) {
        Some(e) => {
            let lexeme = s.subrange(0, e);
            let v = decimal::plain_decimal_value(lexeme);
            if !tag3(s, 0, 0x4e, 0x61, 0x4e) && suffix_kind(s, e) == 2 && ends_number(s, e + 3)
                && decimal::plain_decimal(lexeme) && decimal::representable((v.0, v.1)) {
                Some((e + 3, v))
            } else {
                None
            }
        },
        None => None,
    }
}

/// What the integer scanner finds at the start of `s`: a signed digit run
/// that fits in `i64`, followed by an ending.
pub open spec fn integer_scan(s: Seq<u8>) -> Option<(int, int)> {
    match leading_int(s) {
        Some((j, v)) => if ends_number(s, j) {
            Some((j, v))
        } else {
            None
        },
        None => None,
    }
}


/// The byte at `i`, or -1 past the end.
pub fn byte(s: &[u8], i: usize) -> (r: i32)
    ensures
        r == byte_at(s@, i as int),
{
    if i < s.len() {
        s[i] as i32
    } else {
        -1
    }
}

fn digit_at(s: &[u8], i: usize) -> (r: bool)
    ensures
        r == is_digit_at(s@, i as int),
{
    let c = byte(s, i);
    0x30 <= c && c <= 0x39
}

/// The end of the digit run at `i`.
pub fn end_of_digits(s: &[u8], i: usize) -> (r: usize)
    requires
        i <= s@.len(),
    ensures
        r == digits_end(s@, i as int),
        i <= r <= s@.len(),
{
    proof {
        lemma_digits_end(s@, i as int);
    }
    let (j, _) = digit_run(s, i, 0);
    j
}

fn sign_at(s: &[u8], i: usize) -> (r: usize)
    ensures
        r == sign_length(s@, i as int),
{
    let c = byte(s, i);
    if c == 0x2b || c == 0x2d {
        1
    } else {
        0
    }
}

/// Finds the end of the float lexeme at the start of `s`.
pub fn float_lexeme(s: &[u8]) -> (r: Option<usize>)
    ensures
        match float_lexeme_end(s@) {
            Some(e) => r == Some(e as usize) && 0 <= e <= s@.len(),
            None => r is None,
        },
{
    let i0 = sign_at(s, 0);
    if i0 > s.len() {
        return None;
    }
    let mantissa_end: usize = if digit_at(s, i0) {
        let j = end_of_digits(s, i0);
        if byte(s, j) == 0x2e {
            end_of_digits(s, j + 1)
        } else {
            j
        }
    } else if byte(s, i0) == 0x2e && digit_at(s, i0 + 1) {
        end_of_digits(s, i0 + 1)
    } else {
        return None;
    };
    let c = byte(s, mantissa_end);
    if c == 0x65 || c == 0x45 {
        if mantissa_end + 1 > s.len() {
            return None;
        }
        let k = mantissa_end + 1 + sign_at(s, mantissa_end + 1);
        if digit_at(s, k) {
            Some(end_of_digits(s, k))
        } else {
            None
        }
    } else {
        Some(mantissa_end)
    }
}

fn lower_byte(c: i32) -> (r: i32)
    ensures
        r == lower(c as int),
{
    if 0x41 <= c && c <= 0x5a {
        c + 0x20
    } else {
        c
    }
}

/// `s[i..]` spells the lower-case `word`, ignoring case.
fn spells(s: &[u8], i: usize, word: &[u8]) -> (r: bool)
    requires
        i <= s@.len(),
    ensures
        r == spells_rest(s@, i as int, word@),
{
    if s.len() - i != word.len() {
        return false;
    }
    let mut k: usize = 0;
    while k < word.len()
        invariant
            i <= s@.len() <= usize::MAX,
            s@.len() - i == word@.len(),
            k <= word@.len(),
            forall|m: int| 0 <= m < k ==> lower(byte_at(s@, i + m)) == word@[m] as int,
        decreases word@.len() - k,
    {
        if lower_byte(byte(s, i + k)) != word[k] as i32 {
            return false;
        }
        k = k + 1;
    }
    true
}

/// Whether `f64::from_str` accepts the whole of `s`.
pub fn float_text(s: &[u8]) -> (r: bool)
    ensures
        r == is_float_text(s@),
{
    let i0 = sign_at(s, 0);
    if i0 > s.len() {
        return false;
    }
    let inf: [u8; 3] = [0x69, 0x6e, 0x66];
    let infinity: [u8; 8] = [0x69, 0x6e, 0x66, 0x69, 0x6e, 0x69, 0x74, 0x79];
    let nan: [u8; 3] = [0x6e, 0x61, 0x6e];
    assert(inf@ == seq![0x69u8, 0x6e, 0x66]);
    assert(infinity@ == seq![0x69u8, 0x6e, 0x66, 0x69, 0x6e, 0x69, 0x74, 0x79]);
    assert(nan@ == seq![0x6eu8, 0x61, 0x6e]);
    let a = spells(s, i0, &inf);
    let b = spells(s, i0, &infinity);
    let c = spells(s, i0, &nan);
    assert(a == spells_rest(s@, i0 as int, seq![0x69u8, 0x6e, 0x66]));
    assert(b == spells_rest(s@, i0 as int, seq![0x69u8, 0x6e, 0x66, 0x69, 0x6e, 0x69, 0x74, 0x79]));
    assert(c == spells_rest(s@, i0 as int, seq![0x6eu8, 0x61, 0x6e]));
    if a || b || c {
        return true;
    }
    let r = match float_lexeme(s) {
        Some(e) => e == s.len(),
        None => false,
    };
    assert(r == (float_lexeme_end(s@) == Some(s@.len() as int)));
    r
}

/// Reads a text as a number (`Number::try_from(&str)`): an `i64` where it is
/// one, else a float where `f64::from_str` accepts the text, else `Err(())`.
pub fn read_number(text: &str) -> (r: Result<Scanned, ()>)
    ensures
        text_reading(text.spec_bytes(), r),
        int_text_value(text.spec_bytes()) matches Some(v) ==> r == Ok::<Scanned, ()>(
            Scanned::Number(Number::Int(v as i64)),
        ),
        int_text_value(text.spec_bytes()) is None && float_lexeme_end(text.spec_bytes()) == Some(
            text.spec_bytes().len() as int,
        ) ==> r == Ok::<Scanned, ()>(Scanned::FloatText(text.spec_bytes().len() as usize)),
        r is Err ==> int_text_value(text.spec_bytes()) is None && float_lexeme_end(text.spec_bytes())
            != Some(text.spec_bytes().len() as int),
{
    let s = text.as_bytes();
    match parse_int_text(s) {
        Some(v) => Ok(Scanned::Number(Number::Int(v))),
        None => if float_text(s) {
            Ok(Scanned::FloatText(s.len()))
        } else {
            Err(())
        },
    }
}

fn tag3_at(s: &[u8], i: usize, a: u8, b: u8, c: u8) -> (r: bool)
    ensures
        r == tag3(s@, i as int, a, b, c),
        r ==> i + 2 < s@.len(),
{
    i < s.len() && s[i] == a && i + 1 < s.len() && s[i + 1] == b && i + 2 < s.len() && s[i + 2]
        == c
}

fn ends_at(s: &[u8], i: usize) -> (r: bool)
    ensures
        r == ends_number(s@, i as int),
{
    let c = byte(s, i);
    i == s.len() || c == 0x20 || c == 0x09 || c == 0x0a || c == 0x0d || c == 0x29 || c == 0x5d
        || c == 0x7d || c == 0x3b || c == 0x2c
}

/// Scans a number at the start of `input` (the SurrealQL `number` parser):
/// the length consumed and what was read, or `None` where no number stands.
pub fn number(input: &str) -> (r: Option<(usize, Scanned)>)
    ensures
        number_scan(input.spec_bytes(), r),
        plain_decimal_scan(input.spec_bytes()) matches Some((q, v)) ==> (r matches Some(
            (p, Scanned::Number(Number::Decimal(x))),
        ) && p == q && decimal::full(x) == v),
        tag3(input.spec_bytes(), 0, 0x4e, 0x61, 0x4e) ==> r == Some(
            (3usize, Scanned::Number(Number::Float(binary64::NAN_BITS))),
        ),
        !tag3(input.spec_bytes(), 0, 0x4e, 0x61, 0x4e) && float_lexeme_end(input.spec_bytes()) is None
            ==> r is None,
        !tag3(input.spec_bytes(), 0, 0x4e, 0x61, 0x4e) ==> (r matches Some((p, _)) ==> p
            <= input.spec_bytes().len() && ends_number(input.spec_bytes(), p as int)),
        float_lexeme_end(input.spec_bytes()) matches Some(e) ==> (byte_at(input.spec_bytes(), e) == 0x66
            && ends_number(input.spec_bytes(), e + 1) && !tag3(input.spec_bytes(), 0, 0x4e, 0x61, 0x4e)
            ==> r == Some(((e + 1) as usize, Scanned::FloatText(e as usize)))),
        float_lexeme_end(input.spec_bytes()) matches Some(e) ==> (byte_at(input.spec_bytes(), e) != 0x66
            && !tag3(input.spec_bytes(), e, 0x64, 0x65, 0x63) && ends_number(input.spec_bytes(), e)
            && !tag3(input.spec_bytes(), 0, 0x4e, 0x61, 0x4e) ==> match int_text_value(
            input.spec_bytes().subrange(0, e),
        ) {
            Some(v) => r == Some((e as usize, Scanned::Number(Number::Int(v as i64)))),
            None => r == Some((e as usize, Scanned::FloatText(e as usize))),
        }),
{
    let s = input.as_bytes();
    if tag3_at(s, 0, 0x4e, 0x61, 0x4e) {
        return Some((3, Scanned::Number(Number::nan())));
    }
    let n = s.len();
    let e = match float_lexeme(s) {
        Some(e) => e,
        None => return None,
    };
    let (kind, p): (usize, usize) = if byte(s, e) == 0x66 {
        (1, e + 1)
    } else if tag3_at(s, e, 0x64, 0x65, 0x63) {
        (2, e + 3)
    } else {
        (0, e)
    };
    if !ends_at(s, p) {
        return None;
    }
    let lexeme = vstd::slice::slice_subrange(s, 0, e);
    if kind == 0 {
        match parse_int_text(lexeme) {
            Some(v) => Some((p, Scanned::Number(Number::Int(v)))),
            None => Some((p, Scanned::FloatText(e))),
        }
    } else if kind == 1 {
        Some((p, Scanned::FloatText(e)))
    } else {
        match decimal::parse_decimal(lexeme) {
            Some(d) => Some((p, Scanned::Number(Number::Decimal(d)))),
            None => None,
        }
    }
}

/// Scans an integer at the start of `input` (the SurrealQL `integer` parser):
/// the length consumed and the value.
pub fn integer(input: &str) -> (r: Option<(usize, i64)>)
    ensures
        match integer_scan(input.spec_bytes()) {
            Some((j, v)) => r == Some((j as usize, v as i64)),
            None => r is None,
        },
{
    let s = input.as_bytes();
    match read_leading_int(s) {
        Some((j, v)) => if ends_at(s, j) {
            Some((j, v))
        } else {
            None
        },
        None => None,
    }
}


/// The decimal digits of `n`, most significant first, without leading zeros.
pub open spec fn decimal_digits(n: nat) -> Seq<u8>
    decreases n,
{
    if n < 10 {
        seq![(0x30 + n) as u8]
    } else {
        decimal_digits(n / 10).push((0x30 + n % 10) as u8)
    }
}

/// The text of an integer: a `-` for a negative one, then its digits.
pub open spec fn int_text(v: int) -> Seq<u8> {
    if v < 0 {
        seq![0x2du8] + decimal_digits((-v) as nat)
    } else {
        decimal_digits(v as nat)
    }
}

/// The characters of an ASCII byte sequence.
pub open spec fn ascii_chars(s: Seq<u8>) -> Seq<char> {
    s.map_values(|b: u8| b as char)
}

/// Calls `String`'s `FromIterator<char>`; claimed: the string holds exactly these characters.
#[verifier::external_body]
pub(crate) fn string_of(chars: Vec<char>) -> (r: String)
    ensures
        r@ == chars@,
{
    chars.into_iter().collect()
}

proof fn lemma_decimal_digits(n: nat)
    ensures
        decimal_digits(n).len() >= 1,
        forall|k: int| 0 <= k < decimal_digits(n).len() ==> is_digit_at(decimal_digits(n), k),
        digits_value(decimal_digits(n), 0, decimal_digits(n).len() as int) == n,
    decreases n,
{
    if n >= 10 {
        lemma_decimal_digits(n / 10);
        let d = decimal_digits(n / 10);
        let t = decimal_digits(n);
        assert(t == d.push((0x30 + n % 10) as u8));
        assert forall|k: int| 0 <= k < t.len() implies is_digit_at(t, k) by {
            if k < d.len() {
                assert(t[k] == d[k]);
                assert(is_digit_at(d, k));
            }
        }
        lemma_digits_value_prefix(d, t, d.len() as int);
        assert(t[t.len() - 1] == (0x30 + n % 10) as u8);
        assert(digits_value(t, 0, t.len() as int) == digits_value(t, 0, d.len() as int) * 10 + (n
            % 10));
        assert(n == (n / 10) * 10 + n % 10);
    } else {
        let t = decimal_digits(n);
        assert(t[0] == (0x30 + n) as u8);
        assert(digits_value(t, 0, 0) == 0);
        assert(digits_value(t, 0, 1) == n);
    }
}

proof fn lemma_digits_value_prefix(d: Seq<u8>, t: Seq<u8>, j: int)
    requires
        0 <= j <= d.len() <= t.len(),
        forall|k: int| 0 <= k < d.len() ==> t[k] == d[k],
    ensures
        digits_value(d, 0, j) == digits_value(t, 0, j),
    decreases j,
{
    if j > 0 {
        lemma_digits_value_prefix(d, t, j - 1);
    }
}

/// Writes the digits of `n`.
fn digits_of(n: u64) -> (r: Vec<char>)
    ensures
        r@ == ascii_chars(decimal_digits(n as nat)),
    decreases n,
{
    if n < 10 {
        let mut v = Vec::new();
        v.push(digit_char(n));
        proof {
            assert(v@ =~= ascii_chars(decimal_digits(n as nat)));
        }
        v
    } else {
        let mut v = digits_of(n / 10);
        v.push(digit_char(n % 10));
        proof {
            assert(v@ =~= ascii_chars(decimal_digits(n as nat)));
        }
        v
    }
}

fn digit_char(d: u64) -> (c: char)
    requires
        d < 10,
    ensures
        c == ((0x30 + d) as u8) as char,
{
    let b: u8 = 0x30 + d as u8;
    b as char
}

/// Writes an integer in decimal (`Display` for `i64`).
pub fn int_to_text(v: i64) -> (r: String)
    ensures
        r@ == ascii_chars(int_text(v as int)),
{
    if v < 0 {
        let a: u64 = if v == i64::MIN {
            0x8000_0000_0000_0000
        } else {
            (-v) as u64
        };
        let mut chars = Vec::new();
        chars.push('-');
        let mut digits = digits_of(a);
        chars.append(&mut digits);
        proof {
            assert(chars@ =~= ascii_chars(int_text(v as int)));
        }
        string_of(chars)
    } else {
        string_of(digits_of(v as u64))
    }
}

/// The text of an integer reads back as that integer, by the number scanner
/// (consuming the whole text) and as an `i64` text.
pub proof fn lemma_int_text_round_trip(v: i64)
    ensures
        int_text_value(int_text(v as int)) == Some(v as int),
        number_scan(
            int_text(v as int),
            Some((int_text(v as int).len() as usize, Scanned::Number(Number::Int(v)))),
        ),
{
    let t = int_text(v as int);
    let m: nat = if v < 0 { (-v) as nat } else { v as nat };
    let d = decimal_digits(m);
    lemma_decimal_digits(m);
    let i0: int = if v < 0 { 1 } else { 0 };
    assert(is_digit_at(d, 0));
    if v < 0 {
        assert(t[0] == 0x2du8);
    } else {
        assert(t[0] == d[0]);
    }
    assert(sign_length(t, 0) == i0);
    assert forall|k: int| i0 <= k < t.len() implies is_digit_at(t, k) by {
        assert(t[k] == d[k - i0]);
        assert(is_digit_at(d, k - i0));
    }
    lemma_digits_run_to_end(t, i0);
    lemma_digits_value_shift(t, d, i0, t.len() as int);
    assert(int_text_value(t) == Some(v as int));
    assert(t.subrange(0, t.len() as int) =~= t);
    assert(float_lexeme_end(t) == Some(t.len() as int));
    assert(!tag3(t, 0, 0x4e, 0x61, 0x4e));
    assert(suffix_kind(t, t.len() as int) == 0);
}

proof fn lemma_digits_run_to_end(t: Seq<u8>, i: int)
    requires
        0 <= i <= t.len(),
        forall|k: int| i <= k < t.len() ==> is_digit_at(t, k),
    ensures
        digits_end(t, i) == t.len(),
    decreases t.len() - i,
{
    if i < t.len() {
        lemma_digits_run_to_end(t, i + 1);
    }
}

proof fn lemma_digits_value_shift(t: Seq<u8>, d: Seq<u8>, i0: int, j: int)
    requires
        0 <= i0 <= j <= t.len(),
        t.len() == d.len() + i0,
        forall|k: int| i0 <= k < t.len() ==> t[k] == d[k - i0],
    ensures
        digits_value(t, i0, j) == digits_value(d, 0, j - i0),
    decreases j - i0,
{
    if j > i0 {
        lemma_digits_value_shift(t, d, i0, j - 1);
    }
}


/// The digit run at `i` ends at `e`.
proof fn lemma_digits_end_at(s: Seq<u8>, i: int, e: int)
    requires
        0 <= i <= e <= s.len(),
        forall|k: int| i <= k < e ==> is_digit_at(s, k),
        !is_digit_at(s, e),
    ensures
        digits_end(s, i) == e,
    decreases e - i,
{
    if i < e {
        lemma_digits_end_at(s, i + 1, e);
    }
}

/// Zeros in front do not change the value of a digit run.
proof fn lemma_leading_zeros(s: Seq<u8>, z: int, j: int)
    requires
        0 <= z <= j <= s.len(),
        forall|k: int| 0 <= k < z ==> s[k] == 0x30u8,
    ensures
        digits_value(s, 0, j) == digits_value(s, z, j),
    decreases j,
{
    if j > z {
        lemma_leading_zeros(s, z, j - 1);
    } else if j > 0 {
        lemma_leading_zeros(s, z - 1, j - 1);
        assert(s[j - 1] == 0x30u8);
    }
}

/// The padded digits of `m` are digits, `width` of them at least, and denote `m`.
proof fn lemma_padded_digits(m: nat, width: nat)
    ensures
        decimal::padded_digits(m, width).len() >= width,
        decimal::padded_digits(m, width).len() >= 1,
        forall|k: int| 0 <= k < decimal::padded_digits(m, width).len() ==> is_digit_at(
            decimal::padded_digits(m, width),
            k,
        ),
        digits_value(decimal::padded_digits(m, width), 0, decimal::padded_digits(m, width).len() as int)
            == m,
{
    let d = decimal_digits(m);
    let p = decimal::padded_digits(m, width);
    lemma_decimal_digits(m);
    let z: int = p.len() - d.len();
    assert forall|k: int| 0 <= k < p.len() implies is_digit_at(p, k) by {
        if k >= z {
            assert(p[k] == d[k - z]);
            assert(is_digit_at(d, k - z));
        }
    }
    lemma_leading_zeros(p, z, p.len() as int);
    lemma_digits_value_shift(p, d, z, p.len() as int);
}

/// The text of a decimal reads back as that decimal: where the number scanner
/// meets `to_text`'s text of a decimal, it consumes all of it and reads the
/// same mantissa, scale and sign flag (so the text written again is the
/// same). A negative zero is left out: its text `-0…dec` reads back as a zero
/// without the sign.
pub proof fn lemma_decimal_text_round_trip(d: Dec)
    requires
        decimal::representable(d@),
        d.sign_negative() == (d@.0 < 0),
    ensures
        ({
            let s = decimal::decimal_display(decimal::full(d)) + seq![0x64u8, 0x65, 0x63];
            plain_decimal_scan(s) == Some((s.len() as int, decimal::full(d)))
        }),
{
    let a = decimal::full(d);
    let m = decimal::magnitude(a.0);
    let sc = a.1;
    let p = decimal::padded_digits(m, sc + 1);
    lemma_padded_digits(m, sc + 1);
    let k: int = p.len() - sc;
    let body = if sc == 0 {
        p
    } else {
        p.subrange(0, k) + seq![0x2eu8] + p.subrange(k, p.len() as int)
    };
    let t = decimal::decimal_display(a);
    let i0: int = if a.2 { 1 } else { 0 };
    assert(t == if a.2 { seq![0x2du8] + body } else { body });
    let s = t + seq![0x64u8, 0x65, 0x63];
    assert(t.len() == i0 + body.len());
    assert(body.len() == if sc == 0 { p.len() as int } else { p.len() + 1int });
    assert forall|q: int| 0 <= q < body.len() implies #[trigger] t[i0 + q] == body[q] && s[i0 + q]
        == body[q] by {}
    assert forall|q: int| 0 <= q < k implies #[trigger] body[q] == p[q] by {}
    assert forall|q: int| k < q < body.len() && sc > 0 implies #[trigger] body[q] == p[q - 1] by {}
    assert(sc > 0 ==> body[k] == 0x2eu8);
    assert(s[t.len() as int] == 0x64u8);
    assert(s[t.len() + 1int] == 0x65u8);
    assert(s[t.len() + 2int] == 0x63u8);
    assert(a.2 ==> s[0] == 0x2du8 && t[0] == 0x2du8);
    assert(is_digit_at(p, 0));
    assert(!a.2 ==> s[0] == p[0] && t[0] == p[0]);
    assert(sign_length(s, 0) == i0);
    assert(decimal::minus_length(t) == i0);
    // The whole part.
    assert forall|q: int| i0 <= q < i0 + k implies is_digit_at(s, q) && is_digit_at(t, q) by {
        assert(t[i0 + (q - i0)] == body[q - i0]);
        assert(is_digit_at(p, q - i0));
    }
    lemma_digits_end_at(s, i0, i0 + k);
    lemma_digits_end_at(t, i0, i0 + k);
    if sc > 0 {
        assert(t[i0 + k] == 0x2eu8);
        assert forall|q: int| i0 + k + 1 <= q < t.len() implies is_digit_at(s, q) && is_digit_at(t, q) by {
            assert(t[i0 + (q - i0)] == body[q - i0]);
            assert(is_digit_at(p, q - i0 - 1));
        }
        lemma_digits_end_at(s, i0 + k + 1, t.len() as int);
        lemma_digits_end_at(t, i0 + k + 1, t.len() as int);
        assert(t.subrange(i0, i0 + k) + t.subrange(i0 + k + 1, t.len() as int) =~= p);
    } else {
        assert(t.subrange(i0, i0 + k) =~= p);
    }
    assert(float_lexeme_end(s) == Some(t.len() as int));
    assert(s.subrange(0, t.len() as int) =~= t);
    assert(decimal::plain_digits(t) == p);
    assert(decimal::plain_scale(t) == sc);
    assert(decimal::plain_decimal(t));
    assert(suffix_kind(s, t.len() as int) == 2);
    assert(!tag3(s, 0, 0x4e, 0x61, 0x4e));
    assert(decimal::plain_decimal_value(t) == a);
}

impl Number {
    /// Whether the text of the number ends in the float suffix `f`: a finite
    /// float does (its binary64 `Display` then `f`); an infinite or NaN float
    /// is written by `Display` alone, and integers and decimals by `to_text`.
    pub fn float_suffix(&self) -> (r: bool)
        ensures
            r == (*self matches Number::Float(b) && binary64::is_finite(b)),
    {
        match self {
            Number::Float(b) => binary64::finite(*b),
            _ => false,
        }
    }

    /// The SurrealQL text of the number (`Display`): an integer in decimal, a
    /// decimal by `rust_decimal`'s `Display` followed by `dec`. `None` for a
    /// float, which the caller writes with binary64 `Display`, followed by `f`
    /// where `float_suffix` says so.
    pub fn to_text(&self) -> (r: Option<String>)
        ensures
            match *self {
                Number::Int(v) => r matches Some(t) && t@ == ascii_chars(int_text(v as int)),
                Number::Float(_) => r is None,
                Number::Decimal(d) => r matches Some(t) && t@ == ascii_chars(
                    decimal::decimal_display(decimal::full(d)) + seq![0x64u8, 0x65, 0x63],
                ),
            },
    {
        match self {
            Number::Int(v) => Some(int_to_text(*v)),
            Number::Float(_) => None,
            Number::Decimal(d) => {
                let mut t = decimal::decimal_to_text(d);
                t.append("dec");
                proof {
                    reveal_strlit("dec");
                    assert(t@ =~= ascii_chars(
                        decimal::decimal_display(decimal::full(*d)) + seq![0x64u8, 0x65, 0x63],
                    ));
                }
                Some(t)
            },
        }
    }
}

} // verus!
