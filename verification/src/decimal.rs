//! Fixed-point decimals: a mantissa of at most 96 bits and a scale of 0 to 28,
//! denoting `mantissa / 10^scale`.
//!
//! The arithmetic, the comparison and the text are `rust_decimal`'s: each
//! converts to `rust_decimal::Decimal`, makes one call, and reads the
//! mantissa, scale and sign of the result back. Rounding, truncation and the
//! sign operations, each a few lines of definition, are written and proved
//! here.
use core::cmp::Ordering;
use rust_decimal::prelude::ToPrimitive;
use rust_decimal::Decimal;
use rust_decimal::MathematicalOps;
use crate::lexical::{byte_at, digits_end, digits_value};
use crate::number_text::{ascii_chars, decimal_digits};
use std::str::FromStr;
use vstd::prelude::*;

verus! {

/// The largest mantissa magnitude, `2^96 - 1`.
pub const MAX_MANTISSA: i128 = 79_228_162_514_264_337_593_543_950_335;

/// The largest scale.
pub const MAX_SCALE: u32 = 28;

/// 10 to the power `n`.
pub open spec fn pow10(n: nat) -> nat
    decreases n,
{
    if n == 0 {
        1
    } else {
        10 * pow10((n - 1) as nat)
    }
}

pub proof fn lemma_pow10_positive(n: nat)
    ensures
        pow10(n) >= 1,
    decreases n,
{
    if n > 0 {
        lemma_pow10_positive((n - 1) as nat);
    }
}

/// A decimal number `mantissa / 10^scale`, with the sign flag that
/// `rust_decimal` keeps (a zero may carry a negative sign, and is written `-0`).
#[derive(Clone, Copy, Debug)]
pub struct Dec {
    mantissa: i128,
    scale: u32,
    negative: bool,
}

impl View for Dec {
    /// The mantissa and the scale.
    type V = (int, nat);

    closed spec fn view(&self) -> (int, nat) {
        (self.mantissa as int, self.scale as nat)
    }
}

/// The mantissa and the scale are in the range of `rust_decimal::Decimal`.
pub open spec fn representable(v: (int, nat)) -> bool {
    &&& -MAX_MANTISSA <= v.0 <= MAX_MANTISSA
    &&& v.1 <= MAX_SCALE
}

/// `a` denotes a smaller number than `b`.
pub open spec fn value_less(a: (int, nat), b: (int, nat)) -> bool {
    a.0 * pow10(b.1) < b.0 * pow10(a.1)
}

/// `a` and `b` denote the same number.
pub open spec fn value_equal(a: (int, nat), b: (int, nat)) -> bool {
    a.0 * pow10(b.1) == b.0 * pow10(a.1)
}

/// The number rounded toward zero to a whole number.
pub open spec fn truncated(a: (int, nat)) -> int {
    if a.0 >= 0 {
        a.0 / (pow10(a.1) as int)
    } else {
        -((-a.0) / (pow10(a.1) as int))
    }
}

/// `n / d` for a positive `d`, rounded to the nearest whole number, ties to the even one.
pub open spec fn round_half_even(n: nat, d: nat) -> nat {
    let q = n / d;
    let r = n % d;
    if 2 * r > d || (2 * r == d && q % 2 == 1) {
        q + 1
    } else {
        q
    }
}

/// The number rounded to `dp` decimal places, ties to even (a scale already at most
/// `dp` is kept).
pub open spec fn rounded_to(a: (int, nat), dp: nat) -> (int, nat) {
    if a.1 <= dp {
        a
    } else {
        let d = pow10((a.1 - dp) as nat);
        let m = round_half_even(if a.0 >= 0 { a.0 as nat } else { (-a.0) as nat }, d);
        (if a.0 >= 0 { m as int } else { -m }, dp)
    }
}

/// A decimal in full: its mantissa, its scale, and its sign flag.
pub open spec fn full(d: Dec) -> (int, nat, bool) {
    (d@.0, d@.1, d.sign_negative())
}

/// An optional decimal in full.
pub open spec fn viewed(r: Option<Dec>) -> Option<(int, nat, bool)> {
    match r {
        Some(d) => Some(full(d)),
        None => None,
    }
}

/// The sign flag of a result whose mantissa is `m`: the sign of `m`, and for a
/// zero the flag `zero_negative`.
pub open spec fn sign_of(m: int, zero_negative: bool) -> bool {
    if m != 0 {
        m < 0
    } else {
        zero_negative
    }
}

/// `Decimal::floor` in full: a zero result keeps the sign flag.
pub open spec fn floor_full(a: (int, nat, bool)) -> (int, nat, bool) {
    let v = floor_of((a.0, a.1));
    (v.0, v.1, sign_of(v.0, a.2))
}

/// `Decimal::ceil` in full: a zero result keeps the sign flag.
pub open spec fn ceil_full(a: (int, nat, bool)) -> (int, nat, bool) {
    let v = ceil_of((a.0, a.1));
    (v.0, v.1, sign_of(v.0, a.2))
}

/// `Decimal::round_dp` in full: a zero keeps its sign flag, a number that
/// rounds to zero loses it.
pub open spec fn rounded_full(a: (int, nat, bool), dp: nat) -> (int, nat, bool) {
    if a.1 <= dp {
        a
    } else {
        let v = rounded_to((a.0, a.1), dp);
        (v.0, v.1, if a.0 == 0 { a.2 } else { v.0 < 0 })
    }
}

/// The largest whole number not above, at scale 0 (`Decimal::floor`: a scale of 0 is kept as it is).
pub open spec fn floor_of(a: (int, nat)) -> (int, nat) {
    if a.1 == 0 {
        a
    } else {
        (a.0 / (pow10(a.1) as int), 0)
    }
}

/// The smallest whole number not below, at scale 0 (`Decimal::ceil`).
pub open spec fn ceil_of(a: (int, nat)) -> (int, nat) {
    if a.1 == 0 {
        a
    } else {
        (-((-a.0) / (pow10(a.1) as int)), 0)
    }
}

/// The name of the sum that `rust_decimal`'s `checked_add` gives (`None` on overflow).
pub uninterp spec fn decimal_sum(a: (int, nat, bool), b: (int, nat, bool)) -> Option<(int, nat, bool)>;

/// The name of the difference that `rust_decimal`'s `checked_sub` gives.
pub uninterp spec fn decimal_difference(a: (int, nat, bool), b: (int, nat, bool)) -> Option<(int, nat, bool)>;

/// The name of the product that `rust_decimal`'s `checked_mul` gives.
pub uninterp spec fn decimal_product(a: (int, nat, bool), b: (int, nat, bool)) -> Option<(int, nat, bool)>;

/// The name of the quotient that `rust_decimal`'s `checked_div` gives (`None` on
/// overflow or a zero divisor).
pub uninterp spec fn decimal_quotient(a: (int, nat, bool), b: (int, nat, bool)) -> Option<(int, nat, bool)>;

/// The name of the power that `rust_decimal`'s `checked_powi` gives.
pub uninterp spec fn decimal_power(a: (int, nat, bool), exponent: int) -> Option<(int, nat, bool)>;

/// The name of the square root that `rust_decimal`'s `sqrt` gives.
pub uninterp spec fn decimal_square_root(a: (int, nat, bool)) -> Option<(int, nat, bool)>;

/// The name of what `rust_decimal`'s `Decimal::from_str` gives for the text with these UTF-8 bytes.
pub uninterp spec fn decimal_from_text(text: Seq<u8>) -> Option<(int, nat, bool)>;

/// The magnitude of a mantissa.
pub open spec fn magnitude(m: int) -> nat {
    if m < 0 {
        (-m) as nat
    } else {
        m as nat
    }
}

/// The digits of `n`, with zeros in front to make `width` of them at least.
pub open spec fn padded_digits(n: nat, width: nat) -> Seq<u8> {
    let d = decimal_digits(n);
    let zeros: nat = if width > d.len() {
        (width - d.len()) as nat
    } else {
        0
    };
    Seq::new(zeros, |k: int| 0x30u8) + d
}

/// The text of `rust_decimal`'s `Display` for a decimal in full, as bytes: a
/// `-` where the sign flag is set, then the digits of the magnitude, at least
/// `scale + 1` of them (zeros in front), with a point before the last `scale`
/// of them where the scale is not zero.
pub open spec fn decimal_display(a: (int, nat, bool)) -> Seq<u8> {
    let p = padded_digits(magnitude(a.0), a.1 + 1);
    let k = p.len() - a.1;
    let body = if a.1 == 0 {
        p
    } else {
        p.subrange(0, k) + seq![0x2eu8] + p.subrange(k, p.len() as int)
    };
    if a.2 {
        seq![0x2du8] + body
    } else {
        body
    }
}

/// 1 where the text starts with `-`, else 0.
pub open spec fn minus_length(s: Seq<u8>) -> int {
    if byte_at(s, 0) == 0x2d {
        1
    } else {
        0
    }
}

/// A plain decimal text: an optional `-`, digits, and optionally a point
/// followed by digits; nothing more.
pub open spec fn plain_decimal(s: Seq<u8>) -> bool {
    let j = digits_end(s, minus_length(s));
    &&& j > minus_length(s)
    &&& j == s.len() || (byte_at(s, j) == 0x2e && j + 1 < s.len() && digits_end(s, j + 1) == s.len())
}

/// The digits of a plain decimal text, the point left out.
pub open spec fn plain_digits(s: Seq<u8>) -> Seq<u8> {
    let j = digits_end(s, minus_length(s));
    if j == s.len() {
        s.subrange(minus_length(s), j)
    } else {
        s.subrange(minus_length(s), j) + s.subrange(j + 1, s.len() as int)
    }
}

/// The number of digits after the point of a plain decimal text.
pub open spec fn plain_scale(s: Seq<u8>) -> nat {
    let j = digits_end(s, minus_length(s));
    if j == s.len() {
        0
    } else {
        (s.len() - j - 1) as nat
    }
}

/// The decimal in full that a plain decimal text denotes: all its digits as
/// the magnitude of the mantissa (negative after a `-`), the digits after the
/// point as the scale, and the sign flag set for a `-` before digits that are
/// not all zeros.
pub open spec fn plain_decimal_value(s: Seq<u8>) -> (int, nat, bool) {
    let v: int = digits_value(plain_digits(s), 0, plain_digits(s).len() as int) as int;
    let negative = minus_length(s) == 1;
    (if negative {
        -v
    } else {
        v
    }, plain_scale(s), negative && v != 0)
}

impl Dec {
    #[verifier::type_invariant]
    spec fn inv(self) -> bool {
        &&& representable(self@)
        &&& self.mantissa != 0 ==> self.negative == (self.mantissa < 0)
    }

    /// The sign flag: set for a negative number, and for a zero as it was kept.
    pub closed spec fn sign_negative(self) -> bool {
        self.negative
    }

    /// The decimal `mantissa / 10^scale`, where both are in range (a zero
    /// without a negative sign).
    pub fn new(mantissa: i128, scale: u32) -> (r: Option<Dec>)
        ensures
            r is Some <==> representable((mantissa as int, scale as nat)),
            r matches Some(d) ==> full(d) == (mantissa as int, scale as nat, mantissa < 0),
    {
        if -MAX_MANTISSA <= mantissa && mantissa <= MAX_MANTISSA && scale <= MAX_SCALE {
            Some(Dec { mantissa, scale, negative: mantissa < 0 })
        } else {
            None
        }
    }

    /// The decimal `mantissa / 10^scale` with the sign flag `negative`, where
    /// both are in range and the flag agrees with the sign of a mantissa that
    /// is not zero (the parts `rust_decimal` keeps).
    pub fn from_parts(mantissa: i128, scale: u32, negative: bool) -> (r: Option<Dec>)
        ensures
            r is Some <==> representable((mantissa as int, scale as nat)) && (mantissa != 0 ==> negative
                == (mantissa < 0)),
            r matches Some(d) ==> full(d) == (mantissa as int, scale as nat, negative),
    {
        if -MAX_MANTISSA <= mantissa && mantissa <= MAX_MANTISSA && scale <= MAX_SCALE && (mantissa == 0
            || negative == (mantissa < 0)) {
            Some(Dec { mantissa, scale, negative })
        } else {
            None
        }
    }

    /// The integer `v` with scale 0 (what `Decimal::from(v)` denotes).
    pub fn from_int(v: i64) -> (r: Dec)
        ensures
            full(r) == (v as int, 0nat, v < 0),
    {
        Dec { mantissa: v as i128, scale: 0, negative: v < 0 }
    }

    /// The zero with scale 0 (`Decimal::default()` and `Decimal::ZERO`).
    pub fn zero() -> (r: Dec)
        ensures
            full(r) == (0int, 0nat, false),
    {
        Dec { mantissa: 0, scale: 0, negative: false }
    }

    /// The sign flag (`is_sign_negative`).
    pub fn is_sign_negative(&self) -> (r: bool)
        ensures
            r == self.sign_negative(),
            self@.0 != 0 ==> r == (self@.0 < 0),
    {
        proof {
            use_type_invariant(self);
        }
        self.negative
    }

    pub fn mantissa(&self) -> (r: i128)
        ensures
            r == self@.0,
    {
        self.mantissa
    }

    pub fn scale(&self) -> (r: u32)
        ensures
            r == self@.1,
    {
        self.scale
    }

    /// The negated number (`-d`): the mantissa negated, the scale kept, the
    /// sign flag turned over (a zero too).
    pub fn negated(&self) -> (r: Dec)
        ensures
            full(r) == (-self@.0, self@.1, !self.sign_negative()),
    {
        proof {
            use_type_invariant(self);
        }
        Dec { mantissa: -self.mantissa, scale: self.scale, negative: !self.negative }
    }

    /// The absolute value (`d.abs()`): the sign of the mantissa dropped, the
    /// scale kept, the sign flag cleared.
    pub fn absolute(&self) -> (r: Dec)
        ensures
            full(r) == (if self@.0 < 0 { -self@.0 } else { self@.0 }, self@.1, false),
    {
        proof {
            use_type_invariant(self);
        }
        if self.mantissa < 0 {
            Dec { mantissa: -self.mantissa, scale: self.scale, negative: false }
        } else {
            Dec { mantissa: self.mantissa, scale: self.scale, negative: false }
        }
    }

    /// The largest whole number not above (`Decimal::floor`); a zero keeps
    /// the sign flag.
    pub fn floor(&self) -> (r: Dec)
        ensures
            r@ == floor_of(self@),
            full(r) == floor_full(full(*self)),
    {
        proof {
            use_type_invariant(self);
        }
        if self.scale == 0 {
            return *self;
        }
        let p = pow10_i128(self.scale);
        let q = quotient_floor(self.mantissa, p);
        Dec { mantissa: q, scale: 0, negative: if q != 0 { q < 0 } else { self.negative } }
    }

    /// The smallest whole number not below (`Decimal::ceil`); a zero keeps
    /// the sign flag.
    pub fn ceil(&self) -> (r: Dec)
        ensures
            r@ == ceil_of(self@),
            full(r) == ceil_full(full(*self)),
    {
        proof {
            use_type_invariant(self);
        }
        if self.scale == 0 {
            return *self;
        }
        let p = pow10_i128(self.scale);
        let q = quotient_floor(-self.mantissa, p);
        Dec { mantissa: -q, scale: 0, negative: if q != 0 { -q < 0 } else { self.negative } }
    }

    /// The number rounded to `dp` decimal places, ties to even (`Decimal::round_dp`);
    /// `round_dp(0)` is `Decimal::round`. A zero keeps the sign flag; a number
    /// that rounds to zero loses it.
    pub fn round_dp(&self, dp: u32) -> (r: Dec)
        ensures
            r@ == rounded_to(self@, dp as nat),
            full(r) == rounded_full(full(*self), dp as nat),
    {
        proof {
            use_type_invariant(self);
        }
        if self.scale <= dp {
            return *self;
        }
        let d = pow10_i128(self.scale - dp);
        let a = if self.mantissa < 0 {
            -self.mantissa
        } else {
            self.mantissa
        };
        let q = a / d;
        let rem = a % d;
        proof {
            vstd::arithmetic::div_mod::lemma_fundamental_div_mod(a as int, d as int);
            assert(0 <= rem < d) by (nonlinear_arith)
                requires
                    d >= 1,
                    rem == a % d,
            ;
            lemma_pow10_monotone(1, (self.scale - dp) as nat);
            assert(q <= a / 10) by (nonlinear_arith)
                requires
                    d >= 10,
                    a >= 0,
                    q == a / d,
            ;
        }
        let m = if 2 * rem > d || (2 * rem == d && q % 2 == 1) {
            q + 1
        } else {
            q
        };
        if self.mantissa == 0 {
            Dec { mantissa: 0, scale: dp, negative: self.negative }
        } else if self.mantissa < 0 {
            Dec { mantissa: -m, scale: dp, negative: m != 0 }
        } else {
            Dec { mantissa: m, scale: dp, negative: false }
        }
    }

    /// The number rounded toward zero, when that fits in `i64` (`ToPrimitive::to_i64`).
    pub fn to_i64(&self) -> (r: Option<i64>)
        ensures
            r is Some <==> i64::MIN <= truncated(self@) <= i64::MAX,
            r matches Some(v) ==> v == truncated(self@),
    {
        proof {
            use_type_invariant(self);
        }
        let t = self.truncate();
        if i64::MIN as i128 <= t && t <= i64::MAX as i128 {
            Some(t as i64)
        } else {
            None
        }
    }

    /// The number rounded toward zero, when its sign flag is clear and that
    /// fits in `usize` (`ToPrimitive::to_usize`, which goes through `to_u64`:
    /// any negative sign, a zero's too, gives `None`).
    pub fn to_usize(&self) -> (r: Option<usize>)
        ensures
            r is Some <==> (!self.sign_negative() && truncated(self@) <= usize::MAX),
            r matches Some(v) ==> v == truncated(self@),
    {
        proof {
            use_type_invariant(self);
        }
        if self.negative {
            return None;
        }
        let t = self.truncate();
        if t <= usize::MAX as i128 {
            Some(t as usize)
        } else {
            None
        }
    }

    /// The number rounded toward zero.
    fn truncate(&self) -> (r: i128)
        ensures
            r == truncated(self@),
            -MAX_MANTISSA <= r <= MAX_MANTISSA,
            self@.0 >= 0 ==> r >= 0,
    {
        proof {
            use_type_invariant(self);
        }
        let p = pow10_i128(self.scale);
        if self.mantissa >= 0 {
            proof {
                assert(self.mantissa / p <= self.mantissa) by (nonlinear_arith)
                    requires
                        p >= 1,
                        self.mantissa >= 0,
                ;
            }
            assert(self.mantissa / p >= 0) by (nonlinear_arith)
                requires
                    p >= 1,
                    self.mantissa >= 0,
            ;
            self.mantissa / p
        } else {
            let a = -self.mantissa;
            proof {
                assert(a / p <= a) by (nonlinear_arith)
                    requires
                        p >= 1,
                        a >= 0,
                ;
            }
            -(a / p)
        }
    }

    /// The number has no fractional part (`d.is_integer()`).
    pub fn is_integer(&self) -> (r: bool)
        ensures
            r == (self@.0 % (pow10(self@.1) as int) == 0),
    {
        proof {
            use_type_invariant(self);
        }
        let p = pow10_i128(self.scale);
        let a = if self.mantissa < 0 {
            -self.mantissa
        } else {
            self.mantissa
        };
        proof {
            lemma_divides_negation(self.mantissa as int, p as int);
        }
        a % p == 0
    }
}

pub proof fn lemma_pow10_monotone(a: nat, b: nat)
    requires
        a <= b,
    ensures
        pow10(a) <= pow10(b),
    decreases b,
{
    if a < b {
        lemma_pow10_monotone(a, (b - 1) as nat);
        lemma_pow10_positive((b - 1) as nat);
    }
}

pub proof fn lemma_pow10_max()
    ensures
        pow10(28) == 10_000_000_000_000_000_000_000_000_000,
{
    reveal_with_fuel(pow10, 29);
}

proof fn lemma_divides_negation(m: int, p: int)
    requires
        p > 0,
    ensures
        ((-m) % p == 0) <==> (m % p == 0),
{
    vstd::arithmetic::div_mod::lemma_fundamental_div_mod(m, p);
    vstd::arithmetic::div_mod::lemma_fundamental_div_mod(-m, p);
    if m % p == 0 {
        let q = m / p;
        assert(-m == (-q) * p) by (nonlinear_arith)
            requires
                m == p * q + 0,
        ;
        vstd::arithmetic::div_mod::lemma_mod_multiples_basic(-q, p);
    }
    if (-m) % p == 0 {
        let q = (-m) / p;
        assert(m == (-q) * p) by (nonlinear_arith)
            requires
                -m == p * q + 0,
        ;
        vstd::arithmetic::div_mod::lemma_mod_multiples_basic(-q, p);
    }
}

/// `m / p` rounded down, for `p >= 10` (or `m >= 0`).
fn quotient_floor(m: i128, p: i128) -> (q: i128)
    requires
        p >= 10,
        -MAX_MANTISSA <= m <= MAX_MANTISSA,
    ensures
        q == m / p,
        -MAX_MANTISSA <= q <= MAX_MANTISSA,
{
    if m >= 0 {
        assert(m / p <= m) by (nonlinear_arith)
            requires
                p >= 1,
                m >= 0,
        ;
        m / p
    } else {
        let a = -m;
        let q0 = a / p;
        let r0 = a % p;
        proof {
            vstd::arithmetic::div_mod::lemma_fundamental_div_mod(a as int, p as int);
            assert(q0 < a) by (nonlinear_arith)
                requires
                    p >= 10,
                    a >= 1,
                    q0 == a / p,
            ;
        }
        if r0 == 0 {
            proof {
                assert(m == (-q0) * p + 0) by (nonlinear_arith)
                    requires
                        a == p * q0 + r0,
                        r0 == 0,
                        m == -a,
                ;
                vstd::arithmetic::div_mod::lemma_fundamental_div_mod_converse_div(
                    m as int,
                    p as int,
                    -q0,
                    0,
                );
            }
            -q0
        } else {
            proof {
                assert(m == (-q0 - 1) * p + (p - r0)) by (nonlinear_arith)
                    requires
                        a == p * q0 + r0,
                        m == -a,
                ;
                vstd::arithmetic::div_mod::lemma_fundamental_div_mod_converse_div(
                    m as int,
                    p as int,
                    -q0 - 1,
                    p - r0,
                );
            }
            -q0 - 1
        }
    }
}

/// `pow10(n)` for `n <= 28`, computed.
pub fn pow10_i128(n: u32) -> (r: i128)
    requires
        n <= MAX_SCALE,
    ensures
        r == pow10(n as nat),
        r >= 1,
{
    let mut r: i128 = 1;
    let mut i: u32 = 0;
    proof {
        lemma_pow10_max();
    }
    while i < n
        invariant
            i <= n <= MAX_SCALE,
            r == pow10(i as nat),
            r >= 1,
            pow10(28) == 10_000_000_000_000_000_000_000_000_000,
        decreases n - i,
    {
        proof {
            lemma_pow10_monotone((i + 1) as nat, 28);
        }
        r = r * 10;
        i = i + 1;
    }
    r
}

/// Calls `rust_decimal`'s `Ord::cmp`. Claimed: it orders by the numbers denoted
/// (its source rescales the two mantissas to a common scale and compares them).
#[verifier::external_body]
pub(crate) fn order_decimals(a: &Dec, b: &Dec) -> (r: Ordering)
    ensures
        (r is Less) <==> value_less(a@, b@),
        (r is Equal) <==> value_equal(a@, b@),
        (r is Greater) <==> value_less(b@, a@),
{
    let mut x = Decimal::from_i128_with_scale(a.mantissa, a.scale);
    x.set_sign_negative(a.negative);
    let mut y = Decimal::from_i128_with_scale(b.mantissa, b.scale);
    y.set_sign_negative(b.negative);
    x.cmp(&y)
}

/// Calls `rust_decimal`'s `PartialEq::eq`. Claimed: it holds exactly when the two
/// denote the same number (its source compares the patterns, then falls back on `cmp`).
#[verifier::external_body]
pub(crate) fn decimal_equal(a: &Dec, b: &Dec) -> (r: bool)
    ensures
        r == value_equal(a@, b@),
{
    let mut x = Decimal::from_i128_with_scale(a.mantissa, a.scale);
    x.set_sign_negative(a.negative);
    let mut y = Decimal::from_i128_with_scale(b.mantissa, b.scale);
    y.set_sign_negative(b.negative);
    x == y
}

/// Calls `rust_decimal`'s `checked_add`; claimed: the result is `decimal_sum` of the
/// two in full, and where one operand is zero it is the other operand as it
/// was passed (its `add_sub_internal` returns `*d2` where `d1` is zero, and
/// `*d1` where `d2` is zero).
#[verifier::external_body]
pub(crate) fn checked_sum(a: &Dec, b: &Dec) -> (r: Option<Dec>)
    ensures
        viewed(r) == decimal_sum(full(*a), full(*b)),
        a@.0 == 0 ==> viewed(r) == Some(full(*b)),
        a@.0 != 0 && b@.0 == 0 ==> viewed(r) == Some(full(*a)),
{
    let mut x = Decimal::from_i128_with_scale(a.mantissa, a.scale);
    x.set_sign_negative(a.negative);
    let mut y = Decimal::from_i128_with_scale(b.mantissa, b.scale);
    y.set_sign_negative(b.negative);
    match x.checked_add(y) {
        Some(d) => Some(Dec { mantissa: d.mantissa(), scale: d.scale(), negative: d.is_sign_negative() }),
        None => None,
    }
}

/// Calls `rust_decimal`'s `checked_sub`; claimed of the result only that it is `decimal_difference`
/// of the two in full.
#[verifier::external_body]
pub(crate) fn checked_difference(a: &Dec, b: &Dec) -> (r: Option<Dec>)
    ensures
        viewed(r) == decimal_difference(full(*a), full(*b)),
{
    let mut x = Decimal::from_i128_with_scale(a.mantissa, a.scale);
    x.set_sign_negative(a.negative);
    let mut y = Decimal::from_i128_with_scale(b.mantissa, b.scale);
    y.set_sign_negative(b.negative);
    match x.checked_sub(y) {
        Some(d) => Some(Dec { mantissa: d.mantissa(), scale: d.scale(), negative: d.is_sign_negative() }),
        None => None,
    }
}

/// Calls `rust_decimal`'s `checked_mul`; claimed of the result only that it is `decimal_product`
/// of the two in full.
#[verifier::external_body]
pub(crate) fn checked_product(a: &Dec, b: &Dec) -> (r: Option<Dec>)
    ensures
        viewed(r) == decimal_product(full(*a), full(*b)),
{
    let mut x = Decimal::from_i128_with_scale(a.mantissa, a.scale);
    x.set_sign_negative(a.negative);
    let mut y = Decimal::from_i128_with_scale(b.mantissa, b.scale);
    y.set_sign_negative(b.negative);
    match x.checked_mul(y) {
        Some(d) => Some(Dec { mantissa: d.mantissa(), scale: d.scale(), negative: d.is_sign_negative() }),
        None => None,
    }
}

/// Calls `rust_decimal`'s `checked_div`; claimed: `decimal_quotient` of the two in
/// full, and `None` for a zero divisor (its source returns early on one).
#[verifier::external_body]
pub(crate) fn checked_quotient(a: &Dec, b: &Dec) -> (r: Option<Dec>)
    ensures
        viewed(r) == decimal_quotient(full(*a), full(*b)),
        b@.0 == 0 ==> r is None,
{
    let mut x = Decimal::from_i128_with_scale(a.mantissa, a.scale);
    x.set_sign_negative(a.negative);
    let mut y = Decimal::from_i128_with_scale(b.mantissa, b.scale);
    y.set_sign_negative(b.negative);
    match x.checked_div(y) {
        Some(d) => Some(Dec { mantissa: d.mantissa(), scale: d.scale(), negative: d.is_sign_negative() }),
        None => None,
    }
}

/// Calls `rust_decimal`'s `checked_powi`; claimed of the result only that it is
/// `decimal_power` of the decimal in full and the exponent.
#[verifier::external_body]
pub(crate) fn checked_power(a: &Dec, exponent: i64) -> (r: Option<Dec>)
    ensures
        viewed(r) == decimal_power(full(*a), exponent as int),
{
    let mut x = Decimal::from_i128_with_scale(a.mantissa, a.scale);
    x.set_sign_negative(a.negative);
    match x.checked_powi(exponent) {
        Some(d) => Some(Dec { mantissa: d.mantissa(), scale: d.scale(), negative: d.is_sign_negative() }),
        None => None,
    }
}

/// Calls `rust_decimal`'s `sqrt`; claimed: `decimal_square_root` of the decimal in
/// full, and `None` where its sign flag is set (its source returns early then).
/// Not claimed: that the call returns. Its Newton loop stops when two steps
/// agree and asserts (panics) after 1000 steps; no input is known on which it
/// gets there, and none is ruled out here.
#[verifier::external_body]
pub(crate) fn square_root(a: &Dec) -> (r: Option<Dec>)
    ensures
        viewed(r) == decimal_square_root(full(*a)),
        a.sign_negative() ==> r is None,
{
    let mut x = Decimal::from_i128_with_scale(a.mantissa, a.scale);
    x.set_sign_negative(a.negative);
    match x.sqrt() {
        Some(d) => Some(Dec { mantissa: d.mantissa(), scale: d.scale(), negative: d.is_sign_negative() }),
        None => None,
    }
}

/// What every conversion of the decimal `a` (in full) to binary64 by
/// `rust_decimal`'s `to_f64` gives, where its source fixes it: at scale 0 the
/// mantissa converted (nearest, ties to even); at a larger scale, for a whole
/// number, that whole number converted, with the sign flag as the sign bit.
/// Otherwise the conversion rounds through `f64::powi` and nothing is fixed.
pub open spec fn binary64_fits(a: (int, nat, bool), r: u64) -> bool {
    &&& a.1 == 0 ==> r == crate::binary64::from_int(a.0) as u64
    &&& a.1 > 0 && magnitude(a.0) % pow10(a.1) == 0 ==> r == (if a.2 {
        crate::binary64::SIGN_BIT + crate::binary64::nearest_bits(magnitude(a.0) / pow10(a.1))
    } else {
        crate::binary64::nearest_bits(magnitude(a.0) / pow10(a.1))
    }) as u64
}

/// Calls `rust_decimal`'s `to_f64` (which always gives a value) and returns the
/// pattern of that binary64. Claimed: `binary64_fits`. Its `as_f64` converts
/// the mantissa at scale 0 (`as_i128() as f64`); at a larger scale it splits
/// the magnitude into a whole part and a fraction, and where the fraction is
/// zero returns the whole part converted (`u128 as f64`), negated where the
/// sign flag is set. Otherwise it rounds through `f64::powi`, whose precision
/// std leaves unspecified: nothing is claimed there, and two calls on one
/// decimal may differ.
#[verifier::external_body]
pub(crate) fn to_binary64(a: &Dec) -> (r: u64)
    ensures
        binary64_fits(full(*a), r),
{
    let mut x = Decimal::from_i128_with_scale(a.mantissa, a.scale);
    x.set_sign_negative(a.negative);
    x.to_f64().unwrap_or_default().to_bits()
}

/// Calls `rust_decimal`'s `Decimal::from_str` on the text whose UTF-8 bytes are
/// `text` (no text where they are not UTF-8); claimed: the result is
/// `decimal_from_text`, and for a plain decimal text in range, the decimal it
/// denotes (its `parse_str_radix_10` takes a leading `-`, gathers the digits
/// and counts those after the point, rounds only past 28 of them or past 96
/// bits, and builds the result with `from_parts`, which clears the sign of a
/// zero).
#[verifier::external_body]
pub(crate) fn parse_decimal(text: &[u8]) -> (r: Option<Dec>)
    ensures
        viewed(r) == decimal_from_text(text@),
        plain_decimal(text@) && representable(
            (plain_decimal_value(text@).0, plain_decimal_value(text@).1),
        ) ==> viewed(r) == Some(plain_decimal_value(text@)),
{
    match core::str::from_utf8(text).map(Decimal::from_str) {
        Ok(Ok(d)) => Some(Dec { mantissa: d.mantissa(), scale: d.scale(), negative: d.is_sign_negative() }),
        _ => None,
    }
}

/// Calls `rust_decimal`'s `Display`; claimed: the text is `decimal_display` of
/// the decimal in full (its `to_str_internal` writes the digits of the
/// magnitude, pads them with zeros to the scale, puts the point before the
/// last `scale` digits with a `0` in front where no digit stands before it,
/// and writes `0` for an empty text; `pad_integral` puts a `-` in front where
/// the sign flag is set).
#[verifier::external_body]
pub(crate) fn decimal_to_text(a: &Dec) -> (r: String)
    ensures
        r@ == ascii_chars(decimal_display(full(*a))),
{
    let mut x = Decimal::from_i128_with_scale(a.mantissa, a.scale);
    x.set_sign_negative(a.negative);
    x.to_string()
}

} // verus!
