//! IEEE-754 binary64 values, held by their bit patterns.
//!
//! Everything here is integer arithmetic on the 64-bit pattern: the sign bit,
//! the 11-bit biased exponent and the 52-bit fraction.
use vstd::prelude::*;

verus! {

/// The sign bit of a binary64 pattern.
pub const SIGN_BIT: u64 = 0x8000_0000_0000_0000;

/// One unit of the biased exponent field (2 to the 52nd).
pub const EXPONENT_UNIT: u64 = 0x10_0000_0000_0000;

/// The pattern of positive infinity; magnitudes above it are NaNs.
pub const INFINITY_BITS: u64 = 0x7FF0_0000_0000_0000;

/// The pattern of the quiet NaN that `f64::NAN` denotes.
pub const NAN_BITS: u64 = 0x7FF8_0000_0000_0000;

/// 2 to the power `n`.
pub open spec fn exp2(n: nat) -> nat
    decreases n,
{
    if n == 0 {
        1
    } else {
        2 * exp2((n - 1) as nat)
    }
}

pub proof fn lemma_exp2_positive(n: nat)
    ensures
        exp2(n) >= 1,
    decreases n,
{
    if n > 0 {
        lemma_exp2_positive((n - 1) as nat);
    }
}

pub proof fn lemma_exp2_adds(a: nat, b: nat)
    ensures
        exp2(a + b) == exp2(a) * exp2(b),
    decreases b,
{
    if b > 0 {
        lemma_exp2_adds(a, (b - 1) as nat);
        assert(exp2(a + b) == 2 * exp2((a + b - 1) as nat));
        assert(exp2(a) * exp2(b) == exp2(a) * (2 * exp2((b - 1) as nat)));
        assert(exp2(a) * (2 * exp2((b - 1) as nat)) == 2 * (exp2(a) * exp2((b - 1) as nat)))
            by (nonlinear_arith);
        assert((a + b - 1) as nat == a + (b - 1) as nat);
    } else {
        assert(a + b == a);
        assert(exp2(b) == 1);
        assert(exp2(a) * 1 == exp2(a));
    }
}

pub proof fn lemma_exp2_monotone(a: nat, b: nat)
    requires
        a <= b,
    ensures
        exp2(a) <= exp2(b),
    decreases b,
{
    if a < b {
        lemma_exp2_monotone(a, (b - 1) as nat);
        lemma_exp2_positive((b - 1) as nat);
    }
}

pub proof fn lemma_exp2_values()
    ensures
        exp2(10) == 0x400,
        exp2(11) == 0x800,
        exp2(52) == 0x10_0000_0000_0000,
        exp2(53) == 0x20_0000_0000_0000,
        exp2(63) == 0x8000_0000_0000_0000,
        exp2(64) == 0x1_0000_0000_0000_0000,
{
    reveal_with_fuel(exp2, 12);
    assert(exp2(10) == 0x400);
    assert(exp2(11) == 0x800);
    assert(exp2(2) == 4);
    assert(exp2(1) == 2);
    lemma_exp2_adds(10, 10);
    assert(exp2(20) == 0x10_0000);
    lemma_exp2_adds(20, 20);
    assert(exp2(40) == 0x100_0000_0000);
    lemma_exp2_adds(40, 10);
    assert(exp2(50) == 0x4_0000_0000_0000);
    lemma_exp2_adds(50, 2);
    assert(exp2(52) == 0x10_0000_0000_0000);
    lemma_exp2_adds(52, 1);
    assert(exp2(53) == 0x20_0000_0000_0000);
    lemma_exp2_adds(52, 11);
    assert(exp2(63) == 0x8000_0000_0000_0000);
    lemma_exp2_adds(63, 1);
}

/// `exp2(n)` for `n < 64`, computed.
pub fn exp2_u64(n: u64) -> (r: u64)
    requires
        n < 64,
    ensures
        r == exp2(n as nat),
{
    let mut r: u64 = 1;
    let mut i: u64 = 0;
    proof {
        lemma_exp2_values();
    }
    while i < n
        invariant
            i <= n < 64,
            r == exp2(i as nat),
            exp2(64) == 0x1_0000_0000_0000_0000,
        decreases n - i,
    {
        proof {
            lemma_exp2_monotone((i + 1) as nat, 63);
            lemma_exp2_values();
        }
        r = r * 2;
        i = i + 1;
    }
    r
}

/// The pattern without its sign bit.
pub open spec fn magnitude(b: u64) -> int {
    (b % SIGN_BIT) as int
}

/// The sign bit is set.
pub open spec fn sign_set(b: u64) -> bool {
    b >= SIGN_BIT
}

/// The biased exponent field, 0 to 2047.
pub open spec fn biased_exponent(b: u64) -> int {
    magnitude(b) / (EXPONENT_UNIT as int)
}

/// The fraction field.
pub open spec fn fraction(b: u64) -> int {
    (b % EXPONENT_UNIT) as int
}

/// Not a number: the exponent field is all ones and the fraction is not zero.
pub open spec fn is_nan(b: u64) -> bool {
    magnitude(b) > INFINITY_BITS
}

/// Positive or negative infinity.
pub open spec fn is_infinite(b: u64) -> bool {
    magnitude(b) == INFINITY_BITS
}

/// Neither infinite nor NaN.
pub open spec fn is_finite(b: u64) -> bool {
    magnitude(b) < INFINITY_BITS
}

/// Positive or negative zero.
pub open spec fn is_zero(b: u64) -> bool {
    magnitude(b) == 0
}

/// The value compares greater than zero (`x > 0.0`).
pub open spec fn is_above_zero(b: u64) -> bool {
    !sign_set(b) && 0 < magnitude(b) <= INFINITY_BITS
}

/// The value compares less than zero (`x < 0.0`).
pub open spec fn is_below_zero(b: u64) -> bool {
    sign_set(b) && 0 < magnitude(b) <= INFINITY_BITS
}

/// The significand of a finite value: the fraction, with the hidden bit for normal values.
pub open spec fn significand(b: u64) -> int {
    if biased_exponent(b) == 0 {
        fraction(b)
    } else {
        fraction(b) + EXPONENT_UNIT
    }
}

/// The power of two that scales the significand: a finite value is
/// `significand(b) * 2^binary_scale(b)`, negated when the sign bit is set.
pub open spec fn binary_scale(b: u64) -> int {
    if biased_exponent(b) == 0 {
        1 - 1075
    } else {
        biased_exponent(b) - 1075
    }
}

/// The magnitude of a finite value with its fractional part dropped.
pub open spec fn truncated_magnitude(b: u64) -> int {
    if binary_scale(b) >= 0 {
        significand(b) * exp2(binary_scale(b) as nat)
    } else {
        significand(b) / (exp2((-binary_scale(b)) as nat) as int)
    }
}

/// A finite value with its fractional part dropped (rounding toward zero).
pub open spec fn truncated(b: u64) -> int {
    if sign_set(b) {
        -truncated_magnitude(b)
    } else {
        truncated_magnitude(b)
    }
}

/// The value has no fractional part (`x.fract() == 0.0`): finite, and zero or
/// a whole number.
pub open spec fn is_integral(b: u64) -> bool {
    &&& is_finite(b)
    &&& (binary_scale(b) >= 0 || significand(b) % (exp2((-binary_scale(b)) as nat) as int) == 0)
}

pub open spec fn clamp(v: int, lo: int, hi: int) -> int {
    if v < lo {
        lo
    } else if v > hi {
        hi
    } else {
        v
    }
}

/// The value of `x as i64`: rounded toward zero, NaN to 0, saturating at the
/// bounds of `i64`.
pub open spec fn to_i64_value(b: u64) -> int {
    if is_nan(b) {
        0
    } else if is_infinite(b) {
        if sign_set(b) {
            i64::MIN as int
        } else {
            i64::MAX as int
        }
    } else {
        clamp(truncated(b), i64::MIN as int, i64::MAX as int)
    }
}

/// The value of `x as usize`: rounded toward zero, NaN to 0, saturating at 0
/// and at `usize::MAX`.
pub open spec fn to_usize_value(b: u64) -> int {
    if is_nan(b) {
        0
    } else if is_infinite(b) {
        if sign_set(b) {
            0
        } else {
            usize::MAX as int
        }
    } else {
        clamp(truncated(b), 0, usize::MAX as int)
    }
}

/// The position of the highest set bit of a positive number.
pub open spec fn top_bit(a: nat) -> nat
    decreases a,
{
    if a < 2 {
        0
    } else {
        1 + top_bit(a / 2)
    }
}

pub proof fn lemma_top_bit_bounds(a: nat)
    requires
        a >= 1,
    ensures
        exp2(top_bit(a)) <= a < exp2(top_bit(a) + 1),
    decreases a,
{
    if a >= 2 {
        lemma_top_bit_bounds(a / 2);
        assert(top_bit(a) == 1 + top_bit(a / 2));
        assert(exp2(top_bit(a)) == 2 * exp2(top_bit(a / 2)));
        assert(exp2(top_bit(a) + 1) == 2 * exp2(top_bit(a / 2) + 1));
    }
}

/// `a / 2^s` rounded to the nearest whole number, ties to the even one (`s >= 1`).
pub open spec fn round_half_even_shift(a: nat, s: nat) -> nat
    recommends
        s >= 1,
{
    let q = a / exp2(s);
    let r = a % exp2(s);
    let h = exp2((s - 1) as nat);
    if r > h || (r == h && q % 2 == 1) {
        q + 1
    } else {
        q
    }
}

/// The pattern of the binary64 value nearest to `a` (ties to an even
/// significand), for `0 <= a < 2^1000`: what the conversion of an integer to
/// binary64 gives.
pub open spec fn nearest_bits(a: nat) -> int {
    if a == 0 {
        0
    } else {
        let k = top_bit(a);
        if k <= 52 {
            (k + 1023) * EXPONENT_UNIT + (a - exp2(k)) * exp2((52 - k) as nat)
        } else {
            let q = round_half_even_shift(a, (k - 52) as nat);
            if q == exp2(53) {
                (k + 1024) * EXPONENT_UNIT
            } else {
                (k + 1023) * EXPONENT_UNIT + (q - EXPONENT_UNIT)
            }
        }
    }
}

/// The pattern of `v as f64`: the binary64 value nearest to `v`, ties to even.
pub open spec fn from_int(v: int) -> int {
    if v < 0 {
        SIGN_BIT + nearest_bits((-v) as nat)
    } else {
        nearest_bits(v as nat)
    }
}

/// The key by which binary64 `total_cmp` orders patterns: the pattern read as
/// a signed integer, with every bit but the sign flipped when the sign is set.
pub open spec fn order_key(b: u64) -> int {
    if b < SIGN_BIT {
        b as int
    } else {
        SIGN_BIT - 1 - b
    }
}


/// Computes `is_nan`.
pub fn nan(b: u64) -> (r: bool)
    ensures
        r == is_nan(b),
{
    b % SIGN_BIT > INFINITY_BITS
}

/// Computes `is_finite`.
pub fn finite(b: u64) -> (r: bool)
    ensures
        r == is_finite(b),
{
    b % SIGN_BIT < INFINITY_BITS
}

/// Computes `is_zero`.
pub fn zero(b: u64) -> (r: bool)
    ensures
        r == is_zero(b),
{
    b % SIGN_BIT == 0
}

/// Computes `is_above_zero`.
pub fn above_zero(b: u64) -> (r: bool)
    ensures
        r == is_above_zero(b),
{
    let m = b % SIGN_BIT;
    b < SIGN_BIT && 0 < m && m <= INFINITY_BITS
}

/// Computes `is_below_zero`.
pub fn below_zero(b: u64) -> (r: bool)
    ensures
        r == is_below_zero(b),
{
    let m = b % SIGN_BIT;
    b >= SIGN_BIT && 0 < m && m <= INFINITY_BITS
}

/// The pattern with the sign bit cleared (`x.abs()`).
pub fn absolute(b: u64) -> (r: u64)
    ensures
        r == magnitude(b),
{
    b % SIGN_BIT
}

/// The pattern with the sign bit flipped (`-x`).
pub fn negated(b: u64) -> (r: u64)
    ensures
        r == (if sign_set(b) { b - SIGN_BIT } else { b + SIGN_BIT }),
{
    if b >= SIGN_BIT {
        b - SIGN_BIT
    } else {
        b + SIGN_BIT
    }
}

proof fn lemma_fields(b: u64)
    ensures
        0 <= magnitude(b) < SIGN_BIT,
        0 <= fraction(b) < EXPONENT_UNIT,
        0 <= biased_exponent(b) < 2048,
        magnitude(b) == biased_exponent(b) * EXPONENT_UNIT + fraction(b),
        is_finite(b) <==> biased_exponent(b) < 2047,
        is_zero(b) <==> (biased_exponent(b) == 0 && fraction(b) == 0),
        0 <= significand(b) < exp2(53),
        biased_exponent(b) > 0 ==> significand(b) >= exp2(52),
{
    lemma_exp2_values();
    assert(fraction(b) == magnitude(b) % (EXPONENT_UNIT as int));
}

/// The significand and the binary scale of a pattern, computed.
fn decompose(b: u64) -> (r: (u64, u64))
    ensures
        r.0 == significand(b),
        r.1 == biased_exponent(b),
        r.0 < exp2(53),
        r.1 < 2048,
{
    proof {
        lemma_fields(b);
    }
    let m = b % SIGN_BIT;
    let e = m / EXPONENT_UNIT;
    let f = b % EXPONENT_UNIT;
    if e == 0 {
        (f, e)
    } else {
        (f + EXPONENT_UNIT, e)
    }
}

proof fn lemma_small_truncates_to_zero(b: u64)
    requires
        biased_exponent(b) < 1023,
    ensures
        truncated_magnitude(b) == 0,
{
    lemma_fields(b);
    let s = (-binary_scale(b)) as nat;
    assert(s >= 53);
    lemma_exp2_monotone(53, s);
    assert(significand(b) < exp2(s));
    assert(significand(b) / (exp2(s) as int) == 0) by (nonlinear_arith)
        requires
            0 <= significand(b) < exp2(s),
    ;
}

proof fn lemma_large_truncation(b: u64, bound: nat)
    requires
        is_finite(b),
        biased_exponent(b) >= 1075 + bound - 52,
        bound >= 52,
    ensures
        truncated_magnitude(b) >= exp2(bound),
{
    lemma_fields(b);
    let k = binary_scale(b) as nat;
    lemma_exp2_monotone((bound - 52) as nat, k);
    lemma_exp2_adds(52, (bound - 52) as nat);
    assert(significand(b) * exp2(k) >= exp2(52) * exp2((bound - 52) as nat)) by (nonlinear_arith)
        requires
            significand(b) >= exp2(52),
            exp2(k) >= exp2((bound - 52) as nat),
            exp2(52) >= 1,
    ;
    assert((52 + (bound - 52)) as nat == bound);
}

proof fn lemma_truncated_nonnegative(b: u64)
    ensures
        truncated_magnitude(b) >= 0,
{
    lemma_fields(b);
    if binary_scale(b) >= 0 {
        let k = binary_scale(b) as nat;
        assert(significand(b) * exp2(k) >= 0) by (nonlinear_arith)
            requires
                significand(b) >= 0,
        ;
    } else {
        let k = (-binary_scale(b)) as nat;
        lemma_exp2_positive(k);
        assert(significand(b) / (exp2(k) as int) >= 0) by (nonlinear_arith)
            requires
                significand(b) >= 0,
                exp2(k) >= 1,
        ;
    }
}

/// The truncated magnitude of a pattern whose exponent is between 1023 and `1075 + limit - 53`.
fn truncate_in_range(b: u64, limit: u64) -> (r: u64)
    requires
        1023 <= biased_exponent(b) <= 1075 + limit - 53,
        53 <= limit <= 64,
    ensures
        r == truncated_magnitude(b),
        r < exp2(limit as nat),
{
    let (sig, e) = decompose(b);
    proof {
        lemma_fields(b);
        lemma_exp2_values();
    }
    if e >= 1075 {
        let k = e - 1075;
        let p = exp2_u64(k);
        proof {
            lemma_exp2_positive(k as nat);
            lemma_exp2_adds(53, k as nat);
            lemma_exp2_monotone((53 + k) as nat, limit as nat);
            lemma_exp2_monotone(limit as nat, 64);
            assert(sig * p < exp2(53) * exp2(k as nat)) by (nonlinear_arith)
                requires
                    sig < exp2(53),
                    p == exp2(k as nat),
                    p >= 1,
            ;
            lemma_exp2_positive(k as nat);
        }
        sig * p
    } else {
        let k = 1075 - e;
        let p = exp2_u64(k);
        proof {
            lemma_exp2_positive(k as nat);
            lemma_exp2_monotone(53, limit as nat);
            assert(sig / p <= sig) by (nonlinear_arith)
                requires
                    p >= 1,
                    sig >= 0,
            ;
        }
        sig / p
    }
}

/// Computes `x as i64` from the pattern of `x`.
pub fn to_i64(b: u64) -> (r: i64)
    ensures
        r == to_i64_value(b),
{
    proof {
        lemma_fields(b);
        lemma_exp2_values();
    }
    if b % SIGN_BIT > INFINITY_BITS {
        return 0;
    }
    let e = (b % SIGN_BIT) / EXPONENT_UNIT;
    if e >= 1086 {
        proof {
            if is_finite(b) {
                lemma_large_truncation(b, 63);
            }
        }
        return if b >= SIGN_BIT {
            i64::MIN
        } else {
            i64::MAX
        };
    }
    if e < 1023 {
        proof {
            lemma_small_truncates_to_zero(b);
        }
        return 0;
    }
    let t = truncate_in_range(b, 63);
    if b >= SIGN_BIT {
        -(t as i64)
    } else {
        t as i64
    }
}

/// Computes `x as usize` from the pattern of `x`.
pub fn to_usize(b: u64) -> (r: usize)
    ensures
        r == to_usize_value(b),
{
    proof {
        lemma_fields(b);
        lemma_exp2_values();
    }
    if b % SIGN_BIT > INFINITY_BITS {
        return 0;
    }
    let e = (b % SIGN_BIT) / EXPONENT_UNIT;
    if e < 1023 {
        proof {
            lemma_small_truncates_to_zero(b);
        }
        return 0;
    }
    if b >= SIGN_BIT {
        proof {
            lemma_truncated_nonnegative(b);
        }
        return 0;
    }
    if e >= 1087 {
        proof {
            if is_finite(b) {
                lemma_large_truncation(b, 64);
            }
        }
        return usize::MAX;
    }
    let t = truncate_in_range(b, 64);
    if t > usize::MAX as u64 {
        usize::MAX
    } else {
        t as usize
    }
}

/// Computes `nearest_bits(a)`.
fn nearest_pattern(a: u64) -> (r: u64)
    requires
        a <= SIGN_BIT,
    ensures
        r == nearest_bits(a as nat),
        r < INFINITY_BITS,
{
    proof {
        lemma_exp2_values();
    }
    if a == 0 {
        return 0;
    }
    proof {
        lemma_top_bit_bounds(a as nat);
        if top_bit(a as nat) >= 64 {
            lemma_exp2_monotone(64, top_bit(a as nat));
        }
    }
    let mut k: u64 = 0;
    let mut t: u64 = a;
    while t >= 2
        invariant
            1 <= t <= a,
            k + top_bit(t as nat) == top_bit(a as nat),
            top_bit(a as nat) <= 63,
        decreases t,
    {
        t = t / 2;
        k = k + 1;
    }
    assert(k <= 63);
    if k <= 52 {
        let p = exp2_u64(k);
        let s = exp2_u64(52 - k);
        proof {
            lemma_exp2_positive((52 - k) as nat);
            lemma_exp2_adds(k as nat, (52 - k) as nat);
            assert((a - p) * s < p * s) by (nonlinear_arith)
                requires
                    a - p < p,
                    s >= 1,
                    a >= p,
            ;
            lemma_exp2_positive((52 - k) as nat);
        }
        (k + 1023) * EXPONENT_UNIT + (a - p) * s
    } else {
        let sh = k - 52;
        let d = exp2_u64(sh);
        let h = exp2_u64(sh - 1);
        proof {
            lemma_exp2_positive(sh as nat);
        }
        let q0 = a / d;
        let rem = a % d;
        proof {
            lemma_exp2_adds(52, sh as nat);
            lemma_exp2_adds(53, sh as nat);
            lemma_exp2_positive(sh as nat);
            assert(q0 >= exp2(52)) by (nonlinear_arith)
                requires
                    a >= exp2(52) * d,
                    d >= 1,
                    q0 == a / d,
            ;
            assert(q0 < exp2(53)) by (nonlinear_arith)
                requires
                    a < exp2(53) * d,
                    d >= 1,
                    q0 == a / d,
            ;
            assert((52 + sh) as nat == k);
            assert((53 + sh) as nat == k + 1);
        }
        let q = if rem > h || (rem == h && q0 % 2 == 1) {
            q0 + 1
        } else {
            q0
        };
        if q == EXPONENT_UNIT * 2 {
            (k + 1024) * EXPONENT_UNIT
        } else {
            (k + 1023) * EXPONENT_UNIT + (q - EXPONENT_UNIT)
        }
    }
}

/// Computes the pattern of `v as f64`.
pub fn from_i64(v: i64) -> (r: u64)
    ensures
        r == from_int(v as int),
{
    if v < 0 {
        let a: u64 = if v == i64::MIN {
            SIGN_BIT
        } else {
            (-v) as u64
        };
        SIGN_BIT + nearest_pattern(a)
    } else {
        nearest_pattern(v as u64)
    }
}

/// Computes `order_key`.
pub fn order_key_of(b: u64) -> (r: i64)
    ensures
        r == order_key(b),
{
    if b < SIGN_BIT {
        b as i64
    } else {
        let low = (b - SIGN_BIT) as i64;
        -1 - low
    }
}

/// Computes `is_integral` (`x.fract() == 0.0`).
pub fn integral(b: u64) -> (r: bool)
    ensures
        r == is_integral(b),
{
    proof {
        lemma_fields(b);
        lemma_exp2_values();
    }
    let m = b % SIGN_BIT;
    if m >= INFINITY_BITS {
        return false;
    }
    let (sig, e) = decompose(b);
    if e >= 1075 {
        return true;
    }
    if e < 1023 {
        proof {
            let k = (-binary_scale(b)) as nat;
            lemma_exp2_monotone(53, k);
            if m != 0 {
                assert(0 < significand(b) < exp2(k));
                assert(significand(b) % (exp2(k) as int) == significand(b)) by (nonlinear_arith)
                    requires
                        0 < significand(b) < exp2(k),
                ;
            } else {
                assert(significand(b) == 0);
                lemma_exp2_positive(k);
                assert(0int % (exp2(k) as int) == 0) by (nonlinear_arith)
                    requires
                        exp2(k) >= 1,
                ;
            }
        }
        return m == 0;
    }
    let p = exp2_u64(1075 - e);
    proof {
        lemma_exp2_positive((1075 - e) as nat);
    }
    sig % p == 0
}

} // verus!
