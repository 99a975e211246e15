//! The numeric value of SurrealQL: a 64-bit integer, a binary64 float (held by
//! its bit pattern), or a fixed-point decimal.
use crate::binary64;
use crate::decimal::{self, Dec};
use core::cmp::Ordering;
use vstd::prelude::*;

verus! {

/// A SurrealQL number.
#[derive(Clone, Copy, Debug)]
pub enum Number {
    Int(i64),
    /// A binary64 value, by its IEEE-754 bit pattern.
    Float(u64),
    Decimal(Dec),
}

/// The binary64 pattern of an integer or a float (`to_float`): an integer
/// converted with rounding to nearest, a float itself. A decimal has no fixed
/// pattern (see `pattern_with`); zero stands here.
pub open spec fn float_pattern(n: Number) -> u64 {
    match n {
        Number::Int(v) => binary64::from_int(v as int) as u64,
        Number::Float(b) => b,
        Number::Decimal(_) => 0,
    }
}

/// The binary64 pattern of a number where the conversion of a decimal gave
/// `p`. A decimal is converted by `rust_decimal`'s `to_f64`, which rounds
/// through `f64::powi`, whose precision std leaves unspecified: the pattern
/// is what that call returned, and no function of the decimal.
pub open spec fn pattern_with(n: Number, p: u64) -> u64 {
    if n is Decimal {
        p
    } else {
        float_pattern(n)
    }
}

/// The pattern `p` is one that converting the decimal of the pair `(a, b)`
/// can give (`decimal::binary64_fits`), where a decimal meets a float.
pub open spec fn pattern_fits(a: Number, b: Number, p: u64) -> bool {
    match (a, b) {
        (Number::Float(_), Number::Decimal(w)) => decimal::binary64_fits(decimal::full(w), p),
        (Number::Decimal(v), Number::Float(_)) => decimal::binary64_fits(decimal::full(v), p),
        _ => true,
    }
}

/// A decimal meets a float: comparing them converts the decimal to binary64.
pub open spec fn converts(a: Number, b: Number) -> bool {
    (a is Decimal && b is Float) || (a is Float && b is Decimal)
}

/// The comparison of two binary64 values by `total_cmp`, with the two zeros
/// equal: -1, 0 or 1.
pub open spec fn float_order(a: u64, b: u64) -> int {
    if binary64::is_zero(a) && binary64::is_zero(b) {
        0
    } else if binary64::order_key(a) < binary64::order_key(b) {
        -1
    } else if binary64::order_key(a) == binary64::order_key(b) {
        0
    } else {
        1
    }
}

/// Two binary64 values are the same pattern, or both are zeros.
pub open spec fn float_same(a: u64, b: u64) -> bool {
    a == b || (binary64::is_zero(a) && binary64::is_zero(b))
}

/// The comparison of two decimals by the numbers they denote: -1, 0 or 1.
pub open spec fn decimal_order(a: (int, nat), b: (int, nat)) -> int {
    if decimal::value_less(a, b) {
        -1
    } else if decimal::value_equal(a, b) {
        0
    } else {
        1
    }
}

/// The comparison of two integers: -1, 0 or 1.
pub open spec fn int_order(a: int, b: int) -> int {
    if a < b {
        -1
    } else if a == b {
        0
    } else {
        1
    }
}

/// The comparison of two 64-bit integers.
pub open spec fn int64_order(a: i64, b: i64) -> int {
    int_order(a as int, b as int)
}

/// How `a` compares with `b` (-1, 0 or 1): integers and decimals by their
/// values, an integer with a decimal as that decimal, and anything with a
/// float by `float_order` on the binary64 patterns, a decimal's being `p`.
pub open spec fn order(a: Number, b: Number, p: u64) -> int {
    match (a, b) {
        (Number::Int(v), Number::Int(w)) => int_order(v as int, w as int),
        (Number::Decimal(v), Number::Decimal(w)) => decimal_order(v@, w@),
        (Number::Int(v), Number::Decimal(w)) => decimal_order((v as int, 0nat), w@),
        (Number::Decimal(v), Number::Int(w)) => decimal_order(v@, (w as int, 0nat)),
        _ => float_order(pattern_with(a, p), pattern_with(b, p)),
    }
}

/// `a` equals `b`: integers and decimals by their values, anything with a float
/// by `float_same` on the binary64 patterns, a decimal's being `p`.
pub open spec fn equals(a: Number, b: Number, p: u64) -> bool {
    match (a, b) {
        (Number::Int(v), Number::Int(w)) => v == w,
        (Number::Decimal(v), Number::Decimal(w)) => decimal::value_equal(v@, w@),
        (Number::Int(v), Number::Decimal(w)) => decimal::value_equal((v as int, 0nat), w@),
        (Number::Decimal(v), Number::Int(w)) => decimal::value_equal(v@, (w as int, 0nat)),
        _ => float_same(pattern_with(a, p), pattern_with(b, p)),
    }
}


/// The `Ordering` that stands for -1, 0 or 1.
pub open spec fn ordering_is(r: Ordering, v: int) -> bool {
    &&& (r is Less) <==> v < 0
    &&& (r is Equal) <==> v == 0
    &&& (r is Greater) <==> v > 0
}

/// Compares two binary64 patterns by `total_cmp`, with the two zeros equal.
fn compare_floats(a: u64, b: u64) -> (r: Ordering)
    ensures
        ordering_is(r, float_order(a, b)),
{
    if binary64::zero(a) && binary64::zero(b) {
        return Ordering::Equal;
    }
    let x = binary64::order_key_of(a);
    let y = binary64::order_key_of(b);
    if x < y {
        Ordering::Less
    } else if x == y {
        Ordering::Equal
    } else {
        Ordering::Greater
    }
}

/// Two binary64 patterns are the same, or both zeros.
fn same_floats(a: u64, b: u64) -> (r: bool)
    ensures
        r == float_same(a, b),
{
    a == b || (binary64::zero(a) && binary64::zero(b))
}

fn compare_ints(a: i64, b: i64) -> (r: Ordering)
    ensures
        ordering_is(r, int64_order(a, b)),
{
    if a < b {
        Ordering::Less
    } else if a == b {
        Ordering::Equal
    } else {
        Ordering::Greater
    }
}

fn compare_decimals(a: &Dec, b: &Dec) -> (r: Ordering)
    ensures
        ordering_is(r, decimal_order(a@, b@)),
{
    let r = decimal::order_decimals(a, b);
    proof {
        lemma_decimal_order_exclusive(a@, b@);
    }
    r
}

proof fn lemma_decimal_order_exclusive(a: (int, nat), b: (int, nat))
    ensures
        !(decimal::value_less(a, b) && decimal::value_equal(a, b)),
        !(decimal::value_less(a, b) && decimal::value_less(b, a)),
        !(decimal::value_equal(a, b) && decimal::value_less(b, a)),
        decimal::value_less(a, b) || decimal::value_equal(a, b) || decimal::value_less(b, a),
{
}

impl Number {
    /// The binary64 NaN that `f64::NAN` is.
    pub fn nan() -> (r: Number)
        ensures
            r == Number::Float(binary64::NAN_BITS),
    {
        Number::Float(binary64::NAN_BITS)
    }

    /// How `self` compares with `other` (`Ord::cmp`). Without a decimal
    /// meeting a float the order is exact; where one does, the decimal is
    /// converted by `rust_decimal`'s `to_f64`, and the result is the order of
    /// the pattern that came back against the float.
    pub fn cmp(&self, other: &Number) -> (r: Ordering)
        ensures
            !(*self is Float) && !(*other is Float) ==> ((r is Less) <==> exact_value(*self).0 * decimal::pow10(
                exact_value(*other).1,
            ) < exact_value(*other).0 * decimal::pow10(exact_value(*self).1)) && ((r is Equal) <==> exact_value(
                *self,
            ).0 * decimal::pow10(exact_value(*other).1) == exact_value(*other).0 * decimal::pow10(
                exact_value(*self).1,
            )),
            !converts(*self, *other) ==> ordering_is(r, order(*self, *other, 0)),
            exists|p: u64| ordering_is(r, #[trigger] order(*self, *other, p)) && pattern_fits(*self, *other, p),
            *self is Float || *other is Float ==> exists|p: u64|
                #![trigger pattern_with(*self, p)]
                pattern_fits(*self, *other, p) && ((r is Less) <==> merged_key(pattern_with(*self, p))
                    < merged_key(pattern_with(*other, p))) && ((r is Equal) <==> merged_key(
                    pattern_with(*self, p),
                ) == merged_key(pattern_with(*other, p))),
    {
        let p = converted_pattern(self, other);
        let r = compare_with_pattern(self, other, p);
        proof {
            if !converts(*self, *other) {
                lemma_pattern_unused(*self, *other, p, 0);
            }
            if !(*self is Float) && !(*other is Float) {
                lemma_exact_order(*self, *other, p);
                lemma_decimal_order_exclusive(exact_value(*self), exact_value(*other));
            } else {
                lemma_float_order_by_key(pattern_with(*self, p), pattern_with(*other, p));
                assert(pattern_with(*self, p) == pattern_with(*self, p));
            }
        }
        r
    }

    /// `Some(self.cmp(other))` (`PartialOrd::partial_cmp`).
    pub fn partial_cmp(&self, other: &Number) -> (r: Option<Ordering>)
        ensures
            r is Some,
            !converts(*self, *other) ==> ordering_is(r.unwrap(), order(*self, *other, 0)),
            exists|p: u64| ordering_is(r.unwrap(), #[trigger] order(*self, *other, p)) && pattern_fits(
                *self,
                *other,
                p,
            ),
    {
        Some(self.cmp(other))
    }
}

/// The pattern of the decimal where a decimal meets a float (a call of
/// `to_f64`), else zero (nothing is converted).
fn converted_pattern(a: &Number, b: &Number) -> (r: u64)
    ensures
        !converts(*a, *b) ==> r == 0,
        pattern_fits(*a, *b, r),
{
    match (a, b) {
        (Number::Float(_), Number::Decimal(w)) => decimal::to_binary64(w),
        (Number::Decimal(v), Number::Float(_)) => decimal::to_binary64(v),
        _ => 0,
    }
}

/// Converting the decimal of the pair is fixed by `rust_decimal`'s source: its
/// scale is 0, or it is a whole number.
pub open spec fn fixed_conversion(a: Number, b: Number) -> bool {
    match (a, b) {
        (Number::Float(_), Number::Decimal(w)) | (Number::Decimal(w), Number::Float(_)) => w@.1 == 0
            || decimal::magnitude(w@.0) % decimal::pow10(w@.1) == 0,
        _ => true,
    }
}

/// Two comparisons of the same numbers in either order, each with a pattern
/// that the decimal's conversion can give, are reversed, and two equality
/// tests agree, wherever that conversion is fixed (always, unless a decimal
/// that is not whole meets a float).
pub proof fn lemma_compare_reverses_across_calls(a: Number, b: Number, p: u64, q: u64)
    requires
        pattern_fits(a, b, p),
        pattern_fits(b, a, q),
        fixed_conversion(a, b),
    ensures
        order(a, b, p) == -order(b, a, q),
        equals(a, b, p) == equals(b, a, q),
{
    if converts(a, b) {
        assert(p == q);
    } else {
        lemma_pattern_unused(b, a, q, p);
    }
    lemma_compare_antisymmetric(a, b, p);
    lemma_equal_iff_compare_equal(a, b, p);
    lemma_equal_iff_compare_equal(b, a, p);
}

/// Where no decimal meets a float, the order and the equality do not depend
/// on the pattern given for a decimal.
pub proof fn lemma_pattern_unused(a: Number, b: Number, p: u64, q: u64)
    requires
        !converts(a, b),
    ensures
        order(a, b, p) == order(a, b, q),
        equals(a, b, p) == equals(a, b, q),
{
}

/// How `a` compares with `b`, where converting the decimal (if a decimal meets
/// a float) gave the pattern `p`.
pub fn compare_with_pattern(a: &Number, b: &Number, p: u64) -> (r: Ordering)
    ensures
        ordering_is(r, order(*a, *b, p)),
{
    match (a, b) {
        (Number::Int(v), Number::Int(w)) => compare_ints(*v, *w),
        (Number::Float(v), Number::Float(w)) => compare_floats(*v, *w),
        (Number::Decimal(v), Number::Decimal(w)) => compare_decimals(v, w),
        (Number::Int(v), Number::Float(w)) => compare_floats(binary64::from_i64(*v), *w),
        (Number::Float(v), Number::Int(w)) => compare_floats(*v, binary64::from_i64(*w)),
        (Number::Int(v), Number::Decimal(w)) => compare_decimals(&Dec::from_int(*v), w),
        (Number::Decimal(v), Number::Int(w)) => compare_decimals(v, &Dec::from_int(*w)),
        (Number::Float(v), Number::Decimal(_)) => compare_floats(*v, p),
        (Number::Decimal(_), Number::Float(w)) => compare_floats(p, *w),
    }
}

/// Whether `a` equals `b`, where converting the decimal (if a decimal meets a
/// float) gave the pattern `p`.
pub fn equal_with_pattern(a: &Number, b: &Number, p: u64) -> (r: bool)
    ensures
        r == equals(*a, *b, p),
{
    match (a, b) {
        (Number::Int(v), Number::Int(w)) => *v == *w,
        (Number::Float(v), Number::Float(w)) => same_floats(*v, *w),
        (Number::Decimal(v), Number::Decimal(w)) => decimal::decimal_equal(v, w),
        (Number::Int(v), Number::Float(w)) => same_floats(binary64::from_i64(*v), *w),
        (Number::Float(v), Number::Int(w)) => same_floats(*v, binary64::from_i64(*w)),
        (Number::Int(v), Number::Decimal(w)) => decimal::decimal_equal(&Dec::from_int(*v), w),
        (Number::Decimal(v), Number::Int(w)) => decimal::decimal_equal(v, &Dec::from_int(*w)),
        (Number::Float(v), Number::Decimal(_)) => same_floats(*v, p),
        (Number::Decimal(_), Number::Float(w)) => same_floats(p, *w),
    }
}

impl PartialEq for Number {
    /// Equality (`==`): exact without a decimal meeting a float; where one
    /// does, the float against the pattern that the decimal's conversion gave.
    fn eq(&self, other: &Number) -> (r: bool)
        ensures
            !converts(*self, *other) ==> r == equals(*self, *other, 0),
            exists|p: u64| r == #[trigger] equals(*self, *other, p) && pattern_fits(*self, *other, p),
            !(*self is Float) && !(*other is Float) ==> (r <==> exact_value(*self).0 * decimal::pow10(
                exact_value(*other).1,
            ) == exact_value(*other).0 * decimal::pow10(exact_value(*self).1)),
            *self is Float || *other is Float ==> exists|p: u64|
                #![trigger pattern_with(*self, p)]
                pattern_fits(*self, *other, p) && (r <==> merged_key(pattern_with(*self, p)) == merged_key(
                    pattern_with(*other, p),
                )),
    {
        let p = converted_pattern(self, other);
        let r = equal_with_pattern(self, other, p);
        proof {
            if !converts(*self, *other) {
                lemma_pattern_unused(*self, *other, p, 0);
            }
            if !(*self is Float) && !(*other is Float) {
                lemma_exact_order(*self, *other, p);
            } else {
                lemma_float_order_by_key(pattern_with(*self, p), pattern_with(*other, p));
                assert(pattern_with(*self, p) == pattern_with(*self, p));
            }
        }
        r
    }
}

impl vstd::std_specs::cmp::PartialEqSpecImpl for Number {
    /// `==` is not a function of the two numbers where a decimal meets a
    /// float (the conversion's result is not fixed), so no `eq_spec` is
    /// claimed of it; `eq`'s own contract says what holds.
    open spec fn obeys_eq_spec() -> bool {
        false
    }

    open spec fn eq_spec(&self, other: &Number) -> bool {
        equals(*self, *other, 0)
    }
}

/// The merged `total_cmp` key: the key of the pattern, with both zeros at 0.
pub open spec fn merged_key(b: u64) -> int {
    if binary64::is_zero(b) {
        0
    } else {
        binary64::order_key(b)
    }
}

proof fn lemma_float_order_by_key(a: u64, b: u64)
    ensures
        float_order(a, b) == int_order(merged_key(a), merged_key(b)),
        float_same(a, b) <==> merged_key(a) == merged_key(b),
{
    assert(binary64::order_key(a) == binary64::order_key(b) ==> a == b);
}

/// The value of an integer or a decimal, as a decimal.
pub open spec fn exact_value(n: Number) -> (int, nat) {
    match n {
        Number::Int(v) => (v as int, 0nat),
        Number::Decimal(d) => d@,
        Number::Float(_) => (0int, 0nat),
    }
}

/// An integer or a decimal as a decimal in full (`Decimal::from` of an
/// integer: scale 0, the sign of the integer).
pub open spec fn exact_full(n: Number) -> (int, nat, bool) {
    match n {
        Number::Int(v) => (v as int, 0nat, v < 0),
        Number::Decimal(d) => decimal::full(d),
        Number::Float(_) => (0int, 0nat, false),
    }
}

proof fn lemma_exact_order(a: Number, b: Number, p: u64)
    requires
        !(a is Float),
        !(b is Float),
    ensures
        order(a, b, p) == decimal_order(exact_value(a), exact_value(b)),
        equals(a, b, p) <==> decimal::value_equal(exact_value(a), exact_value(b)),
{
    assert(decimal::pow10(0) == 1);
    if let (Number::Int(v), Number::Int(w)) = (a, b) {
        assert((v as int) * 1 == v as int);
        assert((w as int) * 1 == w as int);
        assert(decimal::value_less((v as int, 0nat), (w as int, 0nat)) <==> v < w);
        assert(decimal::value_equal((v as int, 0nat), (w as int, 0nat)) <==> v == w);
    }
}

/// Two numbers are equal (`==`) exactly when `cmp` finds them equal (given
/// the same pattern for a decimal that meets a float).
pub proof fn lemma_equal_iff_compare_equal(a: Number, b: Number, p: u64)
    ensures
        equals(a, b, p) <==> order(a, b, p) == 0,
{
    if a is Float || b is Float {
        lemma_float_order_by_key(pattern_with(a, p), pattern_with(b, p));
    } else {
        lemma_exact_order(a, b, p);
        lemma_decimal_order_exclusive(exact_value(a), exact_value(b));
    }
}

/// `cmp` is antisymmetric: swapping the operands reverses the result (given
/// the same pattern for a decimal that meets a float).
pub proof fn lemma_compare_antisymmetric(a: Number, b: Number, p: u64)
    ensures
        order(a, b, p) == -order(b, a, p),
{
    if a is Float || b is Float {
        lemma_float_order_by_key(pattern_with(a, p), pattern_with(b, p));
        lemma_float_order_by_key(pattern_with(b, p), pattern_with(a, p));
    } else {
        lemma_exact_order(a, b, p);
        lemma_exact_order(b, a, p);
        lemma_decimal_order_exclusive(exact_value(a), exact_value(b));
    }
}

/// Every number compares equal to itself.
pub proof fn lemma_compare_reflexive(a: Number, p: u64)
    ensures
        order(a, a, p) == 0,
        equals(a, a, p),
{
    lemma_equal_iff_compare_equal(a, a, p);
    if a is Float {
        lemma_float_order_by_key(float_pattern(a), float_pattern(a));
    } else {
        lemma_exact_order(a, a, p);
    }
}

proof fn lemma_decimal_order_transitive(x: (int, nat), y: (int, nat), z: (int, nat))
    requires
        decimal_order(x, y) <= 0,
        decimal_order(y, z) <= 0,
    ensures
        decimal_order(x, z) <= 0,
        decimal_order(x, y) < 0 || decimal_order(y, z) < 0 ==> decimal_order(x, z) < 0,
{
    decimal::lemma_pow10_positive(x.1);
    decimal::lemma_pow10_positive(y.1);
    decimal::lemma_pow10_positive(z.1);
    let px = decimal::pow10(x.1) as int;
    let py = decimal::pow10(y.1) as int;
    let pz = decimal::pow10(z.1) as int;
    assert(x.0 * py <= y.0 * px);
    assert(y.0 * pz <= z.0 * py);
    assert(x.0 * pz <= z.0 * px) by (nonlinear_arith)
        requires
            x.0 * py <= y.0 * px,
            y.0 * pz <= z.0 * py,
            px > 0,
            py > 0,
            pz > 0,
    ;
    if x.0 * py < y.0 * px || y.0 * pz < z.0 * py {
        assert(x.0 * pz < z.0 * px) by (nonlinear_arith)
            requires
                x.0 * py <= y.0 * px,
                y.0 * pz <= z.0 * py,
                x.0 * py < y.0 * px || y.0 * pz < z.0 * py,
                px > 0,
                py > 0,
                pz > 0,
        ;
    }
}

/// Among integers and decimals, `cmp` is transitive: a total order by value.
pub proof fn lemma_compare_transitive_exact(a: Number, b: Number, c: Number, p: u64)
    requires
        !(a is Float),
        !(b is Float),
        !(c is Float),
        order(a, b, p) <= 0,
        order(b, c, p) <= 0,
    ensures
        order(a, c, p) <= 0,
        order(a, b, p) < 0 || order(b, c, p) < 0 ==> order(a, c, p) < 0,
{
    lemma_exact_order(a, b, p);
    lemma_exact_order(b, c, p);
    lemma_exact_order(a, c, p);
    lemma_decimal_order_transitive(exact_value(a), exact_value(b), exact_value(c));
}

/// Among floats, `cmp` is transitive: the `total_cmp` order with the two zeros merged.
pub proof fn lemma_compare_transitive_floats(a: Number, b: Number, c: Number, p: u64)
    requires
        a is Float,
        b is Float,
        c is Float,
        order(a, b, p) <= 0,
        order(b, c, p) <= 0,
    ensures
        order(a, c, p) <= 0,
        order(a, b, p) < 0 || order(b, c, p) < 0 ==> order(a, c, p) < 0,
{
    lemma_float_order_by_key(float_pattern(a), float_pattern(b));
    lemma_float_order_by_key(float_pattern(b), float_pattern(c));
    lemma_float_order_by_key(float_pattern(a), float_pattern(c));
}


/// The sign of a decimal as `rust_decimal` compares it with zero: -1, 0 or 1.
fn decimal_sign(d: &Dec) -> (r: i8)
    ensures
        r == int_order(d@.0, 0),
{
    let z = Dec::zero();
    let o = decimal::order_decimals(d, &z);
    proof {
        assert(decimal::pow10(0) == 1);
        assert(d@.0 * 1 == d@.0);
        assert(0 * decimal::pow10(d@.1) == 0);
    }
    match o {
        Ordering::Less => -1,
        Ordering::Equal => 0,
        Ordering::Greater => 1,
    }
}

impl Number {
    /// The number is a binary64 NaN.
    pub fn is_nan(&self) -> (r: bool)
        ensures
            r == (*self matches Number::Float(b) && binary64::is_nan(b)),
    {
        match self {
            Number::Float(b) => binary64::nan(*b),
            _ => false,
        }
    }

    pub fn is_int(&self) -> (r: bool)
        ensures
            r == (*self is Int),
    {
        matches!(self, Number::Int(_))
    }

    pub fn is_float(&self) -> (r: bool)
        ensures
            r == (*self is Float),
    {
        matches!(self, Number::Float(_))
    }

    pub fn is_decimal(&self) -> (r: bool)
        ensures
            r == (*self is Decimal),
    {
        matches!(self, Number::Decimal(_))
    }

    /// The number has no fractional part: every integer, a float whose
    /// `fract()` is zero, a decimal that `is_integer`.
    pub fn is_integer(&self) -> (r: bool)
        ensures
            r == match *self {
                Number::Int(_) => true,
                Number::Float(b) => binary64::is_integral(b),
                Number::Decimal(d) => d@.0 % (decimal::pow10(d@.1) as int) == 0,
            },
    {
        match self {
            Number::Int(_) => true,
            Number::Float(b) => binary64::integral(*b),
            Number::Decimal(d) => d.is_integer(),
        }
    }

    /// The number is not zero (a NaN is truthy).
    pub fn is_truthy(&self) -> (r: bool)
        ensures
            r == match *self {
                Number::Int(v) => v != 0,
                Number::Float(b) => !binary64::is_zero(b),
                Number::Decimal(d) => d@.0 != 0,
            },
    {
        match self {
            Number::Int(v) => *v != 0,
            Number::Float(b) => !binary64::zero(*b),
            Number::Decimal(d) => decimal_sign(d) != 0,
        }
    }

    /// The number is above zero.
    pub fn is_positive(&self) -> (r: bool)
        ensures
            r == match *self {
                Number::Int(v) => v > 0,
                Number::Float(b) => binary64::is_above_zero(b),
                Number::Decimal(d) => d@.0 > 0,
            },
    {
        match self {
            Number::Int(v) => *v > 0,
            Number::Float(b) => binary64::above_zero(*b),
            Number::Decimal(d) => decimal_sign(d) > 0,
        }
    }

    /// The number is below zero.
    pub fn is_negative(&self) -> (r: bool)
        ensures
            r == match *self {
                Number::Int(v) => v < 0,
                Number::Float(b) => binary64::is_below_zero(b),
                Number::Decimal(d) => d@.0 < 0,
            },
    {
        match self {
            Number::Int(v) => *v < 0,
            Number::Float(b) => binary64::below_zero(*b),
            Number::Decimal(d) => decimal_sign(d) < 0,
        }
    }

    /// The number equals zero (either zero of binary64).
    pub fn is_zero(&self) -> (r: bool)
        ensures
            r == match *self {
                Number::Int(v) => v == 0,
                Number::Float(b) => binary64::is_zero(b),
                Number::Decimal(d) => d@.0 == 0,
            },
    {
        match self {
            Number::Int(v) => *v == 0,
            Number::Float(b) => binary64::zero(*b),
            Number::Decimal(d) => decimal_sign(d) == 0,
        }
    }

    /// The number is zero or above (a NaN is neither).
    pub fn is_zero_or_positive(&self) -> (r: bool)
        ensures
            r == match *self {
                Number::Int(v) => v >= 0,
                Number::Float(b) => binary64::is_zero(b) || binary64::is_above_zero(b),
                Number::Decimal(d) => d@.0 >= 0,
            },
    {
        match self {
            Number::Int(v) => *v >= 0,
            Number::Float(b) => binary64::zero(*b) || binary64::above_zero(*b),
            Number::Decimal(d) => decimal_sign(d) >= 0,
        }
    }

    /// The number is zero or below (a NaN is neither).
    pub fn is_zero_or_negative(&self) -> (r: bool)
        ensures
            r == match *self {
                Number::Int(v) => v <= 0,
                Number::Float(b) => binary64::is_zero(b) || binary64::is_below_zero(b),
                Number::Decimal(d) => d@.0 <= 0,
            },
    {
        match self {
            Number::Int(v) => *v <= 0,
            Number::Float(b) => binary64::zero(*b) || binary64::below_zero(*b),
            Number::Decimal(d) => decimal_sign(d) <= 0,
        }
    }
}


/// `x as usize` of a 64-bit integer: its value modulo `usize::MAX + 1`.
pub open spec fn int_to_usize(v: i64) -> usize {
    v as usize
}

/// The value `to_int` and `as_int` give.
pub open spec fn int_value(n: Number) -> int {
    match n {
        Number::Int(v) => v as int,
        Number::Float(b) => binary64::to_i64_value(b),
        Number::Decimal(d) => if i64::MIN <= decimal::truncated(d@) <= i64::MAX {
            decimal::truncated(d@)
        } else {
            0
        },
    }
}

/// The value `to_usize` and `as_usize` give.
pub open spec fn usize_value(n: Number) -> int {
    match n {
        Number::Int(v) => int_to_usize(v) as int,
        Number::Float(b) => binary64::to_usize_value(b),
        Number::Decimal(d) => if !d.sign_negative() && decimal::truncated(d@) <= usize::MAX {
            decimal::truncated(d@)
        } else {
            0
        },
    }
}

impl Number {
    /// The number as a `usize`: an integer cast (wrapping), a float cast
    /// (truncated and saturating), a decimal truncated when it fits and 0 otherwise.
    pub fn to_usize(&self) -> (r: usize)
        ensures
            r == usize_value(*self),
    {
        match self {
            Number::Int(v) => *v as usize,
            Number::Float(b) => binary64::to_usize(*b),
            Number::Decimal(d) => match d.to_usize() {
                Some(u) => u,
                None => 0,
            },
        }
    }

    /// The same as `to_usize`, taking the number by value.
    pub fn as_usize(self) -> (r: usize)
        ensures
            r == usize_value(self),
    {
        self.to_usize()
    }

    /// The number as an `i64`: a float cast (truncated and saturating), a
    /// decimal truncated when it fits and 0 otherwise.
    pub fn to_int(&self) -> (r: i64)
        ensures
            r == int_value(*self),
    {
        match self {
            Number::Int(v) => *v,
            Number::Float(b) => binary64::to_i64(*b),
            Number::Decimal(d) => match d.to_i64() {
                Some(v) => v,
                None => 0,
            },
        }
    }

    /// The same as `to_int`, taking the number by value.
    pub fn as_int(self) -> (r: i64)
        ensures
            r == int_value(self),
    {
        self.to_int()
    }

    /// The binary64 pattern of the number (`to_float`): exact for an integer
    /// or a float; for a decimal, what `rust_decimal`'s `to_f64` gives: the
    /// mantissa converted where the scale is 0, and otherwise not fixed (its
    /// rounding goes through `f64::powi`).
    pub fn to_float(&self) -> (r: u64)
        ensures
            !(*self is Decimal) ==> r == float_pattern(*self),
            *self matches Number::Decimal(d) ==> decimal::binary64_fits(decimal::full(d), r),
    {
        match self {
            Number::Int(v) => binary64::from_i64(*v),
            Number::Float(b) => *b,
            Number::Decimal(d) => decimal::to_binary64(d),
        }
    }

    /// The same as `to_float`, taking the number by value.
    pub fn as_float(self) -> (r: u64)
        ensures
            !(self is Decimal) ==> r == float_pattern(self),
            self matches Number::Decimal(d) ==> decimal::binary64_fits(decimal::full(d), r),
    {
        self.to_float()
    }

    /// The number as a decimal: an integer exactly, a decimal as it is; `None`
    /// for a float, whose conversion (`Decimal::try_from` of the binary64, zero
    /// where it fails) is the caller's.
    pub fn to_decimal(&self) -> (r: Option<Dec>)
        ensures
            r is None <==> *self is Float,
            r matches Some(d) ==> d@ == exact_value(*self) && decimal::full(d) == exact_full(*self),
    {
        match self {
            Number::Int(v) => Some(Dec::from_int(*v)),
            Number::Float(_) => None,
            Number::Decimal(d) => Some(*d),
        }
    }

    /// The same as `to_decimal`, taking the number by value.
    pub fn as_decimal(self) -> (r: Option<Dec>)
        ensures
            r is None <==> self is Float,
            r matches Some(d) ==> d@ == exact_value(self) && decimal::full(d) == exact_full(self),
    {
        self.to_decimal()
    }

    /// The absolute value; the sign bit of a float cleared.
    pub fn abs(self) -> (r: Number)
        requires
            !(self matches Number::Int(v) && v == i64::MIN),
        ensures
            r == match self {
                Number::Int(v) => Number::Int((if v < 0 { -v } else { v as int }) as i64),
                Number::Float(b) => Number::Float(binary64::magnitude(b) as u64),
                Number::Decimal(d) => r,
            },
            self matches Number::Decimal(d) ==> r matches Number::Decimal(e) && decimal::full(e) == (
                if d@.0 < 0 {
                    -d@.0
                } else {
                    d@.0
                },
                d@.1,
                false,
            ),
    {
        match self {
            Number::Int(v) => Number::Int(if v < 0 {
                -v
            } else {
                v
            }),
            Number::Float(b) => Number::Float(binary64::absolute(b)),
            Number::Decimal(d) => Number::Decimal(d.absolute()),
        }
    }

    /// The negated number; the sign bit of a float flipped.
    pub fn neg(self) -> (r: Number)
        requires
            !(self matches Number::Int(v) && v == i64::MIN),
        ensures
            r == match self {
                Number::Int(v) => Number::Int((-v) as i64),
                Number::Float(b) => Number::Float(
                    if binary64::sign_set(b) {
                        (b - binary64::SIGN_BIT) as u64
                    } else {
                        (b + binary64::SIGN_BIT) as u64
                    },
                ),
                Number::Decimal(d) => r,
            },
            self matches Number::Decimal(d) ==> r matches Number::Decimal(e) && decimal::full(e) == (
                -d@.0,
                d@.1,
                !d.sign_negative(),
            ),
    {
        match self {
            Number::Int(v) => Number::Int(-v),
            Number::Float(b) => Number::Float(binary64::negated(b)),
            Number::Decimal(d) => Number::Decimal(d.negated()),
        }
    }

    /// The smallest whole number not below: an integer as it is, a decimal by
    /// `Decimal::ceil`; `None` for a float, whose `ceil` is the caller's.
    pub fn ceil(self) -> (r: Option<Number>)
        ensures
            r is None <==> self is Float,
            self is Int ==> r == Some(self),
            self matches Number::Decimal(d) ==> r matches Some(Number::Decimal(e)) && decimal::full(e)
                == decimal::ceil_full(decimal::full(d)),
    {
        match self {
            Number::Int(_) => Some(self),
            Number::Float(_) => None,
            Number::Decimal(d) => Some(Number::Decimal(d.ceil())),
        }
    }

    /// The largest whole number not above: an integer as it is, a decimal by
    /// `Decimal::floor`; `None` for a float, whose `floor` is the caller's.
    pub fn floor(self) -> (r: Option<Number>)
        ensures
            r is None <==> self is Float,
            self is Int ==> r == Some(self),
            self matches Number::Decimal(d) ==> r matches Some(Number::Decimal(e)) && decimal::full(e)
                == decimal::floor_full(decimal::full(d)),
    {
        match self {
            Number::Int(_) => Some(self),
            Number::Float(_) => None,
            Number::Decimal(d) => Some(Number::Decimal(d.floor())),
        }
    }

    /// The nearest whole number: an integer as it is, a decimal by
    /// `Decimal::round` (ties to even); `None` for a float, whose `round` is the caller's.
    pub fn round(self) -> (r: Option<Number>)
        ensures
            r is None <==> self is Float,
            self is Int ==> r == Some(self),
            self matches Number::Decimal(d) ==> r matches Some(Number::Decimal(e)) && decimal::full(e)
                == decimal::rounded_full(decimal::full(d), 0),
    {
        match self {
            Number::Int(_) => Some(self),
            Number::Float(_) => None,
            Number::Decimal(d) => Some(Number::Decimal(d.round_dp(0))),
        }
    }

    /// The number with `precision` decimal places: an integer as it is (its
    /// text has no places, and reads back as the same integer), a decimal by
    /// `Decimal::round_dp` (the precision cast to `u32`); `None` for a float,
    /// whose formatting is the caller's.
    pub fn fixed(self, precision: usize) -> (r: Option<Number>)
        ensures
            r is None <==> self is Float,
            self is Int ==> r == Some(self),
            self matches Number::Decimal(d) ==> r matches Some(Number::Decimal(e)) && decimal::full(e)
                == decimal::rounded_full(decimal::full(d), (precision as u32) as nat),
    {
        match self {
            Number::Int(_) => Some(self),
            Number::Float(_) => None,
            Number::Decimal(d) => Some(Number::Decimal(d.round_dp(precision as u32))),
        }
    }

    /// The square root of a decimal by `Decimal::sqrt`, zero where that gives
    /// none; `None` for an integer or a float, whose root is the caller's
    /// binary64 `sqrt` of `to_float`. For a decimal this rests on `square_root`,
    /// whose call is not shown to return: the one function here that may not
    /// keep the promise not to panic.
    pub fn sqrt(self) -> (r: Option<Number>)
        ensures
            r is None <==> !(self is Decimal),
            self matches Number::Decimal(d) ==> r matches Some(Number::Decimal(e)) && decimal::full(e) == (
                match decimal::decimal_square_root(decimal::full(d)) {
                    Some(v) => v,
                    None => (0int, 0nat, false),
                }
            ),
            self matches Number::Decimal(d) && d.sign_negative() ==> (r matches Some(Number::Decimal(e))
                && decimal::full(e) == (0int, 0nat, false)),
    {
        match self {
            Number::Decimal(d) => match decimal::square_root(&d) {
                Some(e) => Some(Number::Decimal(e)),
                None => Some(Number::Decimal(Dec::zero())),
            },
            _ => None,
        }
    }
}

} // verus!
