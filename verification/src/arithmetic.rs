//! Arithmetic on numbers: integer arithmetic and decimal arithmetic are done
//! here; where a float takes part, the step names the binary64 operands (or
//! the decimal conversion) that the caller's floating-point unit works on.
use crate::decimal::{self, Dec};
use crate::number::{equals, exact_full, float_pattern, Number};
use vstd::math::abs;
use vstd::prelude::*;

verus! {

/// The four arithmetic operations.
#[derive(Clone, Copy, Debug, PartialEq, Eq)]
pub enum Op {
    Add,
    Sub,
    Mul,
    Div,
}

/// What an operation on two numbers comes to.
#[derive(Clone, Copy, Debug)]
pub enum Step {
    /// The result.
    Value(Number),
    /// The result is the binary64 operation on these two patterns (the
    /// operands' `to_float`), with the result a float.
    Binary64(u64, u64),
    /// One operand is a float and the other a decimal: the result is the
    /// decimal operation on both once the float is converted to a decimal
    /// (`Decimal::try_from`, zero where that fails).
    ViaDecimal,
}

/// `x / d` rounded toward zero, for `d != 0` (Rust's integer division).
pub open spec fn quotient_toward_zero(x: int, d: int) -> int {
    if x == 0 {
        0
    } else if x > 0 && d > 0 {
        x / d
    } else if x < 0 && d < 0 {
        (x * -1) / (d * -1)
    } else if x < 0 {
        ((x * -1) / d) * -1
    } else {
        (x / (d * -1)) * -1
    }
}

/// The exact result of an operation on two integers, before the range check.
pub open spec fn exact_int_result(op: Op, v: int, w: int) -> int {
    match op {
        Op::Add => v + w,
        Op::Sub => v - w,
        Op::Mul => v * w,
        Op::Div => quotient_toward_zero(v, w),
    }
}

/// The result of an operation on two `i64`s: `None` where Rust's operator
/// panics (overflow, or a zero divisor).
pub open spec fn int_result(op: Op, v: int, w: int) -> Option<int> {
    if op == Op::Div && w == 0 {
        None
    } else if i64::MIN <= exact_int_result(op, v, w) <= i64::MAX {
        Some(exact_int_result(op, v, w))
    } else {
        None
    }
}

/// The result of an operation on two decimals, by `rust_decimal`'s checked
/// operations: `None` where its operator panics.
pub open spec fn decimal_result(op: Op, a: (int, nat, bool), b: (int, nat, bool)) -> Option<(int, nat, bool)> {
    match op {
        Op::Add => decimal::decimal_sum(a, b),
        Op::Sub => decimal::decimal_difference(a, b),
        Op::Mul => decimal::decimal_product(a, b),
        Op::Div => decimal::decimal_quotient(a, b),
    }
}

/// The operation on `a` and `b` panics: integer overflow or division by zero
/// between two integers, decimal overflow or division by zero between
/// integers and decimals. Where a float takes part nothing here panics: the
/// binary64 operation does not, and where a float meets a decimal the decimal
/// operation that follows the conversion is the caller's (`ViaDecimal`), and
/// it may overflow there.
pub open spec fn panics(op: Op, a: Number, b: Number) -> bool {
    match (a, b) {
        (Number::Int(v), Number::Int(w)) => int_result(op, v as int, w as int) is None,
        (Number::Float(_), _) => false,
        (_, Number::Float(_)) => false,
        _ => decimal_result(op, exact_full(a), exact_full(b)) is None,
    }
}

/// `r` is what the operation on `a` and `b` comes to: two integers give an
/// integer, integers and decimals a decimal (an integer taken exactly), a
/// float with an integer or a float the binary64 operation, a float with a
/// decimal the decimal operation after conversion.
pub open spec fn step_of(op: Op, a: Number, b: Number, r: Step) -> bool {
    match (a, b) {
        (Number::Int(v), Number::Int(w)) => r == Step::Value(
            Number::Int(int_result(op, v as int, w as int).unwrap() as i64),
        ),
        (Number::Float(_), Number::Decimal(_)) => r is ViaDecimal,
        (Number::Decimal(_), Number::Float(_)) => r is ViaDecimal,
        (Number::Float(_), _) => r == Step::Binary64(float_pattern(a), float_pattern(b)),
        (_, Number::Float(_)) => r == Step::Binary64(float_pattern(a), float_pattern(b)),
        _ => r matches Step::Value(Number::Decimal(d)) && Some(decimal::full(d)) == decimal_result(
            op,
            exact_full(a),
            exact_full(b),
        ),
    }
}

fn int_operation(op: Op, v: i64, w: i64) -> (r: Option<i64>)
    ensures
        r matches Some(x) ==> int_result(op, v as int, w as int) == Some(x as int),
        r is None ==> int_result(op, v as int, w as int) is None,
{
    match op {
        Op::Add => v.checked_add(w),
        Op::Sub => v.checked_sub(w),
        Op::Mul => v.checked_mul(w),
        Op::Div => v.checked_div(w),
    }
}

fn decimal_operation(op: Op, a: &Dec, b: &Dec) -> (r: Option<Dec>)
    ensures
        decimal::viewed(r) == decimal_result(op, decimal::full(*a), decimal::full(*b)),
        op == Op::Add && a@.0 == 0 ==> decimal::viewed(r) == Some(decimal::full(*b)),
        op == Op::Add && a@.0 != 0 && b@.0 == 0 ==> decimal::viewed(r) == Some(decimal::full(*a)),
{
    match op {
        Op::Add => decimal::checked_sum(a, b),
        Op::Sub => decimal::checked_difference(a, b),
        Op::Mul => decimal::checked_product(a, b),
        Op::Div => decimal::checked_quotient(a, b),
    }
}

/// `n` is an integer zero or a decimal zero (of either sign and any scale).
pub open spec fn is_exact_zero(n: Number) -> bool {
    match n {
        Number::Int(v) => v == 0,
        Number::Decimal(d) => d@.0 == 0,
        Number::Float(_) => false,
    }
}

/// Zero is the identity of addition: where one operand is an integer or a
/// decimal zero and the other is not a float, the sum is a value equal to the
/// other operand (the same integer, or a decimal of the same value).
pub open spec fn adds_zero(a: Number, b: Number, r: Option<Step>) -> bool {
    &&& is_exact_zero(b) && !(a is Float) ==> (r matches Some(Step::Value(n)) && equals(n, a, 0))
    &&& is_exact_zero(a) && !(b is Float) ==> (r matches Some(Step::Value(n)) && equals(n, b, 0))
}

/// The operation on two numbers, `None` exactly where the operator panics.
fn operate(op: Op, a: Number, b: Number) -> (r: Option<Step>)
    ensures
        r is None <==> panics(op, a, b),
        r matches Some(s) ==> step_of(op, a, b, s),
        op == Op::Add ==> adds_zero(a, b, r),
{
    match (a, b) {
        (Number::Int(v), Number::Int(w)) => match int_operation(op, v, w) {
            Some(x) => Some(Step::Value(Number::Int(x))),
            None => None,
        },
        (Number::Float(_), Number::Decimal(_)) => Some(Step::ViaDecimal),
        (Number::Decimal(_), Number::Float(_)) => Some(Step::ViaDecimal),
        (Number::Float(_), _) => Some(Step::Binary64(a.to_float(), b.to_float())),
        (_, Number::Float(_)) => Some(Step::Binary64(a.to_float(), b.to_float())),
        _ => {
            let x = exact_decimal(a);
            let y = exact_decimal(b);
            let r = decimal_operation(op, &x, &y);
            proof {
                if op == Op::Add && (is_exact_zero(a) || is_exact_zero(b)) {
                    let d = r.unwrap();
                    assert(decimal::pow10(0) == 1);
                    assert(0 * decimal::pow10(d@.1) == 0);
                }
            }
            match r {
                Some(d) => Some(Step::Value(Number::Decimal(d))),
                None => None,
            }
        },
    }
}

/// An integer or a decimal as a decimal.
fn exact_decimal(n: Number) -> (r: Dec)
    requires
        !(n is Float),
    ensures
        decimal::full(r) == exact_full(n),
{
    match n {
        Number::Int(v) => Dec::from_int(v),
        Number::Decimal(d) => d,
        Number::Float(_) => Dec::zero(),
    }
}

impl Number {
    /// `self + other`.
    pub fn add(self, other: Number) -> (r: Step)
        requires
            !panics(Op::Add, self, other),
        ensures
            step_of(Op::Add, self, other, r),
            adds_zero(self, other, Some(r)),
    {
        operate(Op::Add, self, other).unwrap()
    }

    /// `self - other`.
    pub fn sub(self, other: Number) -> (r: Step)
        requires
            !panics(Op::Sub, self, other),
        ensures
            step_of(Op::Sub, self, other, r),
    {
        operate(Op::Sub, self, other).unwrap()
    }

    /// `self * other`.
    pub fn mul(self, other: Number) -> (r: Step)
        requires
            !panics(Op::Mul, self, other),
        ensures
            step_of(Op::Mul, self, other, r),
    {
        operate(Op::Mul, self, other).unwrap()
    }

    /// `self / other`.
    pub fn div(self, other: Number) -> (r: Step)
        requires
            !panics(Op::Div, self, other),
        ensures
            step_of(Op::Div, self, other, r),
    {
        operate(Op::Div, self, other).unwrap()
    }

    /// `op` on `self` and `other`, or `None` where the operator would panic.
    pub fn calculate(self, op: Op, other: Number) -> (r: Option<Step>)
        ensures
            r is None <==> panics(op, self, other),
            r matches Some(s) ==> step_of(op, self, other, s),
            op == Op::Add ==> adds_zero(self, other, r),
    {
        match operate(op, self, other) {
            None => None,
            Some(_) => Some(
                match op {
                    Op::Add => self.add(other),
                    Op::Sub => self.sub(other),
                    Op::Mul => self.mul(other),
                    Op::Div => self.div(other),
                },
            ),
        }
    }
}


/// Addition commutes. Two integers give the same result (and overflow alike)
/// either way round; where a float meets an integer or a float, the binary64
/// addition receives the same two patterns in the other order; a float and a
/// decimal go through the decimal conversion either way round; and where one
/// operand is an integer or a decimal zero, both sums are values equal to each
/// other.
pub proof fn lemma_add_commutative(a: Number, b: Number, r: Step, s: Step)
    requires
        step_of(Op::Add, a, b, r),
        adds_zero(a, b, Some(r)),
        step_of(Op::Add, b, a, s),
        adds_zero(b, a, Some(s)),
    ensures
        a is Int && b is Int ==> r == s && (panics(Op::Add, a, b) <==> panics(Op::Add, b, a)),
        r matches Step::Binary64(x, y) ==> s == Step::Binary64(y, x),
        r is ViaDecimal <==> s is ViaDecimal,
        (is_exact_zero(a) || is_exact_zero(b)) && !(a is Float) && !(b is Float) ==> (r matches Step::Value(
            m,
        ) && s matches Step::Value(n) && equals(m, n, 0)),
{
    if (is_exact_zero(a) || is_exact_zero(b)) && !(a is Float) && !(b is Float) {
        let m = r->Value_0;
        let n = s->Value_0;
        let other = if is_exact_zero(a) { b } else { a };
        assert(equals(m, other, 0) && equals(n, other, 0));
        crate::number::lemma_equal_iff_compare_equal(m, other, 0);
        crate::number::lemma_equal_iff_compare_equal(n, other, 0);
        crate::number::lemma_equal_iff_compare_equal(m, n, 0);
        crate::number::lemma_compare_antisymmetric(m, other, 0);
        crate::number::lemma_compare_antisymmetric(n, other, 0);
        crate::number::lemma_compare_antisymmetric(m, n, 0);
        crate::number::lemma_compare_transitive_exact(m, other, n, 0);
        crate::number::lemma_compare_transitive_exact(n, other, m, 0);
    }
}

/// `v` to the power `e`.
pub open spec fn int_power(v: int, e: nat) -> int
    decreases e,
{
    if e == 0 {
        1
    } else {
        int_power(v, (e - 1) as nat) * v
    }
}

/// The exponent that `i64::pow` receives: `p as u32` (the low 32 bits).
pub open spec fn exponent_of(p: i64) -> nat {
    (p as u32) as nat
}

/// `pow` panics: an integer power out of the range of `i64`, or a decimal
/// power that `rust_decimal` reports as overflowing.
pub open spec fn power_panics(a: Number, p: Number) -> bool {
    match (a, p) {
        (Number::Int(v), Number::Int(q)) => !(i64::MIN <= int_power(v as int, exponent_of(q))
            <= i64::MAX),
        (Number::Decimal(d), Number::Int(q)) => decimal::decimal_power(decimal::full(d), q as int) is None,
        _ => false,
    }
}

/// `r` is what `a.pow(p)` comes to: an integer to an integer power, a
/// decimal to an integer power, and otherwise the binary64 `powf` of the two
/// `to_float` patterns (exact for an integer or a float; a decimal's is what
/// its conversion gave, which is not fixed).
pub open spec fn power_step(a: Number, p: Number, r: Step) -> bool {
    match (a, p) {
        (Number::Int(v), Number::Int(q)) => r == Step::Value(
            Number::Int(int_power(v as int, exponent_of(q)) as i64),
        ),
        (Number::Decimal(d), Number::Int(q)) => r matches Step::Value(Number::Decimal(e))
            && Some(decimal::full(e)) == decimal::decimal_power(decimal::full(d), q as int),
        _ => r matches Step::Binary64(x, y) && (!(a is Decimal) ==> x == float_pattern(a)) && (!(
            p is Decimal) ==> y == float_pattern(p)),
    }
}

proof fn lemma_power_small(v: int, e: nat)
    requires
        -1 <= v <= 1,
    ensures
        v == 0 ==> int_power(v, e) == (if e == 0 { 1int } else { 0int }),
        v == 1 ==> int_power(v, e) == 1,
        v == -1 ==> int_power(v, e) == (if e % 2 == 0 { 1int } else { -1int }),
    decreases e,
{
    if e > 0 {
        lemma_power_small(v, (e - 1) as nat);
    }
}

proof fn lemma_power_grows(v: int, i: nat, j: nat)
    requires
        v >= 2 || v <= -2,
        i < j,
    ensures
        abs(int_power(v, j)) >= 2 * abs(int_power(v, i)),
    decreases j,
{
    let a = abs(v);
    assert(abs(int_power(v, j)) == a * abs(int_power(v, (j - 1) as nat))) by (nonlinear_arith)
        requires
            int_power(v, j) == int_power(v, (j - 1) as nat) * v,
            a == abs(v),
    ;
    if i + 1 < j {
        lemma_power_grows(v, i, (j - 1) as nat);
    }
    assert(a * abs(int_power(v, (j - 1) as nat)) >= 2 * abs(int_power(v, (j - 1) as nat)))
        by (nonlinear_arith)
        requires
            a >= 2,
    ;
}

/// `v` to the power `e`, when that fits in `i64`.
fn checked_int_power(v: i64, e: u32) -> (r: Option<i64>)
    ensures
        r is Some <==> i64::MIN <= int_power(v as int, e as nat) <= i64::MAX,
        r matches Some(x) ==> x == int_power(v as int, e as nat),
{
    if -1 <= v && v <= 1 {
        proof {
            lemma_power_small(v as int, e as nat);
        }
        return if v == 0 {
            if e == 0 {
                Some(1)
            } else {
                Some(0)
            }
        } else if v == 1 {
            Some(1)
        } else if e % 2 == 0 {
            Some(1)
        } else {
            Some(-1)
        };
    }
    let mut acc: i64 = 1;
    let mut i: u32 = 0;
    while i < e
        invariant
            i <= e,
            v >= 2 || v <= -2,
            acc == int_power(v as int, i as nat),
        decreases e - i,
    {
        match acc.checked_mul(v) {
            Some(x) => {
                assert(int_power(v as int, (i + 1) as nat) == int_power(v as int, i as nat) * v);
                acc = x;
            },
            None => {
                proof {
                    assert(int_power(v as int, (i + 1) as nat) == int_power(v as int, i as nat) * v);
                    if i + 1 < e {
                        lemma_power_grows(v as int, (i + 1) as nat, e as nat);
                    }
                }
                return None;
            },
        }
        i = i + 1;
    }
    Some(acc)
}

impl Number {
    /// `self` to the power `power`.
    pub fn pow(self, power: Number) -> (r: Step)
        requires
            !power_panics(self, power),
        ensures
            power_step(self, power, r),
    {
        raise(self, power).unwrap()
    }

    /// `self.pow(power)`, or `None` where it would panic.
    pub fn checked_pow(self, power: Number) -> (r: Option<Step>)
        ensures
            r is None <==> power_panics(self, power),
            r matches Some(s) ==> power_step(self, power, s),
    {
        match raise(self, power) {
            None => None,
            Some(_) => Some(self.pow(power)),
        }
    }
}

fn raise(a: Number, p: Number) -> (r: Option<Step>)
    ensures
        r is None <==> power_panics(a, p),
        r matches Some(s) ==> power_step(a, p, s),
{
    match (a, p) {
        (Number::Int(v), Number::Int(q)) => match checked_int_power(v, q as u32) {
            Some(x) => Some(Step::Value(Number::Int(x))),
            None => None,
        },
        (Number::Decimal(d), Number::Int(q)) => match decimal::checked_power(&d, q) {
            Some(e) => Some(Step::Value(Number::Decimal(e))),
            None => None,
        },
        _ => Some(Step::Binary64(a.to_float(), p.to_float())),
    }
}

} // verus!
