//! Conversions into numbers, and the default number.
use crate::decimal::Dec;
use crate::number::Number;
use vstd::prelude::*;

verus! {

impl Default for Number {
    /// The integer zero.
    fn default() -> (r: Number)
        ensures
            r == Number::Int(0),
    {
        Number::Int(0)
    }
}

impl From<Dec> for Number {
    fn from(v: Dec) -> (r: Number) {
        Number::Decimal(v)
    }
}

impl vstd::std_specs::convert::FromSpecImpl<Dec> for Number {
    open spec fn obeys_from_spec() -> bool {
        true
    }

    open spec fn from_spec(v: Dec) -> Number {
        Number::Decimal(v)
    }
}

impl From<i8> for Number {
    /// The integer, exactly.
    fn from(v: i8) -> (r: Number) {
        Number::Int(v as i64)
    }
}

impl vstd::std_specs::convert::FromSpecImpl<i8> for Number {
    open spec fn obeys_from_spec() -> bool {
        true
    }

    open spec fn from_spec(v: i8) -> Number {
        Number::Int(v as i64)
    }
}

impl From<i16> for Number {
    /// The integer, exactly.
    fn from(v: i16) -> (r: Number) {
        Number::Int(v as i64)
    }
}

impl vstd::std_specs::convert::FromSpecImpl<i16> for Number {
    open spec fn obeys_from_spec() -> bool {
        true
    }

    open spec fn from_spec(v: i16) -> Number {
        Number::Int(v as i64)
    }
}

impl From<i32> for Number {
    /// The integer, exactly.
    fn from(v: i32) -> (r: Number) {
        Number::Int(v as i64)
    }
}

impl vstd::std_specs::convert::FromSpecImpl<i32> for Number {
    open spec fn obeys_from_spec() -> bool {
        true
    }

    open spec fn from_spec(v: i32) -> Number {
        Number::Int(v as i64)
    }
}

impl From<i64> for Number {
    /// The integer, exactly.
    fn from(v: i64) -> (r: Number) {
        Number::Int(v as i64)
    }
}

impl vstd::std_specs::convert::FromSpecImpl<i64> for Number {
    open spec fn obeys_from_spec() -> bool {
        true
    }

    open spec fn from_spec(v: i64) -> Number {
        Number::Int(v as i64)
    }
}

impl From<i128> for Number {
    /// The integer, cast to `i64` as `as` casts it.
    fn from(v: i128) -> (r: Number) {
        Number::Int(v as i64)
    }
}

impl vstd::std_specs::convert::FromSpecImpl<i128> for Number {
    open spec fn obeys_from_spec() -> bool {
        true
    }

    open spec fn from_spec(v: i128) -> Number {
        Number::Int(v as i64)
    }
}

impl From<isize> for Number {
    /// The integer, cast to `i64` as `as` casts it.
    fn from(v: isize) -> (r: Number) {
        Number::Int(v as i64)
    }
}

impl vstd::std_specs::convert::FromSpecImpl<isize> for Number {
    open spec fn obeys_from_spec() -> bool {
        true
    }

    open spec fn from_spec(v: isize) -> Number {
        Number::Int(v as i64)
    }
}

impl From<u8> for Number {
    /// The integer, exactly.
    fn from(v: u8) -> (r: Number) {
        Number::Int(v as i64)
    }
}

impl vstd::std_specs::convert::FromSpecImpl<u8> for Number {
    open spec fn obeys_from_spec() -> bool {
        true
    }

    open spec fn from_spec(v: u8) -> Number {
        Number::Int(v as i64)
    }
}

impl From<u16> for Number {
    /// The integer, exactly.
    fn from(v: u16) -> (r: Number) {
        Number::Int(v as i64)
    }
}

impl vstd::std_specs::convert::FromSpecImpl<u16> for Number {
    open spec fn obeys_from_spec() -> bool {
        true
    }

    open spec fn from_spec(v: u16) -> Number {
        Number::Int(v as i64)
    }
}

impl From<u32> for Number {
    /// The integer, exactly.
    fn from(v: u32) -> (r: Number) {
        Number::Int(v as i64)
    }
}

impl vstd::std_specs::convert::FromSpecImpl<u32> for Number {
    open spec fn obeys_from_spec() -> bool {
        true
    }

    open spec fn from_spec(v: u32) -> Number {
        Number::Int(v as i64)
    }
}

impl From<u64> for Number {
    /// The integer, cast to `i64` as `as` casts it.
    fn from(v: u64) -> (r: Number) {
        Number::Int(v as i64)
    }
}

impl vstd::std_specs::convert::FromSpecImpl<u64> for Number {
    open spec fn obeys_from_spec() -> bool {
        true
    }

    open spec fn from_spec(v: u64) -> Number {
        Number::Int(v as i64)
    }
}

impl From<u128> for Number {
    /// The integer, cast to `i64` as `as` casts it.
    fn from(v: u128) -> (r: Number) {
        Number::Int(v as i64)
    }
}

impl vstd::std_specs::convert::FromSpecImpl<u128> for Number {
    open spec fn obeys_from_spec() -> bool {
        true
    }

    open spec fn from_spec(v: u128) -> Number {
        Number::Int(v as i64)
    }
}

impl From<usize> for Number {
    /// The integer, cast to `i64` as `as` casts it.
    fn from(v: usize) -> (r: Number) {
        Number::Int(v as i64)
    }
}

impl vstd::std_specs::convert::FromSpecImpl<usize> for Number {
    open spec fn obeys_from_spec() -> bool {
        true
    }

    open spec fn from_spec(v: usize) -> Number {
        Number::Int(v as i64)
    }
}

} // verus!
