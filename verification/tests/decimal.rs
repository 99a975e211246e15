use rust_decimal::prelude::ToPrimitive;
use rust_decimal::Decimal;
use surrealdb_sql::decimal::Dec;
use surrealdb_sql::arithmetic::{Op, Step};
use std::cmp::Ordering;
use surrealdb_sql::number::{compare_with_pattern, Number};
use surrealdb_sql::number_text::{number, Scanned};

/// The same value as a library decimal and as a `rust_decimal::Decimal`.
fn both(mantissa: i128, scale: u32, negative: bool) -> Option<(Dec, Decimal)> {
	let d = Dec::from_parts(mantissa, scale, negative)?;
	let mut x = Decimal::from_i128_with_scale(mantissa, scale);
	x.set_sign_negative(negative);
	Some((d, x))
}

fn same(d: &Dec, x: &Decimal, what: &str) {
	assert_eq!(
		(d.mantissa(), d.scale(), d.is_sign_negative()),
		(x.mantissa(), x.scale(), x.is_sign_negative()),
		"{what}: {x}"
	);
}

fn samples() -> Vec<(Dec, Decimal)> {
	let mantissas: [i128; 14] = [
		0,
		1,
		-1,
		5,
		-5,
		15,
		-15,
		25,
		-25,
		12345,
		-12345,
		999_999,
		-1_000_001,
		79_228_162_514_264_337_593_543_950_335,
	];
	let mut out = Vec::new();
	for m in mantissas {
		for scale in [0u32, 1, 2, 3, 5, 28] {
			for negative in [false, true] {
				if let Some(p) = both(m, scale, negative) {
					out.push(p);
				}
			}
		}
	}
	out
}

#[test]
fn rounding_agrees_with_rust_decimal() {
	for (d, x) in samples() {
		same(&d.floor(), &x.floor(), "floor");
		same(&d.ceil(), &x.ceil(), "ceil");
		for dp in [0u32, 1, 2, 4, 30] {
			same(&d.round_dp(dp), &x.round_dp(dp), "round_dp");
		}
		same(&d.negated(), &(-x), "neg");
		same(&d.absolute(), &x.abs(), "abs");
	}
}

#[test]
fn conversions_agree_with_rust_decimal() {
	for (d, x) in samples() {
		assert_eq!(d.to_i64(), x.to_i64(), "to_i64 {x}");
		assert_eq!(d.to_usize(), x.to_usize(), "to_usize {x}");
		assert_eq!(d.is_integer(), x.is_integer(), "is_integer {x}");
	}
}

#[test]
fn signed_zero_is_written_with_its_sign() {
	let zero = Number::Decimal(Dec::zero());
	assert_eq!(zero.neg().to_text().unwrap(), "-0dec");
	let (d, _) = both(-5, 1, true).unwrap();
	assert_eq!(Number::Decimal(d).ceil().unwrap().to_text().unwrap(), "-0dec");
	assert_eq!(Number::Decimal(d).round().unwrap().to_text().unwrap(), "0dec");
	assert_eq!(Number::Decimal(d).abs().to_text().unwrap(), "0.5dec");
	assert!(Dec::from_parts(1, 0, true).is_none());
	assert!(Dec::from_parts(0, 29, false).is_none());
}

#[test]
fn decimal_text_reads_back() {
	for (d, x) in samples() {
		let n = Number::Decimal(d);
		let t = n.to_text().unwrap();
		assert_eq!(t, format!("{x}dec"), "text of {x}");
		match number(&t) {
			Some((used, Scanned::Number(Number::Decimal(e)))) => {
				assert_eq!(used, t.len(), "{t}");
				assert_eq!(Number::Decimal(e), n, "{t}");
				if !(d.mantissa() == 0 && d.is_sign_negative()) {
					assert_eq!(
						(e.mantissa(), e.scale(), e.is_sign_negative()),
						(d.mantissa(), d.scale(), d.is_sign_negative()),
						"{t}"
					);
					assert_eq!(Number::Decimal(e).to_text().unwrap(), t);
				} else {
					assert!(!e.is_sign_negative(), "{t}");
					assert_eq!(e.scale(), d.scale(), "{t}");
				}
			}
			other => panic!("{t} read as {other:?}"),
		}
	}
}

#[test]
fn adding_zero_keeps_the_value() {
	for (d, _) in samples() {
		let n = Number::Decimal(d);
		for zero in [Number::Int(0), Number::Decimal(Dec::zero()), Number::Decimal(Dec::from_parts(0, 3, true).unwrap())] {
			match n.calculate(Op::Add, zero) {
				Some(Step::Value(m)) => assert_eq!(m, n, "{n:?} + {zero:?}"),
				other => panic!("{other:?}"),
			}
			match zero.calculate(Op::Add, n) {
				Some(Step::Value(m)) => assert_eq!(m, n, "{zero:?} + {n:?}"),
				other => panic!("{other:?}"),
			}
		}
	}
	for v in [0i64, 5, -5, i64::MAX, i64::MIN] {
		assert!(matches!(Number::Int(v).calculate(Op::Add, Number::Int(0)), Some(Step::Value(Number::Int(w))) if w == v));
		assert!(matches!(Number::Int(0).calculate(Op::Add, Number::Int(v)), Some(Step::Value(Number::Int(w))) if w == v));
	}
}

#[test]
fn addition_commutes() {
	let values = [Number::Int(3), Number::Int(-7), Number::Int(i64::MAX), Number::Float(1.5f64.to_bits())];
	for a in values {
		for b in values {
			match (a.calculate(Op::Add, b), b.calculate(Op::Add, a)) {
				(Some(Step::Binary64(x, y)), Some(Step::Binary64(u, v))) => assert_eq!((x, y), (v, u)),
				(r, s) => assert_eq!(format!("{r:?}"), format!("{s:?}")),
			}
		}
	}
}

#[test]
fn decimal_against_float_by_the_converted_pattern() {
	let d = Number::Decimal(Dec::from_parts(15, 1, false).unwrap());
	let f = Number::Float(1.5f64.to_bits());
	assert_eq!(compare_with_pattern(&d, &f, 1.5f64.to_bits()), Ordering::Equal);
	assert_eq!(compare_with_pattern(&d, &f, 2.0f64.to_bits()), Ordering::Greater);
	assert_eq!(compare_with_pattern(&f, &d, 2.0f64.to_bits()), Ordering::Less);
	assert_eq!(d.cmp(&f), Ordering::Equal);
	assert!(d == f);
	let whole = Number::Decimal(Dec::from_parts(-7, 0, true).unwrap());
	assert_eq!(whole.to_float(), (-7.0f64).to_bits());
	assert_eq!(whole.hash_parts().len(), 1);
}
