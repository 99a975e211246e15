use std::cmp::Ordering;
use surrealdb_sql::binary64;
use surrealdb_sql::number::Number;

fn floats() -> Vec<f64> {
	let mut v = vec![
		0.0,
		-0.0,
		0.5,
		-0.5,
		1.0,
		-1.0,
		1.5,
		-2.5,
		3.999,
		-3.999,
		1e15 + 0.5,
		4503599627370496.5,
		9007199254740993.0,
		9.2233720368547758e18,
		-9.2233720368547758e18,
		9.3e18,
		-9.3e18,
		1.8446744073709552e19,
		2e19,
		1e300,
		-1e300,
		f64::MIN_POSITIVE,
		-f64::MIN_POSITIVE,
		5e-324,
		f64::MAX,
		f64::MIN,
		f64::EPSILON,
		f64::INFINITY,
		f64::NEG_INFINITY,
		f64::NAN,
		f64::from_bits(18444492273895866368),
	];
	for k in 0..64 {
		v.push((k as f64).exp2());
		v.push(-(k as f64).exp2() + 0.25);
	}
	v
}

fn ints() -> Vec<i64> {
	let mut v = vec![0, 1, -1, 7, -7, i64::MAX, i64::MIN, i64::MAX - 1, i64::MIN + 1];
	for k in 0..63 {
		v.push(1i64 << k);
		v.push((1i64 << k) + 1);
		v.push(-(1i64 << k) - 1);
		v.push((1i64 << k).wrapping_mul(3).wrapping_add(1));
	}
	v
}

#[test]
fn predicates_agree_with_f64() {
	for x in floats() {
		let b = x.to_bits();
		assert_eq!(binary64::nan(b), x.is_nan(), "{x}");
		assert_eq!(binary64::finite(b), x.is_finite(), "{x}");
		assert_eq!(binary64::zero(b), x == 0.0, "{x}");
		assert_eq!(binary64::above_zero(b), x > 0.0, "{x}");
		assert_eq!(binary64::below_zero(b), x < 0.0, "{x}");
		assert_eq!(binary64::absolute(b), x.abs().to_bits(), "{x}");
		assert_eq!(binary64::negated(b), (-x).to_bits(), "{x}");
		assert_eq!(binary64::integral(b), x.fract() == 0.0, "{x}");
	}
}

#[test]
fn casts_agree_with_f64() {
	for x in floats() {
		let b = x.to_bits();
		assert_eq!(binary64::to_i64(b), x as i64, "{x}");
		assert_eq!(binary64::to_usize(b), x as usize, "{x}");
	}
	for v in ints() {
		assert_eq!(binary64::from_i64(v), (v as f64).to_bits(), "{v}");
	}
}

#[test]
fn float_order_agrees_with_total_cmp() {
	for x in floats() {
		for y in floats() {
			let expected = if x == 0.0 && y == 0.0 { Ordering::Equal } else { x.total_cmp(&y) };
			assert_eq!(Number::Float(x.to_bits()).cmp(&Number::Float(y.to_bits())), expected, "{x} {y}");
		}
	}
	for v in ints() {
		for y in floats() {
			let x = v as f64;
			let expected = if x == 0.0 && y == 0.0 { Ordering::Equal } else { x.total_cmp(&y) };
			assert_eq!(Number::Int(v).cmp(&Number::Float(y.to_bits())), expected, "{v} {y}");
		}
	}
}
