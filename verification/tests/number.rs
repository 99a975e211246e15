use std::cmp::Ordering;
use surrealdb_sql::arithmetic::{Op, Step};
use surrealdb_sql::decimal::Dec;
use surrealdb_sql::number::Number;
use surrealdb_sql::number_text::{number, read_number, Scanned};

fn float(v: f64) -> Number {
	Number::Float(v.to_bits())
}

/// The value a scan denotes: a float text is read with `f64::from_str`.
fn scanned(text: &str, s: Scanned) -> Number {
	match s {
		Scanned::Number(n) => n,
		Scanned::FloatText(len) => float(text[..len].parse::<f64>().unwrap()),
	}
}

/// Parses a number as the `number` parser does, returning the rest and the number.
fn parse(text: &str) -> (&str, Number) {
	let (used, s) = number(text).unwrap();
	(&text[used..], scanned(text, s))
}

fn try_from_str(text: &str) -> Number {
	scanned(text, read_number(text).unwrap())
}

/// The SurrealQL text of a number; a float is written by binary64 `Display`.
fn display(n: &Number) -> String {
	match n.to_text() {
		Some(t) => t,
		None => {
			let v = f64::from_bits(n.to_float());
			if v.is_finite() {
				format!("{v}f")
			} else {
				format!("{v}")
			}
		}
	}
}

/// Completes an arithmetic step, doing the binary64 operation where one is named.
fn finish(op: Op, a: Number, b: Number, step: Step) -> Number {
	match step {
		Step::Value(n) => n,
		Step::Binary64(x, y) => {
			let (x, y) = (f64::from_bits(x), f64::from_bits(y));
			float(match op {
				Op::Add => x + y,
				Op::Sub => x - y,
				Op::Mul => x * y,
				Op::Div => x / y,
			})
		}
		Step::ViaDecimal => panic!("decimal conversion of {a:?} and {b:?} not used here"),
	}
}

fn finish_pow(step: Step) -> Number {
	match step {
		Step::Value(n) => n,
		Step::Binary64(x, y) => float(f64::from_bits(x).powf(f64::from_bits(y))),
		Step::ViaDecimal => panic!("no decimal conversion in pow"),
	}
}

#[test]
fn number_nan() {
	let sql = "NaN";
	let res = parse(sql);
	let out = res.1;
	assert_eq!("NaN", display(&out));
}

#[test]
fn number_int() {
	let sql = "123";
	let res = parse(sql);
	let out = res.1;
	assert_eq!("123", display(&out));
	assert_eq!(out, Number::Int(123));
}

#[test]
fn number_int_neg() {
	let sql = "-123";
	let res = parse(sql);
	let out = res.1;
	assert_eq!("-123", display(&out));
	assert_eq!(out, Number::Int(-123));
}

#[test]
fn number_float() {
	let sql = "123.45f";
	let res = parse(sql);
	let out = res.1;
	assert_eq!(sql, display(&out));
	assert_eq!(out, float(123.45));
}

#[test]
fn number_float_neg() {
	let sql = "-123.45f";
	let res = parse(sql);
	let out = res.1;
	assert_eq!(sql, display(&out));
	assert_eq!(out, float(-123.45));
}

#[test]
fn number_scientific_lower() {
	let sql = "12345e-1";
	let res = parse(sql);
	let out = res.1;
	assert_eq!("1234.5f", display(&out));
	assert_eq!(out, float(1234.5));
}

#[test]
fn number_scientific_lower_neg() {
	let sql = "-12345e-1";
	let res = parse(sql);
	let out = res.1;
	assert_eq!("-1234.5f", display(&out));
	assert_eq!(out, float(-1234.5));
}

#[test]
fn number_scientific_upper() {
	let sql = "12345E-02";
	let res = parse(sql);
	let out = res.1;
	assert_eq!("123.45f", display(&out));
	assert_eq!(out, float(123.45));
}

#[test]
fn number_scientific_upper_neg() {
	let sql = "-12345E-02";
	let res = parse(sql);
	let out = res.1;
	assert_eq!("-123.45f", display(&out));
	assert_eq!(out, float(-123.45));
}

#[test]
fn number_float_keeps_precision() {
	let sql = "13.571938471938472f";
	let res = parse(sql);
	let out = res.1;
	assert_eq!(sql, display(&out));
}

#[test]
fn number_decimal_keeps_precision() {
	let sql = "0.0000000000000000000000000321dec";
	let res = parse(sql);
	let out = res.1;
	assert_eq!(sql, display(&out));
}

#[test]
fn number_div_int() {
	let res = Number::Int(3).div(Number::Int(2));
	assert_eq!(finish(Op::Div, Number::Int(3), Number::Int(2), res), Number::Int(1));
}

#[test]
fn number_pow_int() {
	let res = Number::Int(3).pow(Number::Int(4));
	assert_eq!(finish_pow(res), Number::Int(81));
}

#[test]
fn number_pow_int_negative() {
	let res = Number::Int(4).pow(float(-0.5));
	assert_eq!(finish_pow(res), float(0.5));
}

#[test]
fn number_pow_float() {
	let res = float(2.5).pow(Number::Int(2));
	assert_eq!(finish_pow(res), float(6.25));
}

#[test]
fn number_pow_float_negative() {
	let res = Number::Int(4).pow(float(-0.5));
	assert_eq!(finish_pow(res), float(0.5));
}

#[test]
fn number_pow_decimal_one() {
	let res = try_from_str("13.5719384719384719385639856394139476937756394756").pow(Number::Int(1));
	assert_eq!(
		finish_pow(res),
		try_from_str("13.5719384719384719385639856394139476937756394756")
	);
}

#[test]
fn number_pow_decimal_two() {
	let res = try_from_str("13.5719384719384719385639856394139476937756394756").pow(Number::Int(2));
	assert_eq!(
		finish_pow(res),
		try_from_str("184.19751388608358465578173996877942643463869043732548087725588482334195240945031617770904299536")
	);
}

fn assert_cmp(a: &Number, b: &Number, ord: Ordering) {
	assert_eq!(a.cmp(b), ord, "{} {ord:?} {}", display(a), display(b));
	assert_eq!(a == b, ord.is_eq(), "{} {ord:?} {}", display(a), display(b));
}

/// The float, and where it is finite and zero or above epsilon, the same
/// value as a decimal and as an integer.
fn permutations(n: f64) -> Vec<Number> {
	let mut ret = Vec::new();
	ret.push(float(n));
	if n.is_finite() && (n == 0.0 || n.abs() > f64::EPSILON) {
		ret.push(Number::Decimal(Dec::from_parts(n as i128, 0, n.is_sign_negative()).unwrap()));
		ret.push(Number::Int(n as i64));
	}
	ret
}

#[test]
fn ord() {
	let nz = -0.0f64;
	let z = 0.0f64;
	assert_ne!(nz.to_bits(), z.to_bits());
	let nzp = permutations(nz);
	let zp = permutations(z);
	for nzp in nzp.iter() {
		for zp in zp.iter() {
			assert_cmp(nzp, zp, Ordering::Equal);
		}
	}

	let negative_nan = f64::from_bits(18444492273895866368);

	let ordering = &[
		negative_nan,
		f64::NEG_INFINITY,
		-10.0,
		-1.0,
		-f64::MIN_POSITIVE,
		0.0,
		f64::MIN_POSITIVE,
		1.0,
		10.0,
		f64::INFINITY,
		f64::NAN,
	];

	for (ai, a) in ordering.iter().enumerate() {
		let ap = permutations(*a);
		for (bi, b) in ordering.iter().enumerate() {
			let bp = permutations(*b);
			let correct = ai.cmp(&bi);

			for a in &ap {
				for b in &bp {
					assert_cmp(a, b, correct);
				}
			}
		}
	}
}
