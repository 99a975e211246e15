use std::cmp::Ordering;
use surrealdb_sql::arithmetic::{Op, Step};
use surrealdb_sql::decimal::Dec;
use surrealdb_sql::geometry::{Coord, CoordText, Geometry, Polygon};
use surrealdb_sql::geometry_parser::geometry;
use surrealdb_sql::number::Number;
use surrealdb_sql::number_sort::{sort_numbers, Sort};
use surrealdb_sql::number_text::{int_to_text, integer, number, read_number, Scanned};

fn float(v: f64) -> Number {
	Number::Float(v.to_bits())
}

fn dec(text: &str) -> Number {
	let sql = format!("{text}dec");
	match number(&sql) {
		Some((used, Scanned::Number(n))) if used == sql.len() => n,
		other => panic!("{sql} did not scan as a decimal: {other:?}"),
	}
}

fn value(step: Step) -> Number {
	match step {
		Step::Value(n) => n,
		other => panic!("expected a value, got {other:?}"),
	}
}

fn text(c: (&str, &str)) -> CoordText {
	CoordText { x: c.0.to_string(), y: c.1.to_string() }
}

// ---- laws on concrete values ------------------------------------------------

#[test]
fn equality_agrees_with_comparison() {
	let values = [Number::Int(2), float(2.0), dec("2.00"), float(-0.0), Number::Int(0), dec("0.5"), float(0.5)];
	for a in &values {
		for b in &values {
			assert_eq!(a == b, a.cmp(b) == Ordering::Equal, "{a:?} {b:?}");
		}
	}
}

#[test]
fn comparison_is_antisymmetric() {
	let values = [Number::Int(-3), float(f64::NAN), dec("-3.5"), float(f64::NEG_INFINITY), Number::Int(7)];
	for a in &values {
		assert_eq!(a.cmp(a), Ordering::Equal);
		for b in &values {
			assert_eq!(a.cmp(b), b.cmp(a).reverse(), "{a:?} {b:?}");
		}
	}
}

#[test]
fn partial_cmp_is_some_cmp() {
	assert_eq!(Number::Int(1).partial_cmp(&dec("1.5")), Some(Ordering::Less));
}

#[test]
fn integer_text_reads_back() {
	for v in [0i64, 7, -7, 1234567890, i64::MAX, i64::MIN] {
		let t = int_to_text(v);
		assert_eq!(t, v.to_string());
		assert_eq!(number(&t).map(|(used, s)| (used, format!("{s:?}"))), Some((t.len(), format!("{:?}", Scanned::Number(Number::Int(v))))));
		assert_eq!(integer(&t), Some((t.len(), v)));
	}
}

#[test]
fn sorting_is_stable_and_ascending() {
	let mut v = vec![Number::Int(3), float(1.5), dec("2"), Number::Int(1), float(1.0), dec("1.0")];
	let sorted = v.sorted();
	let out: Vec<String> = sorted.0.iter().map(|n| format!("{n:?}")).collect();
	let expected: Vec<String> = [Number::Int(1), float(1.0), dec("1.0"), float(1.5), dec("2"), Number::Int(3)]
		.iter()
		.map(|n| format!("{n:?}"))
		.collect();
	assert_eq!(out, expected);
	let mut empty: Vec<Number> = vec![];
	sort_numbers(&mut empty);
	assert!(empty.is_empty());
}

#[test]
fn geometry_order_is_antisymmetric() {
	let p = |x: f64, y: f64| Coord { x: x.to_bits(), y: y.to_bits() };
	let a = Geometry::Line(vec![p(0.0, 0.0), p(1.0, 1.0)]);
	let b = Geometry::Line(vec![p(0.0, 0.0), p(1.0, 2.0)]);
	let c = Geometry::Point(p(5.0, 5.0));
	assert_eq!(a.partial_cmp(&b), Some(Ordering::Less));
	assert_eq!(b.partial_cmp(&a), Some(Ordering::Greater));
	assert_eq!(c.partial_cmp(&a), Some(Ordering::Less));
	assert_eq!(a.partial_cmp(&c), Some(Ordering::Greater));
	let n = Geometry::Point(p(f64::NAN, 0.0));
	assert_eq!(n.partial_cmp(&c), None);
	assert_eq!(c.partial_cmp(&n), None);
}

// ---- formulas and edge cases --------------------------------------------------

#[test]
fn integer_arithmetic() {
	assert_eq!(value(Number::Int(7).add(Number::Int(-9))), Number::Int(-2));
	assert_eq!(value(Number::Int(7).sub(Number::Int(9))), Number::Int(-2));
	assert_eq!(value(Number::Int(-7).mul(Number::Int(6))), Number::Int(-42));
	assert_eq!(value(Number::Int(-7).div(Number::Int(2))), Number::Int(-3));
	assert_eq!(value(Number::Int(-2).pow(Number::Int(63))), Number::Int(i64::MIN));
}

#[test]
fn overflow_and_zero_division_give_none() {
	assert!(Number::Int(i64::MAX).calculate(Op::Add, Number::Int(1)).is_none());
	assert!(Number::Int(i64::MIN).calculate(Op::Div, Number::Int(-1)).is_none());
	assert!(Number::Int(1).calculate(Op::Div, Number::Int(0)).is_none());
	assert!(dec("1").calculate(Op::Div, dec("0")).is_none());
	assert!(Number::Int(2).checked_pow(Number::Int(64)).is_none());
	assert!(float(1.0).calculate(Op::Div, Number::Int(0)).is_some());
}

#[test]
fn mixed_arithmetic_steps() {
	match float(1.5).calculate(Op::Add, Number::Int(2)) {
		Some(Step::Binary64(a, b)) => {
			assert_eq!(a, 1.5f64.to_bits());
			assert_eq!(b, 2.0f64.to_bits());
		}
		other => panic!("{other:?}"),
	}
	assert!(matches!(float(1.5).calculate(Op::Mul, dec("2")), Some(Step::ViaDecimal)));
	assert!(matches!(float(2.0).pow(dec("0.5")), Step::Binary64(_, _)));
}

#[test]
fn decimal_arithmetic() {
	assert_eq!(value(dec("1.5").add(dec("2.25"))), dec("3.75"));
	assert_eq!(value(dec("1.5").sub(Number::Int(2))), dec("-0.5"));
	assert_eq!(value(Number::Int(3).mul(dec("0.5"))), dec("1.5"));
	assert_eq!(value(dec("1").div(dec("4"))), dec("0.25"));
	assert_eq!(value(dec("1.5").pow(Number::Int(2))), dec("2.25"));
	assert_eq!(dec("4").sqrt(), Some(dec("2")));
	assert_eq!(dec("-4").sqrt(), Some(Number::Decimal(Dec::zero())));
	assert_eq!(Number::Int(4).sqrt(), None);
}

#[test]
fn decimal_comparison_and_text() {
	assert_eq!(dec("1.0"), dec("1"));
	assert_eq!(dec("1.0").cmp(&dec("1.01")), Ordering::Less);
	assert_eq!(dec("2.50").to_text().unwrap(), "2.50dec");
	assert_eq!(dec("1.5").to_float(), 1.5f64.to_bits());
	assert_eq!(dec("1.5"), float(1.5));
	assert!(number("1e400dec").is_none());
}

#[test]
fn rounding() {
	assert_eq!(dec("2.5").round(), Some(dec("2")));
	assert_eq!(dec("3.5").round(), Some(dec("4")));
	assert_eq!(dec("-2.5").floor(), Some(dec("-3")));
	assert_eq!(dec("-2.5").ceil(), Some(dec("-2")));
	assert_eq!(dec("1.23456").fixed(2), Some(dec("1.23")));
	assert_eq!(Number::Int(5).fixed(3), Some(Number::Int(5)));
	assert_eq!(float(2.5).round(), None);
}

#[test]
fn conversions() {
	assert_eq!(float(-3.9).to_int(), -3);
	assert_eq!(float(f64::NAN).to_int(), 0);
	assert_eq!(float(1e300).to_int(), i64::MAX);
	assert_eq!(float(-1.0).to_usize(), 0);
	assert_eq!(dec("-7.9").to_int(), -7);
	assert_eq!(Number::Int(-1).to_float(), (-1.0f64).to_bits());
	assert_eq!(Number::Int(i64::MAX).to_float(), (i64::MAX as f64).to_bits());
	assert_eq!(Number::Int((1 << 53) + 1).to_float(), (((1i64 << 53) + 1) as f64).to_bits());
	assert_eq!(Number::from(300u16), Number::Int(300));
	assert_eq!(Number::from(u64::MAX), Number::Int(-1));
	assert_eq!(Number::default(), Number::Int(0));
	assert_eq!(float(-2.0).abs(), float(2.0));
	assert_eq!(float(2.0).neg(), float(-2.0));
	assert_eq!(dec("-1.5").abs(), dec("1.5"));
}

#[test]
fn predicates() {
	assert!(float(f64::NAN).is_nan());
	assert!(!Number::Int(0).is_truthy());
	assert!(float(0.5).is_truthy());
	assert!(dec("2.000").is_integer());
	assert!(!dec("2.5").is_integer());
	assert!(float(-0.0).is_zero());
	assert!(float(-0.0).is_zero_or_negative());
	assert!(float(-0.0).is_zero_or_positive());
	assert!(dec("-0.1").is_negative());
}

#[test]
fn number_scanning_edges() {
	assert!(number("abc").is_none());
	assert!(number("12abc").is_none());
	assert!(matches!(number("12 rest"), Some((2, Scanned::Number(Number::Int(12))))));
	assert!(matches!(number("1.5f)"), Some((4, Scanned::FloatText(3)))));
	assert!(matches!(number("99999999999999999999"), Some((20, Scanned::FloatText(20)))));
	assert!(matches!(read_number("  1"), Err(())));
	assert!(matches!(read_number("inf"), Ok(Scanned::FloatText(3))));
	assert!(matches!(read_number("-12"), Ok(Scanned::Number(Number::Int(-12)))));
	assert_eq!(integer("12;"), Some((2, 12)));
	assert_eq!(integer("12.5"), None);
}

#[test]
fn geometry_parsing_edges() {
	assert!(geometry("{ type: 'Point' }").is_none());
	assert!(geometry("(1, )").is_none());
	let (used, g) = geometry("{ coordinates: [[1, 2], [3, 4],], \"type\": \"LineString\", } rest").unwrap();
	assert_eq!(used, "{ coordinates: [[1, 2], [3, 4],], \"type\": \"LineString\", }".len());
	assert_eq!(g.to_text(), "{ type: 'LineString', coordinates: [[1, 2], [3, 4]] }");
	let (_, g) = geometry("{type:'GeometryCollection',geometries:[(1,2),{type:'MultiPoint',coordinates:[]}]}").unwrap();
	assert_eq!(g.to_text(), "{ type: 'GeometryCollection', geometries: [(1, 2), { type: 'MultiPoint', coordinates: [] }] }");
	let (_, g) = geometry("(NaN, -1e3)").unwrap();
	assert_eq!(g.to_text(), "(NaN, -1e3)");
	assert!(geometry("{ type: 'Polygon', coordinates: [] }").is_none());
	let (_, g) = geometry("{ type: 'MultiPolygon', coordinates: [[[[0, 0], [1, 1], [0, 0]], [[0.5, 0.5]]]] }").unwrap();
	match g {
		Geometry::MultiPolygon(v) => {
			assert_eq!(v.len(), 1);
			assert_eq!(v[0].exterior.len(), 3);
			assert_eq!(v[0].interiors.len(), 1);
		}
		other => panic!("{other:?}"),
	}
}

#[test]
fn geometry_text_forms() {
	let p = Polygon { exterior: vec![text(("0", "0")), text(("1", "0"))], interiors: vec![vec![text(("2", "2"))]] };
	assert_eq!(Geometry::Polygon(p).to_text(), "{ type: 'Polygon', coordinates: [[[0, 0], [1, 0]], [[[2, 2]]]] }");
	let m = Geometry::MultiLine(vec![vec![text(("1", "2"))], vec![]]);
	assert_eq!(m.to_text(), "{ type: 'MultiLineString', coordinates: [[[1, 2]], []] }");
	assert_eq!(m.as_type(), "MultiLineString");
	assert!(m.is_multiline() && m.is_geometry() && !m.is_collection());
}

#[test]
fn written_geometry_reads_back() {
	let ring = vec![text(("0", "0")), text(("1.5", "-2e3")), text(("0", "0"))];
	let samples = vec![
		Geometry::Point(text(("NaN", "inf"))),
		Geometry::Line(ring.clone()),
		Geometry::Polygon(Polygon { exterior: ring.clone(), interiors: vec![] }),
		Geometry::MultiPoint(vec![]),
		Geometry::MultiLine(vec![ring.clone(), vec![]]),
		Geometry::MultiPolygon(vec![Polygon { exterior: ring.clone(), interiors: vec![] }]),
		Geometry::Collection(vec![
			Geometry::Point(text(("1", "2"))),
			Geometry::Collection(vec![]),
			Geometry::Line(ring.clone()),
		]),
	];
	for g in samples {
		let t = g.to_text();
		let (used, back) = geometry(&t).unwrap();
		assert_eq!(used, t.len());
		assert_eq!(back.to_text(), t);
	}
	// A polygon with holes is written with one bracket more than a polygon reads.
	let holed = Geometry::Polygon(Polygon { exterior: ring.clone(), interiors: vec![ring] });
	assert!(geometry(&holed.to_text()).is_none());
}

#[test]
fn reading_agrees_with_std_parsers() {
	let texts = [
		"0", "+1", "-1", "1.", ".5", "-.5e-3", "1e", "1e+5", "1E-5", "1.e5", "e5", ".", "", "-", "+",
		"inf", "-inf", "+inf", "Infinity", "-INFINITY", "infinit", "nan", "NaN", "-NaN", "+nan", "1_0",
		" 1", "1 ", "0x10", "1e1000", "--1", "+-1", "9223372036854775807", "9223372036854775808",
		"-9223372036854775808", "-9223372036854775809", "00012", "1.5.5", "1e5e5",
	];
	for t in texts {
		let expected = match (t.parse::<i64>(), t.parse::<f64>()) {
			(Ok(v), _) => format!("{:?}", Scanned::Number(Number::Int(v))),
			(Err(_), Ok(_)) => format!("{:?}", Scanned::FloatText(t.len())),
			(Err(_), Err(_)) => "error".to_string(),
		};
		let got = match read_number(t) {
			Ok(s) => format!("{s:?}"),
			Err(()) => "error".to_string(),
		};
		assert_eq!(got, expected, "{t:?}");
	}
}

#[test]
fn geometry_order_is_transitive() {
	let p = |x: f64, y: f64| Coord { x: x.to_bits(), y: y.to_bits() };
	let a = Geometry::Line(vec![p(0.0, 0.0)]);
	let b = Geometry::Line(vec![p(0.0, 0.0), p(1.0, 1.0)]);
	let c = Geometry::Line(vec![p(0.0, 1.0)]);
	let d = Geometry::Polygon(Polygon { exterior: vec![], interiors: vec![] });
	assert_eq!(a.partial_cmp(&b), Some(Ordering::Less));
	assert_eq!(b.partial_cmp(&c), Some(Ordering::Less));
	assert_eq!(a.partial_cmp(&c), Some(Ordering::Less));
	assert_eq!(c.partial_cmp(&d), Some(Ordering::Less));
	assert_eq!(a.partial_cmp(&d), Some(Ordering::Less));
	let e = Geometry::Collection(vec![a, Geometry::Point(p(-0.0, 2.0))]);
	let f = Geometry::Collection(vec![Geometry::Line(vec![p(0.0, 0.0)]), Geometry::Point(p(0.0, 2.0))]);
	assert_eq!(e.partial_cmp(&f), Some(Ordering::Equal));
}
