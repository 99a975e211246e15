use nom::number::complete::recognize_float;
use surrealdb_sql::lexical::read_leading_int;
use surrealdb_sql::number_text::float_lexeme;

#[test]
fn float_lexeme_agrees_with_nom() {
	let texts = [
		"0", "+1", "-1", "1.", ".5", "-.5e-3", "1e", "1e+", "1e+5", "1E-5x", "1.e5", "e5", ".", "", "-",
		"+", ".e1", "12.34.56", "1.5,", "7]", "-0.118092, 51", "3e-2)", "inf", "nan", "1x", "++1", "-.",
		"00.00", "5E", "5e-", "5e-0", "123456789012345678901234567890",
	];
	for t in texts {
		let nom_end = match recognize_float::<&str, nom::error::Error<&str>>(t) {
			Ok((rest, _)) => Some(t.len() - rest.len()),
			Err(_) => None,
		};
		assert_eq!(float_lexeme(t.as_bytes()), nom_end, "{t:?}");
	}
}

#[test]
fn leading_int_agrees_with_nom() {
	let texts = [
		"0", "+1", "-1", "12ab", "-", "+", "", "9223372036854775807", "9223372036854775808",
		"-9223372036854775808", "-9223372036854775809", "99999999999999999999x", "+-1", "007", "-0",
		"1.5", " 1",
	];
	for t in texts {
		let nom_result = match nom::character::complete::i64::<&str, nom::error::Error<&str>>(t) {
			Ok((rest, v)) => Some((t.len() - rest.len(), v)),
			Err(_) => None,
		};
		assert_eq!(read_leading_int(t.as_bytes()), nom_result, "{t:?}");
	}
}
