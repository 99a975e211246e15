use surrealdb_sql::geometry::{Coord, CoordText, Geometry, Polygon};
use surrealdb_sql::geometry_parser::geometry;
use surrealdb_sql::geometry_coordinates::Coordinates;
use surrealdb_sql::geometry_relation::Relation;
use surrealdb_sql::hashing::HashPart;

/// A coordinate text as binary64 `Display` writes the value it reads as.
fn coordinate(c: &CoordText) -> CoordText {
	CoordText {
		x: format!("{}", c.x.parse::<f64>().unwrap()),
		y: format!("{}", c.y.parse::<f64>().unwrap()),
	}
}

fn ring(v: &[CoordText]) -> Vec<CoordText> {
	v.iter().map(coordinate).collect()
}

fn polygon(p: &Polygon<CoordText>) -> Polygon<CoordText> {
	Polygon {
		exterior: ring(&p.exterior),
		interiors: p.interiors.iter().map(|r| ring(r)).collect(),
	}
}

/// The geometry with its coordinates written as the binary64 values they denote.
fn values(g: &Geometry<CoordText>) -> Geometry<CoordText> {
	match g {
		Geometry::Point(c) => Geometry::Point(coordinate(c)),
		Geometry::Line(v) => Geometry::Line(ring(v)),
		Geometry::Polygon(p) => Geometry::Polygon(polygon(p)),
		Geometry::MultiPoint(v) => Geometry::MultiPoint(ring(v)),
		Geometry::MultiLine(v) => Geometry::MultiLine(v.iter().map(|r| ring(r)).collect()),
		Geometry::MultiPolygon(v) => Geometry::MultiPolygon(v.iter().map(polygon).collect()),
		Geometry::Collection(v) => Geometry::Collection(v.iter().map(values).collect()),
	}
}

/// Parses a geometry and writes it back in its SurrealQL form.
fn display(sql: &str) -> String {
	let (_, g) = geometry(sql).unwrap();
	values(&g).to_text()
}

#[test]
fn simple() {
	let sql = "(-0.118092, 51.509865)";
	let out = display(sql);
	assert_eq!("(-0.118092, 51.509865)", out);
}

#[test]
fn point() {
	let sql = r#"{
			type: 'Point',
			coordinates: [-0.118092, 51.509865]
		}"#;
	let out = display(sql);
	assert_eq!("(-0.118092, 51.509865)", out);
}

#[test]
fn polygon_exterior() {
	let sql = r#"{
			type: 'Polygon',
			coordinates: [
				[
					[-0.38314819, 51.37692386], [0.1785278, 51.37692386],
					[0.1785278, 51.61460570], [-0.38314819, 51.61460570],
					[-0.38314819, 51.37692386]
				]
			]
		}"#;
	let out = display(sql);
	assert_eq!("{ type: 'Polygon', coordinates: [[[-0.38314819, 51.37692386], [0.1785278, 51.37692386], [0.1785278, 51.6146057], [-0.38314819, 51.6146057], [-0.38314819, 51.37692386]]] }", out);
}

#[test]
fn polygon_interior() {
	let sql = r#"{
			type: 'Polygon',
			coordinates: [
				[
					[-0.38314819, 51.37692386], [0.1785278, 51.37692386],
					[0.1785278, 51.61460570], [-0.38314819, 51.61460570],
					[-0.38314819, 51.37692386]
				],
				[
					[-0.38314819, 51.37692386], [0.1785278, 51.37692386],
					[0.1785278, 51.61460570], [-0.38314819, 51.61460570],
					[-0.38314819, 51.37692386]
				]
			]
		}"#;
	let out = display(sql);
	assert_eq!("{ type: 'Polygon', coordinates: [[[-0.38314819, 51.37692386], [0.1785278, 51.37692386], [0.1785278, 51.6146057], [-0.38314819, 51.6146057], [-0.38314819, 51.37692386]], [[[-0.38314819, 51.37692386], [0.1785278, 51.37692386], [0.1785278, 51.6146057], [-0.38314819, 51.6146057], [-0.38314819, 51.37692386]]]] }", out);
}

#[test]
fn coordinates_of_each_kind() {
	let c = |x: u64, y: u64| Coord { x, y };
	let point: Geometry<Coord> = Geometry::Point(c(1, 2));
	assert!(matches!(point.as_coordinates(), Coordinates::Pair(Coord { x: 1, y: 2 })));
	let polygon = Geometry::Polygon(Polygon {
		exterior: vec![c(0, 0), c(1, 0), c(0, 0)],
		interiors: vec![vec![c(5, 5), c(6, 6)]],
	});
	let expected = "List([List([Pair(Coord { x: 0, y: 0 }), Pair(Coord { x: 1, y: 0 }), Pair(Coord { x: 0, y: 0 })]), List([Pair(Coord { x: 5, y: 5 }), Pair(Coord { x: 6, y: 6 })])])";
	assert_eq!(format!("{:?}", polygon.as_coordinates()), expected);
	let collection = Geometry::Collection(vec![point, Geometry::MultiPoint(vec![c(3, 4)]), Geometry::Line(vec![])]);
	assert_eq!(
		format!("{:?}", collection.as_coordinates()),
		"List([Pair(Coord { x: 1, y: 2 }), List([Pair(Coord { x: 3, y: 4 })]), List([])])"
	);
	let multiline: Geometry<Coord> = Geometry::MultiLine(vec![vec![c(1, 1)], vec![]]);
	assert_eq!(format!("{:?}", multiline.as_coordinates()), "List([List([Pair(Coord { x: 1, y: 1 })]), List([])])");
}

#[test]
fn spatial_predicates_decide_by_kind() {
	let c = Coord { x: 0, y: 0 };
	let point: Geometry<Coord> = Geometry::Point(c);
	let line: Geometry<Coord> = Geometry::Line(vec![c]);
	let polygon: Geometry<Coord> = Geometry::Polygon(Polygon { exterior: vec![c], interiors: vec![] });
	let multipoint: Geometry<Coord> = Geometry::MultiPoint(vec![c]);
	let multiline: Geometry<Coord> = Geometry::MultiLine(vec![vec![c]]);
	let multipolygon: Geometry<Coord> = Geometry::MultiPolygon(vec![]);
	let collection: Geometry<Coord> = Geometry::Collection(vec![]);
	assert_eq!(point.contains_relation(&point), Relation::Direct);
	assert_eq!(point.contains_relation(&multipoint), Relation::EveryPart);
	assert_eq!(point.contains_relation(&line), Relation::Never);
	assert_eq!(line.contains_relation(&multiline), Relation::PartsInOwnWhole);
	assert_eq!(polygon.contains_relation(&multipolygon), Relation::PartsInOwnWhole);
	assert_eq!(polygon.contains_relation(&line), Relation::Direct);
	assert_eq!(multipoint.contains_relation(&multipoint), Relation::PartsInOwnWhole);
	assert_eq!(multipoint.contains_relation(&line), Relation::Never);
	assert_eq!(multiline.contains_relation(&polygon), Relation::Never);
	assert_eq!(multipolygon.contains_relation(&multiline), Relation::Direct);
	assert_eq!(line.contains_relation(&collection), Relation::EveryOtherMember);
	assert_eq!(collection.contains_relation(&collection), Relation::EveryOwnMember);
	assert_eq!(point.intersects_relation(&multiline), Relation::SomePart);
	assert_eq!(multiline.intersects_relation(&multiline), Relation::SomePart);
	assert_eq!(polygon.intersects_relation(&multiline), Relation::Direct);
	assert_eq!(multipolygon.intersects_relation(&point), Relation::Direct);
	assert_eq!(point.intersects_relation(&collection), Relation::EveryOtherMember);
	assert_eq!(collection.intersects_relation(&point), Relation::EveryOwnMember);
}

#[test]
fn hash_parts_follow_the_kinds() {
	let c = |x: u64, y: u64| Coord { x, y };
	let polygon: Geometry<Coord> = Geometry::Polygon(Polygon { exterior: vec![c(1, 2)], interiors: vec![vec![c(3, 4)]] });
	assert_eq!(
		format!("{:?}", polygon.hash_parts()),
		format!("{:?}", vec![HashPart::Tag("Polygon"), HashPart::Bits(1), HashPart::Bits(2), HashPart::Bits(3), HashPart::Bits(4)])
	);
	let collection = Geometry::Collection(vec![Geometry::Point(c(5, 6)), Geometry::MultiLine(vec![vec![c(7, 8)]])]);
	assert_eq!(
		format!("{:?}", collection.hash_parts()),
		format!(
			"{:?}",
			vec![
				HashPart::Tag("GeometryCollection"),
				HashPart::Tag("Point"),
				HashPart::Bits(5),
				HashPart::Bits(6),
				HashPart::Tag("MultiLine"),
				HashPart::Bits(7),
				HashPart::Bits(8)
			]
		)
	);
}
