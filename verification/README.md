# surrealdb_sql

The number and geometry values of SurrealQL, with their text forms, as a
library verified with Verus.

- `src/` is the verified library. Binary64 values are held by their bit
  patterns; what follows from the bits (ordering, conversions, the choice of
  operation) is decided and proved here, and the floating-point arithmetic
  itself is named for the caller to perform. Decimal arithmetic goes through
  `rust_decimal`, behind small trusted wrappers in `src/decimal.rs`.
  - `number.rs`, `number_convert.rs`, `number_sort.rs`, `arithmetic.rs`,
    `number_text.rs`, `lexical.rs`, `binary64.rs`, `decimal.rs`: numbers.
  - `geometry.rs`, `geometry_grammar.rs`, `geometry_parser.rs`,
    `geometry_text.rs`, `geometry_order.rs`, `geometry_round_trip.rs`,
    `geometry_coordinates.rs`, `geometry_relation.rs`: geometries, their
    grammar and parser, their text form, their order, the proof that the text
    form reads back, their raw coordinates, and how the spatial predicates
    decide by the kinds of the two geometries.
  - `hashing.rs`: what `Hash` feeds to the hasher for numbers and geometries.
- `tests/` runs the library on concrete values.
- `app/` wraps the library for the rest of a program: serde, `Display`,
  the hasher calls, the operators with binary64 arithmetic, and the `geo` types with
  the `geo` calls that the spatial predicates make.
