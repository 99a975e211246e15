//! Numbers and geometries of the SurrealQL value model, with the parsers and
//! renderers of their text forms.
//!
//! IEEE-754 binary64 values are held throughout by their bit patterns (`u64`);
//! the library decides everything that follows from those bits and leaves the
//! floating-point arithmetic itself to its callers.
use vstd::prelude::*;

pub mod binary64;
pub mod decimal;
pub mod number;
pub mod number_convert;
pub mod number_sort;
pub mod arithmetic;
pub mod lexical;
pub mod number_text;
pub mod geometry;
pub mod geometry_text;
pub mod geometry_order;
pub mod geometry_grammar;
pub mod geometry_parser;
pub mod geometry_round_trip;
pub mod geometry_coordinates;
pub mod geometry_relation;
pub mod hashing;

verus! {

} // verus!
