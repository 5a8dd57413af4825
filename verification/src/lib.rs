//! A registry of named, uniquely identified equipment units.
//!
//! A [`unit_store::UnitStore`] owns an ordered collection of
//! [`unit::Unit`] records. It permanently holds a root record with
//! identifier 0, hands out strictly increasing identifiers for new
//! records, and supports lookup, in-place rename, removal and reset,
//! never reusing an identifier it has issued.

pub mod unit;
pub mod unit_store;
