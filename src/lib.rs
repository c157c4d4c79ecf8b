//! Ad-hoc queries over an in-memory table of string records: one projection
//! and at most one filter, read from a small query language.
use vstd::prelude::*;

pub mod laws;
pub mod query_engine;
pub mod record;
pub mod table;
pub mod text;

pub use query_engine::{ParseError, Predicate, Query};
pub use record::Record;

verus! {

} // verus!
