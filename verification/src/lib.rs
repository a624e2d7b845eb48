//! An in-memory, schema-less configuration store: a tree of typed values
//! addressed by slash-delimited paths, together with a small predicate
//! algebra for validating the shape and content of any node.

use vstd::prelude::*;

pub mod conditions;
pub mod convert;
pub mod generate;
pub mod laws;
pub mod model;
pub mod numconv;
pub mod prelude;
pub mod store;
pub mod strutil;
pub mod value;

pub use conditions::{Checkable, Condition};
pub use value::{CfgMap, CfgValue};

verus! {

/// A segment separator splits a path into successive map keys or list indices.
pub open spec fn is_sep(c: char) -> bool {
    c == '/'
}

} // verus!
