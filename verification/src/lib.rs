//! The incremental compilation core of a functional-language toolchain:
//! the module text store, the decisions of the query graph and the
//! optimizer of the core intermediate representation.

pub mod base;
pub mod ir;
pub mod query;
