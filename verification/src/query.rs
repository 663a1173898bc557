//! The compilation database as the compiler phases see it: the text of
//! the modules, the results that are computed already, and the decisions
//! of the queries that compute them.

pub mod cycle;
pub mod database;
pub mod env;
pub mod error;
pub mod filemap;
pub mod queries;
pub mod state;
pub mod value;
