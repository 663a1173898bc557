//! The core intermediate representation and its optimizer.

pub mod expr;
pub mod interpreter;
pub mod costs;
pub mod dead_code;
pub mod optimize;
pub mod purity;
pub mod uses;
