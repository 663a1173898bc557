//! Names, positions and text helpers shared by the compiler phases.

pub mod pos;
pub mod shared;
pub mod strings;
pub mod symbol;
pub mod types;
