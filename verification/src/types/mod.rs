//! Types, and the type checker with its model.
pub mod checking;
pub mod type_checker;
pub mod types;

pub use types::{SpecType, Type};
