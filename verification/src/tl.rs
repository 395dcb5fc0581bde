//! The items of a Type Language schema: types, parameters and definitions.

pub mod ty;

pub use ty::Type;
pub mod definition;

pub use definition::{Category, Definition, Parameter};
pub mod ty_laws;
