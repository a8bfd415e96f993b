//! A structural type algebra for query-plan types: built-in simple and
//! compound type classes, user-defined and unresolved types, the parameter
//! shape rules of each class, and the transform between anonymous and named
//! struct representations.
pub mod text;
pub mod class;
pub mod diagnostic;
pub mod extension;
pub mod data_type;
