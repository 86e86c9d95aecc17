//! Validation and indexing of a query's intermediate representation.
pub mod ir;
pub mod indexed;
pub mod laws;
