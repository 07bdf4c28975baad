//! A small language of symbolic expressions: numbers, identifiers,
//! applications and built-in operators, evaluated against an environment
//! that owns an interner of identifiers and the bindings.
pub mod eval;
pub mod expr;
pub mod laws;
pub mod number;
pub mod reader;
pub mod symbol;
