//! Runtime values and lexical scopes for a tree-walking interpreter of a
//! small dynamically-typed language.
//!
//! `object` holds the values and the scopes that bind names to them,
//! `builtins` the native callables that every scope can reach, `decimal` the
//! text of integers, `ast` the syntax that a closure carries, and `scoping`
//! what holds of name resolution in every chain of scopes.

pub mod ast;
pub mod builtins;
pub mod decimal;
pub mod object;
pub mod scoping;
