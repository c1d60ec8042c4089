//! A typed AST for propositions and terms: every node carries its kind (a
//! proposition, a term or a type) in its Rust type, so that a term cannot
//! stand where a proposition is expected.
pub mod builder;
pub mod expr;
pub mod kinds;
mod sealed;
