//! The text that the attribute macros derive: requirement traces for
//! `#[traces(..)]` and contract documentation for `#[requires(..)]`,
//! `#[ensures(..)]`, `#[invariant(..)]` and `#[pure]`. The token handling
//! around them lives with the macros themselves.
pub mod contracts;
pub mod traces;
