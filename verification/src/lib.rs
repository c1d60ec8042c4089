//! Verified building blocks for safety-critical Rust.
use vstd::prelude::*;

pub mod det_proptest;
pub mod deterministic_sim;
pub mod exact_math;
pub mod macro_support;
pub mod proof_ast;
pub mod redundancy;
pub mod smt;
pub mod verified_algorithms;
pub mod verified_ode;
pub mod text;

verus! {
} // verus!
