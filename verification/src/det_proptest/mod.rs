//! Deterministic property-based testing: a fixed-seed generator, value
//! strategies, and a runner that shrinks a counterexample to the first
//! failing value in the strategy's index order.
pub mod check;
pub mod rng;
pub mod strategy;
