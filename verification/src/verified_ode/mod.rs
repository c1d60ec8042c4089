//! Ordinary differential equations `y' = f(t, y)` stepped with Picard
//! iteration over exact rational intervals.
pub mod picard;
pub mod solver;

