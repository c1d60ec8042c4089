//! Exact arithmetic: arbitrary-precision integers, rationals in lowest terms
//! and closed rational intervals.
pub mod bigint;
pub mod number_theory;
pub mod rational;
pub mod rational_ops;
pub mod rational_order;
pub mod interval;
pub mod interval_ops;
pub mod interval_laws;
