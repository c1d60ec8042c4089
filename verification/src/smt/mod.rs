//! Building SMT problems and writing them as SMT-LIB2 text, and reading the
//! models that solvers print back.
pub mod counter_example;
pub mod expr;
pub mod scan;
pub mod smtlib2;
pub mod solver;
pub mod sort;
