//! N-modular redundancy: `N` copies of a value from independent channels and
//! the votes that agree on one value while up to `floor(N/2)` channels are
//! faulty.
pub mod count;
pub mod vote;
