//! Sorting and searching with proved contracts: sortedness and permutation
//! predicates, an insertion sort and a binary search.
pub mod order;
pub mod predicates;
pub mod search;
pub mod sort;
