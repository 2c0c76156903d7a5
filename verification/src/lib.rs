//! Classic data structures and algorithms with machine-checked contracts:
//! an array-backed binary max-heap with heapsort, linked lists, binary
//! search and the comparison sorts.

pub mod order;
pub mod search;
pub mod slices;
pub mod ds;
pub mod list;
pub mod sort;
pub mod sorting;
