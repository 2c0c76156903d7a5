//! Linked lists.

pub mod single;

pub use single::{SingleIntoIter, SingleIter, SingleIterMut, SingleLinked};
