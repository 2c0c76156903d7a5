//! Data structures.

pub mod double;
pub mod heap;
pub mod heap_model;
pub mod persistent;
pub mod persistent_rc;
pub mod single;

pub use double::DoubleLinked;
pub use heap::{Heap, InvalidSize, MaxHeap};
pub use persistent::{Persistent, PersistentIter};
pub use persistent_rc::{PersistentLinkedList, PersistentLinkedListIter};
pub use single::{
    SingleLinkedList, SingleLinkedListIntoIter, SingleLinkedListIter, SingleLinkedListIterMut,
};
