//! Hand-built containers with machine-checked contracts: a fixed-capacity
//! buffer, a growable list on top of it, a binary min-heap on top of the list,
//! and a doubly linked list kept in a slot arena.

pub mod array;
pub mod array_list;
pub mod heap;
pub mod linked_list;
pub mod matching;
