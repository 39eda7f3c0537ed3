//! A doubly-linked list kept inside a flat key-value store.
//!
//! Every node of a list lives in its own slot, addressed by the list's key and
//! by the value it holds; the slot addressed by `None` is the sentinel that
//! closes the chain into a ring.

pub mod item;
pub mod scale;
pub mod storage;
pub mod list;
