//! An array-backed binary heap, usable as a min-heap or a max-heap.
//!
//! The heap stores its elements in a single growable vector laid out as a
//! binary tree: the root sits at index 0, the children of index `i` sit at
//! `2*i + 1` and `2*i + 2`. An orientation tag, chosen at construction,
//! decides whether the smallest (`Min`) or the largest (`Max`) element is
//! kept at the root.

pub mod heap;
pub mod laws;
pub mod model;
pub mod order;

pub use heap::Heap;
pub use heap::HeapType;
