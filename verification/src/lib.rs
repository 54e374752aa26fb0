//! An insertion-ordered map: a hash table from keys to values that also keeps
//! its keys in a sequence, so that a pair can be reached by key or by
//! position and the keys can be read in the order in which they came.
//!
//! The two halves never disagree. Every key of the table stands in exactly
//! one slot of the sequence, the table records that slot, and every slot
//! holds a key of the table. Removing a key moves the later keys down by one
//! and renumbers them in the table; writing at a position evicts whatever
//! the write would leave stale.
//!
//! - [`map`]: the map and what each of its methods does to it.
//! - [`model`]: the map as a sequence of pairs, over which the contracts are
//!   stated.
//! - [`laws`]: what follows for every map.
//! - [`traits`], [`collections`]: the sequence of keys and its default, the
//!   growable array.
//! - [`render`]: the diagnostic text.

pub mod collections;
pub mod laws;
pub mod map;
pub mod model;
pub mod render;
pub mod traits;

pub use map::{IndexedLinkedHashMap, IndexedLinkedHashMapValue};
