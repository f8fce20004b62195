//! Persistent state for smart contracts: typed, nestable collections (map,
//! set, single-value box) over a byte-keyed store of byte strings.
//!
//! Every collection owns an eight-byte prefix. The key of one of its items
//! is the prefix followed by the encoding of the item's own key, and the
//! store keeps its entries in the byte order of their keys.
pub mod byte_order;
pub mod codec;
pub mod store;
pub mod stream;
pub mod entry_raw;
pub mod entry;
pub mod map;
pub mod set;
pub mod state_box;
pub mod allocator;
pub mod host;
pub mod laws;
pub mod policies;
pub mod reject;
pub mod response;
