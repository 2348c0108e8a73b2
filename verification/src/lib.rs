//! Conflict-free replicated data types, the gossip protocol that spreads them, and a shared
//! pixel canvas built on both.
//!
//! Every data type implements [`Crdt`]: replicas can be merged in any order, by any grouping, and
//! any number of times, and always produce the same result. Those that can be replicated by deltas
//! implement [`DeltaCrdt`], too. Each implementation proves these laws of its own model.
//!
//! ```
//! use crdt_canvas::counters::GCounter;
//! use crdt_canvas::{Crdt, DeltaCrdt};
//!
//! // Two peers increment independently.
//! let mut peer_a = GCounter::new();
//! peer_a.increment(1);
//! peer_a.increment(1);
//! let mut peer_b = GCounter::new();
//! peer_b.increment(2);
//!
//! // Send only what the receiver is missing.
//! let delta = peer_a.delta_since(&peer_b.version());
//! peer_b.merge_delta(delta);
//! assert_eq!(peer_b.value(), 3);
//! ```
use vstd::prelude::*;

pub mod answers;
pub mod api;
pub mod canvas;
pub mod clocks;
pub mod collections;
pub mod counters;
pub mod counts;
pub mod maps;
pub mod models;
pub mod net;
pub mod registers;
pub mod sets;
pub mod state;
pub mod text;
pub mod traits;

pub use traits::{Crdt, DeltaCrdt};

verus! {

/// Identifies a node of the network: the 128 bits of its UUID.
pub type NodeId = u128;

} // verus!
