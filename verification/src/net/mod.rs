//! Peer-to-peer gossip for state-based CRDTs.
//!
//! [`GossipEngine`] is generic over any [`DeltaCrdt`](crate::traits::DeltaCrdt). It supports two
//! sync modes: full-state `Sync` for first contact with a peer, and incremental `SyncDelta` for
//! established peers. It decides; whoever owns it opens the connections, hands in what arrives
//! and sends what it hands out.
pub mod addr;
pub mod config;
pub mod discovery;
pub mod engine;
pub mod laws;
pub mod membership;
pub mod message;
pub mod registry;
pub mod rounds;

pub use addr::{IpAddress, SocketAddress};
pub use config::GossipConfig;
pub use engine::{GossipEngine, Outgoing};
pub use message::{FrameError, GossipMessage, PeerEntry, MAX_FRAME};
pub use registry::PeerRegistry;
