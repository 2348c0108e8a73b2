//! Configuration for the gossip engine.
//!
//! [`GossipConfig`] uses a builder pattern: construct with [`new`](GossipConfig::new), then chain
//! `.with_*` methods to customize. Only `node_id` and `gossip_addr` are required.
use super::addr::{is_unspecified, socket, IpAddress, SocketAddress, LOCALHOST};
use crate::collections::copy_all;
use crate::NodeId;
use vstd::prelude::*;

verus! {

/// A span of time: whole seconds, and the nanoseconds beyond them.
pub type Interval = (u64, u32);

/// The time between two gossip rounds where none is given.
pub const DEFAULT_INTERVAL: Interval = (5, 0);

/// Configuration for a [`GossipEngine`](crate::net::GossipEngine).
///
/// All fields have sensible defaults: 5-second gossip interval, mDNS enabled, no bootstrap peers.
/// Use the `with_*` builder methods to override.
#[derive(Debug)]
#[non_exhaustive]
pub struct GossipConfig {
    pub node_id: NodeId,
    pub gossip_addr: SocketAddress,
    /// Address others should use to reach this node. If `None`, derived from `gossip_addr`.
    pub advertise_addr: Option<SocketAddress>,
    /// Bootstrap peers whose `node_id` isn't yet known.
    pub peers: Vec<SocketAddress>,
    /// The time between two gossip rounds.
    pub interval: Interval,
    pub enable_mdns: bool,
}

impl Clone for GossipConfig {
    fn clone(&self) -> (copy: Self)
        ensures
            copy.peers@ == self.peers@,
            copy == (GossipConfig { peers: copy.peers, ..*self }),
    {
        GossipConfig {
            node_id: self.node_id,
            gossip_addr: self.gossip_addr,
            advertise_addr: self.advertise_addr,
            peers: copy_all(&self.peers),
            interval: self.interval,
            enable_mdns: self.enable_mdns,
        }
    }
}

impl GossipConfig {
    /// The configuration of a node that listens at `gossip_addr`.
    pub fn new(node_id: NodeId, gossip_addr: SocketAddress) -> (config: Self)
        ensures
            config.node_id == node_id,
            config.gossip_addr == gossip_addr,
            config.advertise_addr is None,
            config.peers@ == Seq::<SocketAddress>::empty(),
            config.interval == DEFAULT_INTERVAL,
            config.enable_mdns,
    {
        GossipConfig {
            node_id,
            gossip_addr,
            advertise_addr: None,
            peers: Vec::new(),
            interval: DEFAULT_INTERVAL,
            enable_mdns: true,
        }
    }

    /// Sets the bootstrap peers.
    pub fn with_peers(self, peers: Vec<SocketAddress>) -> (config: Self)
        ensures
            config == (GossipConfig { peers, ..self }),
    {
        GossipConfig { peers, ..self }
    }

    /// Sets the time between two gossip rounds.
    pub fn with_interval(self, interval: Interval) -> (config: Self)
        ensures
            config == (GossipConfig { interval, ..self }),
    {
        GossipConfig { interval, ..self }
    }

    /// Sets the address that others should use to reach this node.
    pub fn with_advertise_addr(self, addr: SocketAddress) -> (config: Self)
        ensures
            config == (GossipConfig { advertise_addr: Some(addr), ..self }),
    {
        GossipConfig { advertise_addr: Some(addr), ..self }
    }

    /// Turns mDNS on or off.
    pub fn with_mdns(self, enable: bool) -> (config: Self)
        ensures
            config == (GossipConfig { enable_mdns: enable, ..self }),
    {
        GossipConfig { enable_mdns: enable, ..self }
    }
}

/// The address that peers are told to reach this node at: the configured one; else the address
/// that the node listens at, with the port that was bound; and where that address is the
/// wildcard, the address of the host, or the loopback address if that is not known.
pub open spec fn advertised(
    config: GossipConfig,
    bound: SocketAddress,
    local_ip: Option<IpAddress>,
) -> SocketAddress {
    match config.advertise_addr {
        Some(addr) => addr,
        None => {
            let port = bound.1;
            if !super::addr::spec_is_unspecified(config.gossip_addr.0) {
                super::addr::spec_socket(config.gossip_addr.0, port)
            } else {
                match local_ip {
                    Some(ip) => super::addr::spec_socket(ip, port),
                    None => super::addr::spec_socket(LOCALHOST, port),
                }
            }
        },
    }
}

/// Turns the address that the node listens at into one that peers can dial, given the address
/// that was bound and what is known of the address of the host.
pub fn resolve_advertise_addr(
    config: &GossipConfig,
    bound: SocketAddress,
    local_ip: Option<IpAddress>,
) -> (addr: SocketAddress)
    ensures
        addr == advertised(*config, bound, local_ip),
{
    match config.advertise_addr {
        Some(addr) => addr,
        None => {
            let port: u16 = bound.1;
            if !is_unspecified(&config.gossip_addr.0) {
                return socket(config.gossip_addr.0, port);
            }
            match local_ip {
                Some(ip) => socket(ip, port),
                None => socket(LOCALHOST, port),
            }
        },
    }
}

} // verus!
