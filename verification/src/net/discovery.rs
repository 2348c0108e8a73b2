//! mDNS service discovery: what a node announces, and what it makes of the announcements of
//! others.
//!
//! On the same local subnet, each node announces a service with its UUID as the instance name and
//! its advertised gossip address as the service location, and browses for the same service type.
use super::addr::{is_v4, socket, IpAddress, SocketAddress};
use super::registry::{PeerRegistry, Peers};
use crate::text::{parse_uuid, uuid_text};
use crate::NodeId;
use vstd::prelude::*;
use vstd::string::*;

verus! {

/// What a node announces.
pub struct Announcement {
    /// The type of the service.
    pub service_type: String,
    /// The name of the instance: the node.
    pub instance_name: String,
    /// The name of the host.
    pub host: String,
    /// The properties of the service, by name.
    pub properties: Vec<(String, String)>,
    /// The port of the service.
    pub port: u16,
}

/// The type of the service.
pub open spec fn service_type() -> Seq<char> {
    "_crdt-net._tcp.local."@
}

/// What was observed of the services around.
pub enum DiscoveryEvent {
    /// A service was found, with the text of its `node_id` property, its port and its addresses.
    ServiceResolved { node_id: Option<String>, port: u16, addresses: Vec<IpAddress> },
    /// The service of that name is gone.
    ServiceRemoved { fullname: String },
    /// Anything else.
    Other,
}

/// What this node announces.
pub fn announcement(self_id: NodeId, advertise_addr: SocketAddress) -> (service: Announcement)
    ensures
        service.service_type@ == service_type(),
        service.instance_name@ == crate::text::hyphenated(self_id),
        service.host@ == crate::text::hyphenated(self_id) + ".local."@,
        service.properties@.len() == 2,
        service.properties@[0].0@ == "node_id"@,
        service.properties@[0].1@ == crate::text::hyphenated(self_id),
        service.properties@[1].0@ == "version"@,
        service.properties@[1].1@ == "1"@,
        service.port == advertise_addr.1,
{
    let mut host = uuid_text(self_id);
    host.append(".local.");
    let mut properties: Vec<(String, String)> = Vec::new();
    properties.push((String::from_str("node_id"), uuid_text(self_id)));
    properties.push((String::from_str("version"), String::from_str("1")));
    Announcement {
        service_type: String::from_str("_crdt-net._tcp.local."),
        instance_name: uuid_text(self_id),
        host,
        properties,
        port: advertise_addr.1,
    }
}

/// The address to reach a service at: its first version 4 address, or its first address where
/// it has none.
pub open spec fn preferred(addresses: Seq<IpAddress>, ip: Option<IpAddress>) -> bool {
    match ip {
        None => addresses.len() == 0,
        Some(ip) => {
            ||| exists|i: int|
                {
                    &&& 0 <= i < addresses.len()
                    &&& #[trigger] addresses[i] == ip
                    &&& super::addr::spec_is_v4(ip)
                    &&& forall|j: int|
                        0 <= j < i ==> !super::addr::spec_is_v4(#[trigger] addresses[j])
                }
            ||| {
                &&& addresses.len() > 0
                &&& ip == addresses[0]
                &&& forall|j: int|
                    0 <= j < addresses.len() ==> !super::addr::spec_is_v4(#[trigger] addresses[j])
            }
        },
    }
}

/// Picks the address to reach a service at.
pub fn preferred_address(addresses: &Vec<IpAddress>) -> (ip: Option<IpAddress>)
    ensures
        preferred(addresses@, ip),
{
    for i in 0..addresses.len()
        invariant
            forall|j: int| 0 <= j < i ==> !super::addr::spec_is_v4(#[trigger] addresses@[j]),
    {
        if is_v4(&addresses[i]) {
            assert(addresses@[i as int] == addresses[i as int]);
            return Some(addresses[i]);
        }
    }
    if addresses.len() == 0 {
        None
    } else {
        Some(addresses[0])
    }
}

/// The peer that an announcement tells of, where `id` is what its `node_id` property reads as:
/// none for this node itself, nor where the node or the address is missing.
pub fn announced_peer(
    self_id: NodeId,
    id: Option<NodeId>,
    port: u16,
    addresses: &Vec<IpAddress>,
) -> (peer: Option<(NodeId, SocketAddress)>)
    ensures
        match peer {
            Some(peer) => {
                &&& id == Some(peer.0)
                &&& peer.0 != self_id
                &&& exists|ip: IpAddress|
                    #[trigger] preferred(addresses@, Some(ip)) && peer.1
                        == super::addr::spec_socket(ip, port)
            },
            None => id is None || id == Some(self_id) || addresses@.len() == 0,
        },
{
    match id {
        None => None,
        Some(id) => {
            if id == self_id {
                return None;
            }
            match preferred_address(addresses) {
                None => None,
                Some(ip) => Some((id, socket(ip, port))),
            }
        },
    }
}

/// What the `node_id` property of an announcement reads as.
pub open spec fn property_id(property: Option<String>) -> Option<NodeId> {
    match property {
        Some(text) => crate::text::parsed_uuid(text@),
        None => None,
    }
}

/// The peer that an announcement tells of.
pub fn parse_peer(
    self_id: NodeId,
    node_id: &Option<String>,
    port: u16,
    addresses: &Vec<IpAddress>,
) -> (peer: Option<(NodeId, SocketAddress)>)
    ensures
        match peer {
            Some(peer) => {
                &&& property_id(*node_id) == Some(peer.0)
                &&& peer.0 != self_id
                &&& exists|ip: IpAddress|
                    #[trigger] preferred(addresses@, Some(ip)) && peer.1
                        == super::addr::spec_socket(ip, port)
            },
            None => property_id(*node_id) is None || property_id(*node_id) == Some(self_id)
                || addresses@.len() == 0,
        },
{
    let id = match node_id {
        Some(text) => parse_uuid(text.as_str()),
        None => None,
    };
    announced_peer(self_id, id, port, addresses)
}

/// The part of a name before its first dot, which is all of it where it has none.
pub open spec fn is_first_label(name: Seq<char>, label: Seq<char>) -> bool {
    &&& label.len() <= name.len()
    &&& label == name.take(label.len() as int)
    &&& forall|i: int| 0 <= i < label.len() ==> #[trigger] label[i] != '.'
    &&& label.len() < name.len() ==> name[label.len() as int] == '.'
}

/// The part of a name before its first dot.
pub fn first_label(name: &str) -> (label: &str)
    ensures
        is_first_label(name@, label@),
{
    let count: usize = name.unicode_len();
    let mut end: usize = 0;
    while end < count && name.get_char(end) != '.'
        invariant
            count == name@.len(),
            end <= count,
            forall|i: int| 0 <= i < end ==> #[trigger] name@[i] != '.',
        decreases count - end,
    {
        end = end + 1;
    }
    let label = name.substring_char(0, end);
    proof {
        assert(label@ =~= name@.take(end as int));
    }
    label
}

/// The node whose service is gone, where `id` is what the first label of its name reads as: none
/// for this node itself.
pub fn removed_peer(self_id: NodeId, id: Option<NodeId>) -> (peer: Option<NodeId>)
    ensures
        peer == if id == Some(self_id) {
            None
        } else {
            id
        },
{
    match id {
        Some(id) => {
            if id == self_id {
                None
            } else {
                Some(id)
            }
        },
        None => None,
    }
}

/// The registry after an event: a service that was found resolves its node; one that is gone
/// removes it, without a tombstone.
pub open spec fn discovered<V>(
    before: Peers<V>,
    self_id: NodeId,
    event: DiscoveryEvent,
    after: Peers<V>,
) -> bool {
    match event {
        DiscoveryEvent::ServiceResolved { node_id, port, addresses } => {
            let id = property_id(node_id);
            if id is None || id == Some(self_id) || addresses@.len() == 0 {
                after == before
            } else {
                exists|ip: IpAddress|
                    #[trigger] preferred(addresses@, Some(ip)) && after == before.with_resolved(
                        id->0,
                        super::addr::spec_socket(ip, port),
                    )
            }
        },
        DiscoveryEvent::ServiceRemoved { fullname } => {
            exists|label: Seq<char>|
                {
                    &&& #[trigger] is_first_label(fullname@, label)
                    &&& after == match crate::text::parsed_uuid(label) {
                        Some(id) => if id == self_id {
                            before
                        } else {
                            before.without(id)
                        },
                        None => before,
                    }
                }
        },
        DiscoveryEvent::Other => after == before,
    }
}

/// Takes an event into the registry.
pub fn handle_event<V>(self_id: NodeId, registry: &mut PeerRegistry<V>, event: &DiscoveryEvent)
    ensures
        discovered(old(registry)@, self_id, *event, final(registry)@),
        old(registry)@.wf() ==> final(registry)@.wf(),
{
    match event {
        DiscoveryEvent::ServiceResolved { node_id, port, addresses } => {
            if let Some((id, addr)) = parse_peer(self_id, node_id, *port, addresses) {
                registry.add_resolved(id, addr);
            }
        },
        DiscoveryEvent::ServiceRemoved { fullname } => {
            let label = first_label(fullname.as_str());
            let ghost text = label@;
            if let Some(id) = removed_peer(self_id, parse_uuid(label)) {
                registry.remove(id);
            }
            assert(is_first_label(fullname@, text));
        },
        DiscoveryEvent::Other => {},
    }
}

/// The first label of the full name of a service is the text of the node that announced it.
pub proof fn full_name_starts_with_node(announcer: NodeId, label: Seq<char>)
    requires
        is_first_label(crate::text::hyphenated(announcer) + seq!['.'] + service_type(), label),
    ensures
        label == crate::text::hyphenated(announcer),
{
    let name = crate::text::hyphenated(announcer) + seq!['.'] + service_type();
    let text = crate::text::hyphenated(announcer);
    assert(name[text.len() as int] == '.');
    assert forall|i: int| 0 <= i < text.len() implies name[i] != '.' by {
        assert(name[i] == text[i]);
    }
    if label.len() < text.len() {
        assert(name[label.len() as int] == '.');
    }
    if label.len() > text.len() {
        assert(label[text.len() as int] == name[text.len() as int]);
    }
    assert(label =~= text);
}

} // verus!
