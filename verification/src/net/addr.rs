//! Network addresses, as plain numbers.
use vstd::prelude::*;

verus! {

/// An IP address: the version of the protocol (4 or 6), and the bits of the address.
pub type IpAddress = (u8, u128);

/// A socket address: IP address, port, and for version 6 the flow information and scope.
pub type SocketAddress = (IpAddress, u16, u32, u32);

/// The address that a host has for itself in version 4 of the protocol.
pub const LOCALHOST: IpAddress = (4, 0x7f000001);

/// The address is a version 4 address.
pub open spec fn spec_is_v4(ip: IpAddress) -> bool {
    ip.0 == 4
}

/// Whether the address is a version 4 address.
pub fn is_v4(ip: &IpAddress) -> (result: bool)
    ensures
        result == spec_is_v4(*ip),
{
    ip.0 == 4
}

/// The address is the wildcard that stands for all addresses of a host.
pub open spec fn spec_is_unspecified(ip: IpAddress) -> bool {
    ip.1 == 0
}

/// Whether the address is the wildcard that stands for all addresses of a host.
pub fn is_unspecified(ip: &IpAddress) -> (result: bool)
    ensures
        result == spec_is_unspecified(*ip),
{
    ip.1 == 0
}

/// The socket at `ip` and `port`.
pub open spec fn spec_socket(ip: IpAddress, port: u16) -> SocketAddress {
    (ip, port, 0, 0)
}

/// The socket at `ip` and `port`.
pub fn socket(ip: IpAddress, port: u16) -> (addr: SocketAddress)
    ensures
        addr == spec_socket(ip, port),
{
    (ip, port, 0, 0)
}

/// Whether two socket addresses are the same.
pub fn same_socket(a: &SocketAddress, b: &SocketAddress) -> (result: bool)
    ensures
        result == (*a == *b),
{
    a.0.0 == b.0.0 && a.0.1 == b.0.1 && a.1 == b.1 && a.2 == b.2 && a.3 == b.3
}

} // verus!
