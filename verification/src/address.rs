//! Addresses of remote hosts, as the socket a host runs on knows them.
use vstd::prelude::*;

verus! {

/// An address type, for use with the [`Socket`](crate::socket::Socket) trait.
pub trait Address: Sized {
    /// Whether two addresses are of the same host.
    spec fn spec_same_host(&self, other: &Self) -> bool;

    /// Whether two addresses are exactly the same.
    spec fn spec_same(&self, other: &Self) -> bool;

    /// Whether this is a broadcast address.
    spec fn spec_is_broadcast(&self) -> bool;

    /// Are the two addresses the same host?
    ///
    /// For IP based addresses, this checks if the IP of two addresses are the same.
    fn same_host(&self, other: &Self) -> (b: bool)
        ensures
            b == self.spec_same_host(other),
    ;

    /// Are the two addresses exactly the same?
    ///
    /// For IP based addresses, this checks if the IP and port of two addresses are the same.
    fn same(&self, other: &Self) -> (b: bool)
        ensures
            b == self.spec_same(other),
    ;

    /// Is this a broadcast address?
    ///
    /// For IP based addresses, checks if this is the IPv4 broadcast address.
    fn is_broadcast(&self) -> (b: bool)
        ensures
            b == self.spec_is_broadcast(),
    ;
}

/// The unit address, for sockets that talk to a single remote host: every address is the
/// same, and none is a broadcast address.
impl Address for () {
    open spec fn spec_same_host(&self, other: &Self) -> bool {
        true
    }

    open spec fn spec_same(&self, other: &Self) -> bool {
        true
    }

    open spec fn spec_is_broadcast(&self) -> bool {
        false
    }

    fn same_host(&self, _other: &()) -> (b: bool) {
        true
    }

    fn same(&self, _other: &()) -> (b: bool) {
        true
    }

    fn is_broadcast(&self) -> (b: bool) {
        false
    }
}

/// An IP socket address as plain values: an IPv4 address with its port, or an IPv6
/// address with its port, flow information and scope id. The IP addresses are held as
/// numbers, their first octet the most significant.
#[derive(Debug, Clone, Copy, PartialEq, Eq, Hash, Structural)]
#[allow(inconsistent_fields)]
pub enum SocketAddress {
    /// An IPv4 socket address.
    V4 { ip: u32, port: u16 },
    /// An IPv6 socket address.
    V6 { ip: u128, port: u16, flowinfo: u32, scope_id: u32 },
}

/// The IPv4 broadcast address, 255.255.255.255.
pub const IPV4_BROADCAST: u32 = 0xffff_ffff;

/// Socket addresses are of the same host when their IP addresses are the same, exactly the
/// same when every part is, and a broadcast address when the IP address is the IPv4
/// broadcast address.
impl Address for SocketAddress {
    open spec fn spec_same_host(&self, other: &Self) -> bool {
        match (*self, *other) {
            (SocketAddress::V4 { ip: a, .. }, SocketAddress::V4 { ip: b, .. }) => a == b,
            (SocketAddress::V6 { ip: a, .. }, SocketAddress::V6 { ip: b, .. }) => a == b,
            _ => false,
        }
    }

    open spec fn spec_same(&self, other: &Self) -> bool {
        *self == *other
    }

    open spec fn spec_is_broadcast(&self) -> bool {
        *self matches SocketAddress::V4 { ip, .. } && ip == IPV4_BROADCAST
    }

    fn same_host(&self, other: &SocketAddress) -> (b: bool) {
        match (self, other) {
            (SocketAddress::V4 { ip: a, .. }, SocketAddress::V4 { ip: b, .. }) => *a == *b,
            (SocketAddress::V6 { ip: a, .. }, SocketAddress::V6 { ip: b, .. }) => *a == *b,
            _ => false,
        }
    }

    fn same(&self, other: &SocketAddress) -> (b: bool) {
        *self == *other
    }

    fn is_broadcast(&self) -> (b: bool) {
        match self {
            SocketAddress::V4 { ip, .. } => *ip == IPV4_BROADCAST,
            SocketAddress::V6 { .. } => false,
        }
    }
}

} // verus!
