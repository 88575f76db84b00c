//! Connection based networking (TCP, WebRTC and the like): the identity of a connection,
//! how connections are made, the addresses under which a host knows them, and the peer
//! settings a connection keeps until its peer exists.
use vstd::prelude::*;
use std::time::Duration;
use crate::consts::{
    PEER_PING_INTERVAL, PEER_TIMEOUT_LIMIT, PEER_TIMEOUT_MAXIMUM, PEER_TIMEOUT_MINIMUM,
    PROTOCOL_MAXIMUM_MTU, PROTOCOL_MINIMUM_MTU,
};
use crate::control::{control_queued, keeps_identity};
use crate::packet::Packet;
use crate::peer::Peer;
use crate::protocol::{
    Command, ProtocolCommand, PROTOCOL_COMMAND_FLAG_ACKNOWLEDGE,
    PROTOCOL_COMMAND_THROTTLE_CONFIGURE,
};
use crate::socket::PacketReceived;

verus! {

/// A unique identifier for a connection based peer.
#[derive(Debug, Clone, Copy, PartialEq, Eq, PartialOrd, Ord, Hash, Structural)]
pub struct ConnectionID(pub usize);

/// A connection based socket, similar to [`Socket`](crate::socket::Socket).
pub trait Connection {
    /// The address type to use.
    type Address: crate::address::Address + Clone;
    /// Errors returned by this connection.
    type Error;

    /// Initialize the connection; returns its address.
    fn init(&mut self) -> Result<Self::Address, Self::Error>;

    /// Try to send data. Returns the number of bytes sent, or an error.
    fn send(&mut self, buffer: &[u8]) -> Result<usize, Self::Error>;

    /// Try to receive data into a buffer of size [`MTU_MAX`](crate::socket::MTU_MAX):
    /// `None` when nothing was received.
    fn receive(&mut self, buffer: &mut [u8; 4096]) -> Result<Option<PacketReceived>, Self::Error>;
}

/// How a connection comes to ENet: one side initiates the handshake, the other awaits
/// it for at most a given time.
pub enum ConnectionKind<C: Connection> {
    /// Initiate a connection. This is usually from the TCP connector or WebRTC offerer.
    Initiator {
        /// The connection object to send to and receive from.
        connection: C,
        /// The number of ENet channels to allow.
        channel_count: usize,
        /// Data sent to the remote peer on connect.
        data: u32,
    },
    /// Receive a connection. This is usually from the TCP listener or WebRTC answerer.
    Receiver {
        /// The connection object to send to and receive from.
        connection: C,
        /// The amount of time to wait for the initiator before giving up.
        timeout: Duration,
    },
}

/// Errors for adding a connection to a host.
pub enum AddConnectionError<C: Connection> {
    /// Failed to add connection because there were no available ENet connection slots.
    NoAvailablePeers,
    /// Failed to initialize the connection.
    FailedToInitializeConnection(C::Error),
}

/// An ENet event of a connection based host, naming its connection.
#[derive(Debug)]
pub enum EventNoRef {
    /// A new peer has connected.
    Connect {
        /// Peer that generated the event.
        peer: ConnectionID,
        /// Data associated with the event, sent by the peer on connect.
        data: u32,
    },
    /// A peer has disconnected.
    Disconnect {
        /// Peer that generated the event.
        peer: ConnectionID,
        /// Data associated with the event, sent by the peer on disconnect.
        data: u32,
    },
    /// A peer sent a packet to us.
    Receive {
        /// Peer that generated the event.
        peer: ConnectionID,
        /// Channel the peer sent the packet on.
        channel_id: u8,
        /// The actual packet data.
        packet: Packet,
    },
}

/// The address under which a host knows a connection: the connection's own address, its
/// id, and the generation of the connection in that slot.
#[derive(Clone)]
pub struct Address<A> {
    pub address: A,
    pub id: ConnectionID,
    pub generation: usize,
}

impl<A> Address<A> {
    /// The address of connection `index` of generation `generation`, at `address`.
    pub fn new(address: A, index: ConnectionID, generation: usize) -> (a: Self)
        ensures
            a.address == address,
            a.id == index,
            a.generation == generation,
    {
        Address { address, id: index, generation }
    }

    /// The id of the connection.
    pub fn connection_id(&self) -> (id: ConnectionID)
        ensures
            id == self.id,
    {
        self.id
    }
}

/// Two connection addresses are the same (host) when they name the same connection of the
/// same generation and their own addresses are the same (host).
impl<A: crate::address::Address> crate::address::Address for Address<A> {
    open spec fn spec_same_host(&self, other: &Self) -> bool {
        self.id == other.id && self.generation == other.generation
            && self.address.spec_same_host(&other.address)
    }

    open spec fn spec_same(&self, other: &Self) -> bool {
        self.id == other.id && self.generation == other.generation && self.address.spec_same(
            &other.address,
        )
    }

    open spec fn spec_is_broadcast(&self) -> bool {
        self.address.spec_is_broadcast()
    }

    fn same_host(&self, other: &Self) -> (b: bool) {
        self.id == other.id && self.generation == other.generation && self.address.same_host(
            &other.address,
        )
    }

    fn same(&self, other: &Self) -> (b: bool) {
        self.id == other.id && self.generation == other.generation && self.address.same(
            &other.address,
        )
    }

    fn is_broadcast(&self) -> (b: bool) {
        self.address.is_broadcast()
    }
}

/// Settings of a peer asked for before the peer exists, applied once it does.
pub struct PeerSettings {
    pub timeout: Option<(u32, u32, u32)>,
    pub ping_interval: Option<u32>,
    pub throttle: Option<(u32, u32, u32)>,
    pub mtu: Option<u16>,
}

impl Default for PeerSettings {
    fn default() -> (s: Self)
        ensures
            s.timeout is None,
            s.ping_interval is None,
            s.throttle is None,
            s.mtu is None,
    {
        PeerSettings { timeout: None, ping_interval: None, throttle: None, mtu: None }
    }
}

/// `v`, or `default` when `v` is 0.
pub open spec fn or_default(v: u32, default: u32) -> u32 {
    if v != 0 {
        v
    } else {
        default
    }
}

/// Peer `p` with the settings `s` taken, but for the throttle command they queue: its time
/// outs, ping interval, MTU (when within the protocol's bounds) and throttle parameters.
pub open spec fn settings_taken(p: Peer, s: PeerSettings) -> Peer {
    let p1 = match s.timeout {
        Some((l, mi, ma)) => Peer {
            timeout_limit: or_default(l, PEER_TIMEOUT_LIMIT),
            timeout_minimum: or_default(mi, PEER_TIMEOUT_MINIMUM),
            timeout_maximum: or_default(ma, PEER_TIMEOUT_MAXIMUM),
            ..p
        },
        None => p,
    };
    let p2 = match s.ping_interval {
        Some(i) => Peer { ping_interval: or_default(i, PEER_PING_INTERVAL), ..p1 },
        None => p1,
    };
    let p3 = match s.mtu {
        Some(m) => if PROTOCOL_MINIMUM_MTU <= m <= PROTOCOL_MAXIMUM_MTU {
            Peer { mtu: m as u32, ..p2 }
        } else {
            p2
        },
        None => p2,
    };
    match s.throttle {
        Some((i, a, d)) => Peer {
            packet_throttle_interval: i,
            packet_throttle_acceleration: a,
            packet_throttle_deceleration: d,
            ..p3
        },
        None => p3,
    }
}

/// The command telling a remote host the throttle parameters `(i, a, d)`.
pub open spec fn throttle_command(i: u32, a: u32, d: u32) -> ProtocolCommand {
    ProtocolCommand {
        command: PROTOCOL_COMMAND_THROTTLE_CONFIGURE | PROTOCOL_COMMAND_FLAG_ACKNOWLEDGE,
        channel_id: 0xff,
        reliable_sequence_number: 0,
        body: Command::ThrottleConfigure {
            packet_throttle_interval: i,
            packet_throttle_acceleration: a,
            packet_throttle_deceleration: d,
        },
    }
}

impl PeerSettings {
    /// Apply the settings to `peer` (see [`settings_taken`]); throttle parameters are also
    /// sent to the remote host, as a command counted in `total_queued`.
    pub fn apply(&self, peer: &mut Peer, total_queued: &mut u32)
        ensures
            keeps_identity(*old(peer), *final(peer)),
            final(peer).state == old(peer).state,
            final(peer).incoming_bandwidth == old(peer).incoming_bandwidth,
            match self.throttle {
                Some((i, a, d)) => *final(total_queued) == old(total_queued).wrapping_add(1)
                    && control_queued(
                    settings_taken(*old(peer), *self),
                    *final(peer),
                    throttle_command(i, a, d),
                    *final(total_queued),
                ),
                None => *final(total_queued) == *old(total_queued) && *final(peer)
                    == settings_taken(*old(peer), *self),
            },
    {
        if let Some((limit, minimum, maximum)) = self.timeout {
            peer.timeout(limit, minimum, maximum);
        }
        if let Some(ping_interval) = self.ping_interval {
            peer.ping_interval(ping_interval);
        }
        if let Some(mtu) = self.mtu {
            let _ = peer.set_mtu(mtu);
        }
        if let Some((interval, acceleration, deceleration)) = self.throttle {
            peer.throttle_configure(total_queued, interval, acceleration, deceleration);
        }
    }
}

} // verus!
