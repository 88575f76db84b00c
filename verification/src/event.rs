//! The events a host reports to its user.
use vstd::prelude::*;
use crate::packet::Packet;
use crate::peer::PeerID;

verus! {

/// An ENet event: a peer connected, disconnected, or sent a packet.
#[derive(Debug)]
pub enum Event {
    /// A new peer has connected.
    Connect {
        /// Peer that generated the event.
        peer: PeerID,
        /// Data associated with the event, sent by the peer on connect.
        data: u32,
    },
    /// A peer has disconnected.
    Disconnect {
        /// Peer that generated the event.
        peer: PeerID,
        /// Data associated with the event, sent by the peer on disconnect.
        data: u32,
    },
    /// A peer sent a packet.
    Receive {
        /// Peer that generated the event.
        peer: PeerID,
        /// Channel on the peer that generated the event.
        channel_id: u8,
        /// Packet associated with the event.
        packet: Packet,
    },
}

} // verus!
