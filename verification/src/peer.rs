//! Peers: the state that a host keeps for each remote host, and the bookkeeping of round
//! trip times, throttling, packet loss, windows and time outs.
use vstd::prelude::*;
use crate::channel::{Channel, IncomingCommand};
use crate::consts::{
    PEER_DEFAULT_PACKET_THROTTLE, PEER_DEFAULT_ROUND_TRIP_TIME, PEER_FREE_RELIABLE_WINDOWS,
    PEER_FREE_UNSEQUENCED_WINDOWS, PEER_PACKET_LOSS_INTERVAL, PEER_PACKET_LOSS_SCALE,
    PEER_PACKET_THROTTLE_ACCELERATION, PEER_PACKET_THROTTLE_DECELERATION,
    PEER_PACKET_THROTTLE_INTERVAL, PEER_PACKET_THROTTLE_SCALE, PEER_PING_INTERVAL,
    PEER_RELIABLE_WINDOWS, PEER_RELIABLE_WINDOW_SIZE, PEER_TIMEOUT_LIMIT, PEER_TIMEOUT_MAXIMUM,
    PEER_TIMEOUT_MINIMUM, PEER_UNSEQUENCED_WINDOW_SIZE, PEER_WINDOW_SIZE_SCALE,
    PROTOCOL_MAXIMUM_MTU, PROTOCOL_MAXIMUM_PEER_ID, PROTOCOL_MAXIMUM_WINDOW_SIZE,
    PROTOCOL_MINIMUM_MTU, PROTOCOL_MINIMUM_WINDOW_SIZE,
};
use crate::protocol::ProtocolCommand;

verus! {

/// The connection state of a peer.
#[derive(Debug, Clone, Copy, PartialEq, Eq, Structural)]
pub enum PeerState {
    Disconnected,
    Connecting,
    AcknowledgingConnect,
    ConnectionPending,
    ConnectionSucceeded,
    Connected,
    DisconnectLater,
    Disconnecting,
    AcknowledgingDisconnect,
    Zombie,
}

/// The peer needs its events dispatched.
pub const PEER_FLAG_NEEDS_DISPATCH: u16 = 1;
/// The peer has more to send than fitted in the last datagram.
pub const PEER_FLAG_CONTINUE_SENDING: u16 = 2;

/// The index of a peer in its host.
#[derive(Debug, Clone, Copy, PartialEq, Eq, PartialOrd, Ord, Hash, Structural)]
pub struct PeerID(pub usize);

/// An acknowledgement waiting to be sent: the command acknowledged and the time of the
/// datagram that carried it.
pub struct Acknowledgement {
    pub sent_time: u32,
    pub command: ProtocolCommand,
}

/// A command waiting to be sent, or sent and waiting to be acknowledged.
pub struct OutgoingCommand {
    pub reliable_sequence_number: u16,
    pub unreliable_sequence_number: u16,
    pub sent_time: u32,
    pub round_trip_timeout: u32,
    pub queue_time: u32,
    pub fragment_offset: u32,
    pub fragment_length: u16,
    pub send_attempts: u16,
    pub command: ProtocolCommand,
    /// Whether the command carries packet data.
    pub has_packet: bool,
    /// The flags of the packet the data belongs to.
    pub packet_flags: u32,
    /// The data that the command carries (its fragment of the packet).
    pub payload: Vec<u8>,
}

/// The state a host keeps for a remote host.
pub struct Peer {
    pub index: PeerID,
    pub outgoing_peer_id: u16,
    pub incoming_peer_id: u16,
    pub connect_id: u32,
    pub outgoing_session_id: u8,
    pub incoming_session_id: u8,
    pub state: PeerState,
    pub channels: Vec<Channel>,
    pub incoming_bandwidth: u32,
    pub outgoing_bandwidth: u32,
    pub incoming_bandwidth_throttle_epoch: u32,
    pub outgoing_bandwidth_throttle_epoch: u32,
    pub incoming_data_total: u32,
    pub outgoing_data_total: u32,
    pub last_send_time: u32,
    pub last_receive_time: u32,
    pub next_timeout: u32,
    pub earliest_timeout: u32,
    pub packet_loss_epoch: u32,
    pub packets_sent: u32,
    pub packets_lost: u32,
    pub packet_loss: u32,
    pub packet_loss_variance: u32,
    pub packet_throttle: u32,
    pub packet_throttle_limit: u32,
    pub packet_throttle_counter: u32,
    pub packet_throttle_epoch: u32,
    pub packet_throttle_acceleration: u32,
    pub packet_throttle_deceleration: u32,
    pub packet_throttle_interval: u32,
    pub ping_interval: u32,
    pub timeout_limit: u32,
    pub timeout_minimum: u32,
    pub timeout_maximum: u32,
    pub last_round_trip_time: u32,
    pub lowest_round_trip_time: u32,
    pub last_round_trip_time_variance: u32,
    pub highest_round_trip_time_variance: u32,
    pub round_trip_time: u32,
    pub round_trip_time_variance: u32,
    pub mtu: u32,
    pub window_size: u32,
    pub reliable_data_in_transit: u32,
    pub outgoing_reliable_sequence_number: u16,
    pub acknowledgements: Vec<Acknowledgement>,
    pub sent_reliable_commands: Vec<OutgoingCommand>,
    pub outgoing_send_reliable_commands: Vec<OutgoingCommand>,
    pub outgoing_commands: Vec<OutgoingCommand>,
    pub dispatched_commands: Vec<IncomingCommand>,
    pub flags: u16,
    pub incoming_unsequenced_group: u16,
    pub outgoing_unsequenced_group: u16,
    pub unsequenced_window: [u32; 32],
    pub event_data: u32,
    pub total_waiting_data: usize,
}

/// `a - b` on the wrapping millisecond clock, read the right way round: ENet's
/// `ENET_TIME_DIFFERENCE`.
pub open spec fn time_difference(a: u32, b: u32) -> u32 {
    if a.wrapping_sub(b) >= 86400000 {
        b.wrapping_sub(a)
    } else {
        a.wrapping_sub(b)
    }
}

/// Whether time `a` comes before time `b` on the wrapping clock: ENet's `ENET_TIME_LESS`.
pub open spec fn time_less(a: u32, b: u32) -> bool {
    a.wrapping_sub(b) >= 86400000
}

pub(crate) fn time_diff(a: u32, b: u32) -> (d: u32)
    ensures
        d == time_difference(a, b),
{
    if a.wrapping_sub(b) >= 86400000 {
        b.wrapping_sub(a)
    } else {
        a.wrapping_sub(b)
    }
}

/// Whether a peer is connected for the sake of the host's counters: connected, or
/// connected and about to disconnect.
pub open spec fn counts_as_connected(state: PeerState) -> bool {
    state == PeerState::Connected || state == PeerState::DisconnectLater
}

/// The window size that a host with outgoing bandwidth `host_outgoing` gives a peer with
/// incoming bandwidth `peer_incoming`: the maximum when neither is limited, else in
/// proportion to the tighter (or the only) limit, within the protocol's bounds.
pub open spec fn negotiated_window_size(host_outgoing: u32, peer_incoming: u32) -> u32 {
    let w: int = if host_outgoing == 0 && peer_incoming == 0 {
        PROTOCOL_MAXIMUM_WINDOW_SIZE as int
    } else if host_outgoing == 0 || peer_incoming == 0 {
        (if host_outgoing > peer_incoming {
            host_outgoing
        } else {
            peer_incoming
        }) / PEER_WINDOW_SIZE_SCALE * PROTOCOL_MINIMUM_WINDOW_SIZE
    } else {
        (if host_outgoing < peer_incoming {
            host_outgoing
        } else {
            peer_incoming
        }) / PEER_WINDOW_SIZE_SCALE * PROTOCOL_MINIMUM_WINDOW_SIZE
    };
    clamp_window(w) as u32
}

/// `w` brought within the protocol's window bounds.
pub open spec fn clamp_window(w: int) -> int {
    if w < PROTOCOL_MINIMUM_WINDOW_SIZE {
        PROTOCOL_MINIMUM_WINDOW_SIZE as int
    } else if w > PROTOCOL_MAXIMUM_WINDOW_SIZE {
        PROTOCOL_MAXIMUM_WINDOW_SIZE as int
    } else {
        w
    }
}

/// `mtu` brought within the protocol's MTU bounds.
pub open spec fn clamp_mtu(mtu: u32) -> u32 {
    if mtu < PROTOCOL_MINIMUM_MTU {
        PROTOCOL_MINIMUM_MTU as u32
    } else if mtu > PROTOCOL_MAXIMUM_MTU {
        PROTOCOL_MAXIMUM_MTU as u32
    } else {
        mtu
    }
}

/// The window size to give a peer, from the host's outgoing bandwidth and the peer's
/// incoming bandwidth.
pub fn window_size_for(host_outgoing: u32, peer_incoming: u32) -> (w: u32)
    ensures
        w == negotiated_window_size(host_outgoing, peer_incoming),
        PROTOCOL_MINIMUM_WINDOW_SIZE <= w <= PROTOCOL_MAXIMUM_WINDOW_SIZE,
{
    let w: u32 = if host_outgoing == 0 && peer_incoming == 0 {
        PROTOCOL_MAXIMUM_WINDOW_SIZE
    } else if host_outgoing == 0 || peer_incoming == 0 {
        let b = if host_outgoing > peer_incoming {
            host_outgoing
        } else {
            peer_incoming
        };
        b / PEER_WINDOW_SIZE_SCALE * PROTOCOL_MINIMUM_WINDOW_SIZE
    } else {
        let b = if host_outgoing < peer_incoming {
            host_outgoing
        } else {
            peer_incoming
        };
        b / PEER_WINDOW_SIZE_SCALE * PROTOCOL_MINIMUM_WINDOW_SIZE
    };
    if w < PROTOCOL_MINIMUM_WINDOW_SIZE {
        PROTOCOL_MINIMUM_WINDOW_SIZE
    } else if w > PROTOCOL_MAXIMUM_WINDOW_SIZE {
        PROTOCOL_MAXIMUM_WINDOW_SIZE
    } else {
        w
    }
}

/// The MTU brought within the protocol's bounds.
pub fn clamp_mtu_value(mtu: u32) -> (m: u32)
    ensures
        m == clamp_mtu(mtu),
{
    if mtu < PROTOCOL_MINIMUM_MTU as u32 {
        PROTOCOL_MINIMUM_MTU as u32
    } else if mtu > PROTOCOL_MAXIMUM_MTU as u32 {
        PROTOCOL_MAXIMUM_MTU as u32
    } else {
        mtu
    }
}

/// The next session id after `id`, avoiding `other`: session ids count modulo 4, and the
/// value 0xff asks for the one after `fallback`.
pub open spec fn next_session_id(id: u8, fallback: u8, other: u8) -> u8 {
    let base = if id == 0xff {
        fallback
    } else {
        id
    };
    let s = ((base + 1) % 4) as u8;
    if s == other {
        ((s + 1) % 4) as u8
    } else {
        s
    }
}

/// The session id a host picks for a connecting peer (see [`next_session_id`]).
pub fn enet_session_id(id: u8, fallback: u8, other: u8) -> (s: u8)
    ensures
        s == next_session_id(id, fallback, other),
        s < 4,
{
    let base = if id == 0xff {
        fallback
    } else {
        id
    };
    let s = ((base as u32 + 1) % 4) as u8;
    if s == other {
        ((s as u32 + 1) % 4) as u8
    } else {
        s
    }
}

impl Peer {
    /// A disconnected peer at index `index`, known to remote hosts by `incoming_peer_id`.
    pub fn new(index: PeerID, incoming_peer_id: u16, host_mtu: u32) -> (p: Peer)
        ensures
            p.index == index,
            p.incoming_peer_id == incoming_peer_id,
            p.state == PeerState::Disconnected,
            p.is_reset(host_mtu),
            p.outgoing_session_id == 0xff,
            p.incoming_session_id == 0xff,
    {
        Peer {
            index,
            outgoing_peer_id: PROTOCOL_MAXIMUM_PEER_ID as u16,
            incoming_peer_id,
            connect_id: 0,
            outgoing_session_id: 0xff,
            incoming_session_id: 0xff,
            state: PeerState::Disconnected,
            channels: Vec::new(),
            incoming_bandwidth: 0,
            outgoing_bandwidth: 0,
            incoming_bandwidth_throttle_epoch: 0,
            outgoing_bandwidth_throttle_epoch: 0,
            incoming_data_total: 0,
            outgoing_data_total: 0,
            last_send_time: 0,
            last_receive_time: 0,
            next_timeout: 0,
            earliest_timeout: 0,
            packet_loss_epoch: 0,
            packets_sent: 0,
            packets_lost: 0,
            packet_loss: 0,
            packet_loss_variance: 0,
            packet_throttle: PEER_DEFAULT_PACKET_THROTTLE,
            packet_throttle_limit: PEER_PACKET_THROTTLE_SCALE,
            packet_throttle_counter: 0,
            packet_throttle_epoch: 0,
            packet_throttle_acceleration: PEER_PACKET_THROTTLE_ACCELERATION,
            packet_throttle_deceleration: PEER_PACKET_THROTTLE_DECELERATION,
            packet_throttle_interval: PEER_PACKET_THROTTLE_INTERVAL,
            ping_interval: PEER_PING_INTERVAL,
            timeout_limit: PEER_TIMEOUT_LIMIT,
            timeout_minimum: PEER_TIMEOUT_MINIMUM,
            timeout_maximum: PEER_TIMEOUT_MAXIMUM,
            last_round_trip_time: PEER_DEFAULT_ROUND_TRIP_TIME,
            lowest_round_trip_time: PEER_DEFAULT_ROUND_TRIP_TIME,
            last_round_trip_time_variance: 0,
            highest_round_trip_time_variance: 0,
            round_trip_time: PEER_DEFAULT_ROUND_TRIP_TIME,
            round_trip_time_variance: 0,
            mtu: host_mtu,
            window_size: PROTOCOL_MAXIMUM_WINDOW_SIZE,
            reliable_data_in_transit: 0,
            outgoing_reliable_sequence_number: 0,
            acknowledgements: Vec::new(),
            sent_reliable_commands: Vec::new(),
            outgoing_send_reliable_commands: Vec::new(),
            outgoing_commands: Vec::new(),
            dispatched_commands: Vec::new(),
            flags: 0,
            incoming_unsequenced_group: 0,
            outgoing_unsequenced_group: 0,
            unsequenced_window: [0u32; 32],
            event_data: 0,
            total_waiting_data: 0,
        }
    }

    /// Whether the peer holds the values a reset gives it: disconnected, with default
    /// throttling, time outs and round trip times, the host's MTU, the largest window, and
    /// no queued commands.
    pub open spec fn is_reset(&self, host_mtu: u32) -> bool {
        &&& self.outgoing_peer_id == PROTOCOL_MAXIMUM_PEER_ID
        &&& self.connect_id == 0
        &&& self.state == PeerState::Disconnected
        &&& self.incoming_bandwidth == 0
        &&& self.outgoing_bandwidth == 0
        &&& self.incoming_bandwidth_throttle_epoch == 0
        &&& self.outgoing_bandwidth_throttle_epoch == 0
        &&& self.incoming_data_total == 0
        &&& self.outgoing_data_total == 0
        &&& self.last_send_time == 0
        &&& self.last_receive_time == 0
        &&& self.next_timeout == 0
        &&& self.earliest_timeout == 0
        &&& self.packet_loss_epoch == 0
        &&& self.packets_sent == 0
        &&& self.packets_lost == 0
        &&& self.packet_loss == 0
        &&& self.packet_loss_variance == 0
        &&& self.packet_throttle == PEER_DEFAULT_PACKET_THROTTLE
        &&& self.packet_throttle_limit == PEER_PACKET_THROTTLE_SCALE
        &&& self.packet_throttle_counter == 0
        &&& self.packet_throttle_epoch == 0
        &&& self.packet_throttle_acceleration == PEER_PACKET_THROTTLE_ACCELERATION
        &&& self.packet_throttle_deceleration == PEER_PACKET_THROTTLE_DECELERATION
        &&& self.packet_throttle_interval == PEER_PACKET_THROTTLE_INTERVAL
        &&& self.ping_interval == PEER_PING_INTERVAL
        &&& self.timeout_limit == PEER_TIMEOUT_LIMIT
        &&& self.timeout_minimum == PEER_TIMEOUT_MINIMUM
        &&& self.timeout_maximum == PEER_TIMEOUT_MAXIMUM
        &&& self.last_round_trip_time == PEER_DEFAULT_ROUND_TRIP_TIME
        &&& self.lowest_round_trip_time == PEER_DEFAULT_ROUND_TRIP_TIME
        &&& self.last_round_trip_time_variance == 0
        &&& self.highest_round_trip_time_variance == 0
        &&& self.round_trip_time == PEER_DEFAULT_ROUND_TRIP_TIME
        &&& self.round_trip_time_variance == 0
        &&& self.mtu == host_mtu
        &&& self.reliable_data_in_transit == 0
        &&& self.outgoing_reliable_sequence_number == 0
        &&& self.window_size == PROTOCOL_MAXIMUM_WINDOW_SIZE
        &&& self.incoming_unsequenced_group == 0
        &&& self.outgoing_unsequenced_group == 0
        &&& self.event_data == 0
        &&& self.total_waiting_data == 0
        &&& self.flags == 0
        &&& forall|i: int| 0 <= i < 32 ==> self.unsequenced_window[i] == 0
        &&& self.channels@.len() == 0
        &&& self.acknowledgements@.len() == 0
        &&& self.sent_reliable_commands@.len() == 0
        &&& self.outgoing_send_reliable_commands@.len() == 0
        &&& self.outgoing_commands@.len() == 0
        &&& self.dispatched_commands@.len() == 0
    }

    /// Whether the peer has commands waiting to be sent or acknowledged.
    pub open spec fn spec_has_outgoing_commands(&self) -> bool {
        self.outgoing_commands@.len() > 0 || self.outgoing_send_reliable_commands@.len() > 0
            || self.sent_reliable_commands@.len() > 0
    }

    /// Whether the peer has commands waiting to be sent or acknowledged.
    pub fn has_outgoing_commands(&self) -> (b: bool)
        ensures
            b == self.spec_has_outgoing_commands(),
    {
        !(self.outgoing_commands.len() == 0 && self.outgoing_send_reliable_commands.len() == 0
            && self.sent_reliable_commands.len() == 0)
    }

    /// Forget everything queued for and from the peer, and its channels.
    pub fn reset_queues(&mut self)
        ensures
            final(self).acknowledgements@.len() == 0,
            final(self).sent_reliable_commands@.len() == 0,
            final(self).outgoing_commands@.len() == 0,
            final(self).outgoing_send_reliable_commands@.len() == 0,
            final(self).dispatched_commands@.len() == 0,
            final(self).channels@.len() == 0,
            final(self).flags == old(self).flags & !PEER_FLAG_NEEDS_DISPATCH,
            *final(self) == (Peer {
                flags: final(self).flags,
                acknowledgements: final(self).acknowledgements,
                sent_reliable_commands: final(self).sent_reliable_commands,
                outgoing_commands: final(self).outgoing_commands,
                outgoing_send_reliable_commands: final(self).outgoing_send_reliable_commands,
                dispatched_commands: final(self).dispatched_commands,
                channels: final(self).channels,
                ..*old(self)
            }),
    {
        self.flags = self.flags & !PEER_FLAG_NEEDS_DISPATCH;
        self.acknowledgements = Vec::new();
        self.sent_reliable_commands = Vec::new();
        self.outgoing_commands = Vec::new();
        self.outgoing_send_reliable_commands = Vec::new();
        self.dispatched_commands = Vec::new();
        self.channels = Vec::new();
    }

    /// Return the peer to its initial disconnected state, keeping its identity and session
    /// ids. The host's connection counters are updated through `connected_peers` and
    /// `bandwidth_limited_peers`, as for a disconnection.
    pub fn reset(&mut self, host_mtu: u32, connected_peers: &mut usize, bandwidth_limited_peers: &mut usize)
        requires
            counts_as_connected(old(self).state) ==> *old(connected_peers) > 0,
            counts_as_connected(old(self).state) && old(self).incoming_bandwidth != 0
                ==> *old(bandwidth_limited_peers) > 0,
        ensures
            final(self).is_reset(host_mtu),
            final(self).index == old(self).index,
            final(self).incoming_peer_id == old(self).incoming_peer_id,
            final(self).outgoing_session_id == old(self).outgoing_session_id,
            final(self).incoming_session_id == old(self).incoming_session_id,
            *final(connected_peers) == *old(connected_peers) - if counts_as_connected(
                old(self).state,
            ) {
                1int
            } else {
                0int
            },
            *final(bandwidth_limited_peers) == *old(bandwidth_limited_peers) - if counts_as_connected(
                old(self).state,
            ) && old(self).incoming_bandwidth != 0 {
                1int
            } else {
                0int
            },
    {
        self.on_disconnect(connected_peers, bandwidth_limited_peers);
        let fresh = Peer::new(self.index, self.incoming_peer_id, host_mtu);
        let outgoing_session_id = self.outgoing_session_id;
        let incoming_session_id = self.incoming_session_id;
        *self = fresh;
        self.outgoing_session_id = outgoing_session_id;
        self.incoming_session_id = incoming_session_id;
    }

    /// Count the peer in the host's counters when it becomes connected.
    pub fn on_connect(&self, connected_peers: &mut usize, bandwidth_limited_peers: &mut usize)
        requires
            *old(connected_peers) < usize::MAX,
            *old(bandwidth_limited_peers) < usize::MAX,
        ensures
            *final(connected_peers) == *old(connected_peers) + if !counts_as_connected(self.state) {
                1int
            } else {
                0int
            },
            *final(bandwidth_limited_peers) == *old(bandwidth_limited_peers) + if !counts_as_connected(
                self.state,
            ) && self.incoming_bandwidth != 0 {
                1int
            } else {
                0int
            },
    {
        if self.state != PeerState::Connected && self.state != PeerState::DisconnectLater {
            if self.incoming_bandwidth != 0 {
                *bandwidth_limited_peers = *bandwidth_limited_peers + 1;
            }
            *connected_peers = *connected_peers + 1;
        }
    }

    /// Uncount the peer from the host's counters when it stops being connected.
    pub fn on_disconnect(&self, connected_peers: &mut usize, bandwidth_limited_peers: &mut usize)
        requires
            counts_as_connected(self.state) ==> *old(connected_peers) > 0,
            counts_as_connected(self.state) && self.incoming_bandwidth != 0
                ==> *old(bandwidth_limited_peers) > 0,
        ensures
            *final(connected_peers) == *old(connected_peers) - if counts_as_connected(self.state) {
                1int
            } else {
                0int
            },
            *final(bandwidth_limited_peers) == *old(bandwidth_limited_peers) - if counts_as_connected(
                self.state,
            ) && self.incoming_bandwidth != 0 {
                1int
            } else {
                0int
            },
    {
        if self.state == PeerState::Connected || self.state == PeerState::DisconnectLater {
            if self.incoming_bandwidth != 0 {
                *bandwidth_limited_peers = *bandwidth_limited_peers - 1;
            }
            *connected_peers = *connected_peers - 1;
        }
    }
}


/// The packet throttle after a round trip of `rtt`, and the direction it moved (1 up,
/// -1 down, 0 unchanged or reset to the limit): the throttle goes up by the acceleration
/// (to at most the limit) when the round trip is no worse than the last measured one, down
/// by the deceleration (to at least 0) when it exceeds the last one by more than twice
/// its variance, and to the limit when the last round trip was within its own variance.
pub open spec fn throttle_after(
    throttle: u32,
    limit: u32,
    acceleration: u32,
    deceleration: u32,
    last_rtt: u32,
    last_variance: u32,
    rtt: u32,
) -> (u32, i32) {
    if last_rtt <= last_variance {
        (limit, 0i32)
    } else if rtt <= last_rtt {
        let t = throttle.wrapping_add(acceleration);
        (if t > limit {
            limit
        } else {
            t
        }, 1i32)
    } else if rtt > last_rtt.wrapping_add(2u32.wrapping_mul(last_variance)) {
        (if throttle > deceleration {
            (throttle - deceleration) as u32
        } else {
            0
        }, -1i32)
    } else {
        (throttle, 0i32)
    }
}

/// What an acknowledgement tells of the round trip: the time at which the acknowledged
/// datagram was sent, rebuilt from its low 16 bits and the current time, and the round trip
/// time it gives (at least 1); `None` when that send time lies after the current time.
pub open spec fn round_trip_sample(service_time: u32, received_sent_time: u16) -> Option<u32> {
    let r0 = (received_sent_time as u32) | (service_time & 0xffff0000u32);
    let r = if r0 & 0x8000u32 > service_time & 0x8000u32 {
        r0.wrapping_sub(0x10000u32)
    } else {
        r0
    };
    if time_less(service_time, r) {
        None
    } else {
        let d = time_difference(service_time, r);
        Some(if d > 1 {
            d
        } else {
            1
        })
    }
}

/// The mean round trip time and its variance after a sample `rtt`: the mean moves an
/// eighth of the way to the sample and the variance a quarter of the way to the deviation.
/// The first sample sets the mean to it and the variance to half of it.
pub open spec fn round_trip_after(mean: u32, variance: u32, rtt: u32, first: bool) -> (u32, u32) {
    if first {
        (rtt, rtt.wrapping_add(1) / 2)
    } else {
        let v = variance.wrapping_sub(variance / 4);
        if rtt >= mean {
            let diff = (rtt - mean) as u32;
            (mean.wrapping_add(diff / 8), v.wrapping_add(diff / 4))
        } else {
            let diff = (mean - rtt) as u32;
            (mean.wrapping_sub(diff / 8), v.wrapping_add(diff / 4))
        }
    }
}

/// The packet loss and its variance after an interval where `lost` of `sent` reliable
/// commands were lost: the loss moves an eighth of the way to the loss of the interval
/// (scaled to 2^16), and the variance a quarter of the way to the deviation.
pub open spec fn packet_loss_after(loss: u32, variance: u32, lost: u32, sent: u32) -> (u32, u32) {
    let l = lost.wrapping_mul(PEER_PACKET_LOSS_SCALE) / sent;
    let dev = if l < loss {
        (loss - l) as u32
    } else {
        (l - loss) as u32
    };
    (loss.wrapping_mul(7).wrapping_add(l) / 8, variance.wrapping_mul(3).wrapping_add(dev) / 4)
}

/// Whether `p1` is peer `p0` once it has taken the timing of an acknowledgement of a
/// datagram sent at (the low 16 bits of) `received_sent_time`, received at `service_time`
/// (see [`Peer::take_acknowledgement_timing`]).
pub open spec fn acknowledgement_timed(p0: Peer, p1: Peer, service_time: u32, received_sent_time: u16) -> bool {
    let rtt = round_trip_sample(service_time, received_sent_time)->0;
    let first = p0.last_receive_time == 0;
    let th = throttle_after(
        p0.packet_throttle,
        p0.packet_throttle_limit,
        p0.packet_throttle_acceleration,
        p0.packet_throttle_deceleration,
        p0.last_round_trip_time,
        p0.last_round_trip_time_variance,
        rtt,
    );
    let mv = round_trip_after(
        p0.round_trip_time,
        p0.round_trip_time_variance,
        rtt,
        first,
    );
    let lowest = if mv.0 < p0.lowest_round_trip_time {
        mv.0
    } else {
        p0.lowest_round_trip_time
    };
    let highest = if mv.1 > p0.highest_round_trip_time_variance {
        mv.1
    } else {
        p0.highest_round_trip_time_variance
    };
    let new_interval = p0.packet_throttle_epoch == 0 || time_difference(
        service_time,
        p0.packet_throttle_epoch,
    ) >= p0.packet_throttle_interval;
    &&& p1.packet_throttle == if first {
        p0.packet_throttle
    } else {
        th.0
    }
    &&& p1.round_trip_time == mv.0
    &&& p1.round_trip_time_variance == mv.1
    &&& p1.last_round_trip_time == if new_interval {
        lowest
    } else {
        p0.last_round_trip_time
    }
    &&& p1.last_round_trip_time_variance == if new_interval {
        if highest > 1 {
            highest
        } else {
            1
        }
    } else {
        p0.last_round_trip_time_variance
    }
    &&& p1.lowest_round_trip_time == if new_interval {
        mv.0
    } else {
        lowest
    }
    &&& p1.highest_round_trip_time_variance == if new_interval {
        mv.1
    } else {
        highest
    }
    &&& p1.packet_throttle_epoch == if new_interval {
        service_time
    } else {
        p0.packet_throttle_epoch
    }
    &&& p1.last_receive_time == if service_time > 1 {
        service_time
    } else {
        1
    }
    &&& p1.earliest_timeout == 0
    &&& p1 == (Peer {
        packet_throttle: p1.packet_throttle,
        round_trip_time: p1.round_trip_time,
        round_trip_time_variance: p1.round_trip_time_variance,
        last_round_trip_time: p1.last_round_trip_time,
        last_round_trip_time_variance: p1.last_round_trip_time_variance,
        lowest_round_trip_time: p1.lowest_round_trip_time,
        highest_round_trip_time_variance: p1.highest_round_trip_time_variance,
        packet_throttle_epoch: p1.packet_throttle_epoch,
        last_receive_time: p1.last_receive_time,
        earliest_timeout: p1.earliest_timeout,
        ..p0
    })
}

impl Peer {
    /// Adjust the packet throttle after a round trip of `rtt` (see [`throttle_after`]).
    pub fn throttle(&mut self, rtt: u32) -> (r: i32)
        ensures
            (final(self).packet_throttle, r) == throttle_after(
                old(self).packet_throttle,
                old(self).packet_throttle_limit,
                old(self).packet_throttle_acceleration,
                old(self).packet_throttle_deceleration,
                old(self).last_round_trip_time,
                old(self).last_round_trip_time_variance,
                rtt,
            ),
            *final(self) == (Peer { packet_throttle: final(self).packet_throttle, ..*old(self) }),
    {
        if self.last_round_trip_time <= self.last_round_trip_time_variance {
            self.packet_throttle = self.packet_throttle_limit;
            0
        } else if rtt <= self.last_round_trip_time {
            self.packet_throttle = self.packet_throttle.wrapping_add(
                self.packet_throttle_acceleration,
            );
            if self.packet_throttle > self.packet_throttle_limit {
                self.packet_throttle = self.packet_throttle_limit;
            }
            1
        } else if rtt > self.last_round_trip_time.wrapping_add(
            2u32.wrapping_mul(self.last_round_trip_time_variance),
        ) {
            if self.packet_throttle > self.packet_throttle_deceleration {
                self.packet_throttle = self.packet_throttle - self.packet_throttle_deceleration;
            } else {
                self.packet_throttle = 0;
            }
            -1
        } else {
            0
        }
    }

    /// Set the interval at which the peer is pinged; 0 sets the default.
    pub fn ping_interval(&mut self, ping_interval: u32)
        ensures
            final(self).ping_interval == if ping_interval != 0 {
                ping_interval
            } else {
                PEER_PING_INTERVAL
            },
            *final(self) == (Peer { ping_interval: final(self).ping_interval, ..*old(self) }),
    {
        self.ping_interval = if ping_interval != 0 {
            ping_interval
        } else {
            PEER_PING_INTERVAL
        };
    }

    /// Set the time out parameters of the peer; a 0 sets the default of that parameter.
    pub fn timeout(&mut self, timeout_limit: u32, timeout_minimum: u32, timeout_maximum: u32)
        ensures
            final(self).timeout_limit == if timeout_limit != 0 {
                timeout_limit
            } else {
                PEER_TIMEOUT_LIMIT
            },
            final(self).timeout_minimum == if timeout_minimum != 0 {
                timeout_minimum
            } else {
                PEER_TIMEOUT_MINIMUM
            },
            final(self).timeout_maximum == if timeout_maximum != 0 {
                timeout_maximum
            } else {
                PEER_TIMEOUT_MAXIMUM
            },
            *final(self) == (Peer {
                timeout_limit: final(self).timeout_limit,
                timeout_minimum: final(self).timeout_minimum,
                timeout_maximum: final(self).timeout_maximum,
                ..*old(self)
            }),
    {
        self.timeout_limit = if timeout_limit != 0 {
            timeout_limit
        } else {
            PEER_TIMEOUT_LIMIT
        };
        self.timeout_minimum = if timeout_minimum != 0 {
            timeout_minimum
        } else {
            PEER_TIMEOUT_MINIMUM
        };
        self.timeout_maximum = if timeout_maximum != 0 {
            timeout_maximum
        } else {
            PEER_TIMEOUT_MAXIMUM
        };
    }

    /// Take the timing of an acknowledgement of a datagram sent at (the low 16 bits of)
    /// `received_sent_time`, received at `service_time`. Returns false, changing nothing,
    /// when that time lies after `service_time`. Otherwise the throttle and the round trip
    /// statistics take the sample in (see [`round_trip_sample`], [`throttle_after`],
    /// [`round_trip_after`]), the extremes of the current throttle interval follow, a new
    /// interval starts when the throttle interval has passed, and the peer counts as heard
    /// from at `service_time`.
    pub fn take_acknowledgement_timing(&mut self, service_time: u32, received_sent_time: u16) -> (ok:
        bool)
        ensures
            ok == round_trip_sample(service_time, received_sent_time) is Some,
            !ok ==> *final(self) == *old(self),
            ok ==> acknowledgement_timed(*old(self), *final(self), service_time, received_sent_time),
    {
        let r0: u32 = (received_sent_time as u32) | (service_time & 0xffff0000u32);
        let received = if r0 & 0x8000u32 > service_time & 0x8000u32 {
            r0.wrapping_sub(0x10000u32)
        } else {
            r0
        };
        if service_time.wrapping_sub(received) >= 86400000 {
            return false;
        }
        let d = time_diff(service_time, received);
        let rtt = if d > 1 {
            d
        } else {
            1
        };
        if self.last_receive_time > 0 {
            self.throttle(rtt);
            self.round_trip_time_variance = self.round_trip_time_variance.wrapping_sub(
                self.round_trip_time_variance / 4,
            );
            if rtt >= self.round_trip_time {
                let diff = rtt - self.round_trip_time;
                self.round_trip_time_variance = self.round_trip_time_variance.wrapping_add(diff / 4);
                self.round_trip_time = self.round_trip_time.wrapping_add(diff / 8);
            } else {
                let diff = self.round_trip_time - rtt;
                self.round_trip_time_variance = self.round_trip_time_variance.wrapping_add(diff / 4);
                self.round_trip_time = self.round_trip_time.wrapping_sub(diff / 8);
            }
        } else {
            self.round_trip_time = rtt;
            self.round_trip_time_variance = rtt.wrapping_add(1) / 2;
        }
        if self.round_trip_time < self.lowest_round_trip_time {
            self.lowest_round_trip_time = self.round_trip_time;
        }
        if self.round_trip_time_variance > self.highest_round_trip_time_variance {
            self.highest_round_trip_time_variance = self.round_trip_time_variance;
        }
        if self.packet_throttle_epoch == 0 || time_diff(service_time, self.packet_throttle_epoch)
            >= self.packet_throttle_interval {
            self.last_round_trip_time = self.lowest_round_trip_time;
            self.last_round_trip_time_variance = if self.highest_round_trip_time_variance > 1 {
                self.highest_round_trip_time_variance
            } else {
                1
            };
            self.lowest_round_trip_time = self.round_trip_time;
            self.highest_round_trip_time_variance = self.round_trip_time_variance;
            self.packet_throttle_epoch = service_time;
        }
        self.last_receive_time = if service_time > 1 {
            service_time
        } else {
            1
        };
        self.earliest_timeout = 0;
        true
    }

    /// Update the packet loss statistics when a datagram goes out at `service_time`: the
    /// first datagram starts the measuring interval; once the interval has passed and some
    /// reliable commands were sent, the loss and its variance take in the interval (see
    /// [`packet_loss_after`]) and a new interval starts.
    pub fn update_packet_loss(&mut self, service_time: u32)
        ensures
            old(self).packet_loss_epoch == 0 ==> *final(self) == (Peer {
                packet_loss_epoch: service_time,
                ..*old(self)
            }),
            old(self).packet_loss_epoch != 0 && time_difference(
                service_time,
                old(self).packet_loss_epoch,
            ) >= PEER_PACKET_LOSS_INTERVAL && old(self).packets_sent > 0 ==> {
                let pl = packet_loss_after(
                    old(self).packet_loss,
                    old(self).packet_loss_variance,
                    old(self).packets_lost,
                    old(self).packets_sent,
                );
                *final(self) == (Peer {
                    packet_loss: pl.0,
                    packet_loss_variance: pl.1,
                    packet_loss_epoch: service_time,
                    packets_sent: 0,
                    packets_lost: 0,
                    ..*old(self)
                })
            },
            old(self).packet_loss_epoch != 0 && !(time_difference(
                service_time,
                old(self).packet_loss_epoch,
            ) >= PEER_PACKET_LOSS_INTERVAL && old(self).packets_sent > 0) ==> *final(self)
                == *old(self),
    {
        if self.packet_loss_epoch == 0 {
            self.packet_loss_epoch = service_time;
        } else if time_diff(service_time, self.packet_loss_epoch) >= PEER_PACKET_LOSS_INTERVAL
            && self.packets_sent > 0 {
            let packet_loss = self.packets_lost.wrapping_mul(PEER_PACKET_LOSS_SCALE)
                / self.packets_sent;
            let dev = if packet_loss < self.packet_loss {
                self.packet_loss - packet_loss
            } else {
                packet_loss - self.packet_loss
            };
            self.packet_loss_variance = self.packet_loss_variance.wrapping_mul(3).wrapping_add(dev)
                / 4;
            self.packet_loss = self.packet_loss.wrapping_mul(7).wrapping_add(packet_loss) / 8;
            self.packet_loss_epoch = service_time;
            self.packets_sent = 0;
            self.packets_lost = 0;
        }
    }
}

/// A round trip sample moves the mean round trip time toward itself and never past it:
/// the first sample becomes the mean, and any later one moves the mean an eighth of the
/// way (rounded down) from the old mean to the sample, so it lies between the two.
pub proof fn law_round_trip_moves_toward_sample(p0: Peer, p1: Peer, service_time: u32, received_sent_time: u16)
    requires
        acknowledgement_timed(p0, p1, service_time, received_sent_time),
        round_trip_sample(service_time, received_sent_time) is Some,
    ensures
        ({
            let rtt = round_trip_sample(service_time, received_sent_time)->0;
            &&& p0.last_receive_time == 0 ==> p1.round_trip_time == rtt
            &&& p0.last_receive_time != 0 ==> {
                &&& p0.round_trip_time <= rtt ==> p0.round_trip_time <= p1.round_trip_time <= rtt
                &&& rtt <= p0.round_trip_time ==> rtt <= p1.round_trip_time <= p0.round_trip_time
                &&& p0.round_trip_time <= rtt ==> p1.round_trip_time - p0.round_trip_time == (rtt
                    - p0.round_trip_time) / 8
                &&& rtt <= p0.round_trip_time ==> p0.round_trip_time - p1.round_trip_time == (
                p0.round_trip_time - rtt) / 8
            }
        }),
{
}

/// The round trip variance takes in how far a sample lies from the mean: after a later
/// sample it keeps three quarters of itself and gains a quarter of the sample's distance
/// from the old mean, so it lies between three quarters of the old variance and the old
/// variance plus a quarter of that distance; the first sample sets it to half the sample,
/// rounded up. Left out: a variance whose new value does not fit in 32 bits.
pub proof fn law_round_trip_variance_takes_in_distance(
    p0: Peer,
    p1: Peer,
    service_time: u32,
    received_sent_time: u16,
)
    requires
        acknowledgement_timed(p0, p1, service_time, received_sent_time),
        round_trip_sample(service_time, received_sent_time) is Some,
        p0.round_trip_time_variance + 0x4000_0000 <= u32::MAX,
    ensures
        ({
            let rtt = round_trip_sample(service_time, received_sent_time)->0;
            let dist = if rtt >= p0.round_trip_time {
                rtt - p0.round_trip_time
            } else {
                p0.round_trip_time - rtt
            };
            let v0 = p0.round_trip_time_variance;
            let v1 = p1.round_trip_time_variance;
            &&& p0.last_receive_time == 0 ==> 2 * v1 == rtt + 1 || 2 * v1 == rtt
            &&& p0.last_receive_time != 0 ==> v0 - v0 / 4 <= v1 <= v0 + dist / 4 && dist / 4 <= v1
        }),
{
}

/// Throttling by round trip time: while the last round trip lies within its variance the
/// packet throttle goes to its limit; otherwise a round trip no longer than the last one
/// opens the throttle by its acceleration, up to its limit (never below where it was,
/// unless above the limit), and answers 1; one longer than the last by more than twice the
/// variance closes it by its deceleration, down to 0, and answers -1; and one in between
/// leaves it and answers 0. Left out: a throttle
/// and acceleration, or a last round trip and twice its variance, whose sum does not fit in
/// 32 bits (the sums wrap).
pub proof fn law_throttle_follows_round_trip(p0: Peer, p1: Peer, rtt: u32, r: i32)
    requires
        (p1.packet_throttle, r) == throttle_after(
            p0.packet_throttle,
            p0.packet_throttle_limit,
            p0.packet_throttle_acceleration,
            p0.packet_throttle_deceleration,
            p0.last_round_trip_time,
            p0.last_round_trip_time_variance,
            rtt,
        ),
        p0.packet_throttle + p0.packet_throttle_acceleration <= u32::MAX,
        p0.last_round_trip_time + 2 * p0.last_round_trip_time_variance <= u32::MAX,
    ensures
        p0.last_round_trip_time <= p0.last_round_trip_time_variance ==> p1.packet_throttle
            == p0.packet_throttle_limit && r == 0,
        p0.last_round_trip_time > p0.last_round_trip_time_variance && rtt <= p0.last_round_trip_time ==> {
            &&& r == 1
            &&& p1.packet_throttle <= p0.packet_throttle_limit || p1.packet_throttle == p0.packet_throttle
                + p0.packet_throttle_acceleration
            &&& p0.packet_throttle <= p0.packet_throttle_limit ==> p0.packet_throttle <= p1.packet_throttle
                <= p0.packet_throttle_limit
            &&& p1.packet_throttle == if p0.packet_throttle + p0.packet_throttle_acceleration
                > p0.packet_throttle_limit {
                p0.packet_throttle_limit as int
            } else {
                p0.packet_throttle + p0.packet_throttle_acceleration
            }
        },
        p0.last_round_trip_time > p0.last_round_trip_time_variance && rtt > p0.last_round_trip_time + 2
            * p0.last_round_trip_time_variance ==> r == -1 && p1.packet_throttle <= p0.packet_throttle
            && p1.packet_throttle == if p0.packet_throttle > p0.packet_throttle_deceleration {
            p0.packet_throttle - p0.packet_throttle_deceleration
        } else {
            0
        },
        p0.last_round_trip_time > p0.last_round_trip_time_variance && p0.last_round_trip_time < rtt
            <= p0.last_round_trip_time + 2 * p0.last_round_trip_time_variance ==> r == 0 && p1.packet_throttle
            == p0.packet_throttle,
{
    assert(2u32.wrapping_mul(p0.last_round_trip_time_variance) == 2 * p0.last_round_trip_time_variance);
}

} // verus!
