//! The control side of a connection: changes of a peer's state with the host's counters
//! kept in step, the control commands a peer sends (ping, throttle configuration,
//! disconnection), and the handling of the control commands it receives.
use vstd::prelude::*;
use crate::consts::{PROTOCOL_MAXIMUM_MTU, PROTOCOL_MINIMUM_MTU};
use crate::error::BadParameter;
use crate::packet::PACKET_FLAG_RELIABLE;
use crate::peer::{
    counts_as_connected, negotiated_window_size, window_size_for, OutgoingCommand, Peer,
    PeerState, PEER_FLAG_NEEDS_DISPATCH,
};
use crate::outgoing::{queued_outgoing, setup_outgoing_command};
use crate::protocol::{
    well_formed, Command, ProtocolCommand, PROTOCOL_COMMAND_DISCONNECT,
    PROTOCOL_COMMAND_FLAG_ACKNOWLEDGE, PROTOCOL_COMMAND_FLAG_UNSEQUENCED, PROTOCOL_COMMAND_PING,
    PROTOCOL_COMMAND_THROTTLE_CONFIGURE,
};

verus! {

/// How much a peer counts towards the host's number of connected peers.
pub open spec fn counted(p: Peer) -> int {
    if counts_as_connected(p.state) {
        1
    } else {
        0
    }
}

/// How much a peer counts towards the host's number of bandwidth limited peers.
pub open spec fn limited(p: Peer) -> int {
    if counts_as_connected(p.state) && p.incoming_bandwidth != 0 {
        1
    } else {
        0
    }
}

/// Whether the host's counters `(cp1, bp1)` follow a peer going from `p0` to `p1`, from
/// `(cp0, bp0)`.
pub open spec fn counters_follow(p0: Peer, p1: Peer, cp0: usize, bp0: usize, cp1: usize, bp1: usize) -> bool {
    &&& cp1 == cp0 + counted(p1) - counted(p0)
    &&& bp1 == bp0 + limited(p1) - limited(p0)
}

/// Whether the host's counters leave room for a peer to be counted or uncounted.
pub open spec fn counters_room(p: Peer, cp: usize, bp: usize) -> bool {
    &&& counted(p) <= cp < usize::MAX
    &&& limited(p) <= bp < usize::MAX
}

/// Whether `p1` is still the peer `p0` was: the same index and incoming peer id, and no
/// more channels.
pub open spec fn keeps_identity(p0: Peer, p1: Peer) -> bool {
    &&& p1.index == p0.index
    &&& p1.incoming_peer_id == p0.incoming_peer_id
    &&& p1.channels@.len() <= p0.channels@.len()
    &&& mtu_in_bounds(p0.mtu) ==> mtu_in_bounds(p1.mtu)
}

/// Whether peer `p1` still names the remote peer as `p0` did: the same outgoing peer id
/// and outgoing session.
pub open spec fn same_link(p0: Peer, p1: Peer) -> bool {
    p1.outgoing_peer_id == p0.outgoing_peer_id && p1.outgoing_session_id == p0.outgoing_session_id
}

/// Whether `mtu` lies within the protocol's bounds.
pub open spec fn mtu_in_bounds(mtu: u32) -> bool {
    PROTOCOL_MINIMUM_MTU <= mtu <= PROTOCOL_MAXIMUM_MTU
}

/// Whether `c` is an outgoing control command `pc`: on no packet, with no data.
pub open spec fn is_control(c: OutgoingCommand, pc: ProtocolCommand) -> bool {
    &&& c.command == pc
    &&& c.fragment_offset == 0
    &&& c.fragment_length == 0
    &&& !c.has_packet
    &&& c.payload@.len() == 0
}

/// Whether `p1` is `p0` with control command `pc` queued, as the `queue_time`-th command
/// of the host.
pub open spec fn control_queued(p0: Peer, p1: Peer, pc: ProtocolCommand, queue_time: u32) -> bool {
    exists|c: OutgoingCommand| is_control(c, pc) && #[trigger] queued_outgoing(p0, p1, c, queue_time)
}

/// The ping command a connected peer queues.
pub open spec fn ping_command() -> ProtocolCommand {
    ProtocolCommand {
        command: PROTOCOL_COMMAND_PING | PROTOCOL_COMMAND_FLAG_ACKNOWLEDGE,
        channel_id: 0xff,
        reliable_sequence_number: 0,
        body: Command::Ping,
    }
}

/// The disconnect command a peer sends with `data`: acknowledged when the peer is
/// connected, unsequenced otherwise.
pub open spec fn disconnect_command(state: PeerState, data: u32) -> ProtocolCommand {
    ProtocolCommand {
        command: if counts_as_connected(state) {
            PROTOCOL_COMMAND_DISCONNECT | PROTOCOL_COMMAND_FLAG_ACKNOWLEDGE
        } else {
            PROTOCOL_COMMAND_DISCONNECT | PROTOCOL_COMMAND_FLAG_UNSEQUENCED
        },
        channel_id: 0xff,
        reliable_sequence_number: 0,
        body: Command::Disconnect { data },
    }
}

/// What remains for the host to do after a peer's disconnection.
#[derive(Debug, Clone, Copy, PartialEq, Eq, Structural)]
pub enum Finish {
    /// Nothing.
    Nothing,
    /// Reset the peer.
    Reset,
    /// Send what is queued for the peer, then reset it.
    FlushThenReset,
}

impl Peer {
    /// Queue control command `pc` for sending; `total_queued` counts the host's commands.
    pub(crate) fn queue_control(&mut self, total_queued: &mut u32, pc: ProtocolCommand)
        requires
            well_formed(pc),
            pc.channel_id == 0xff,
        ensures
            keeps_identity(*old(self), *final(self)),
            *final(total_queued) == old(total_queued).wrapping_add(1),
            control_queued(*old(self), *final(self), pc, *final(total_queued)),
    {
        let c = OutgoingCommand {
            reliable_sequence_number: 0,
            unreliable_sequence_number: 0,
            sent_time: 0,
            round_trip_timeout: 0,
            queue_time: 0,
            fragment_offset: 0,
            fragment_length: 0,
            send_attempts: 0,
            command: pc,
            has_packet: false,
            packet_flags: 0,
            payload: Vec::new(),
        };
        let ghost c0 = c;
        setup_outgoing_command(self, total_queued, c);
        assert(is_control(c0, pc));
    }

    /// Move the peer to `state`, counting it in or out of the host's counters
    /// `connected_peers` and `bandwidth_limited_peers`.
    pub fn change_state(
        &mut self,
        state: PeerState,
        connected_peers: &mut usize,
        bandwidth_limited_peers: &mut usize,
    )
        requires
            counters_room(*old(self), *old(connected_peers), *old(bandwidth_limited_peers)),
        ensures
            *final(self) == (Peer { state, ..*old(self) }),
            counters_follow(
                *old(self),
                *final(self),
                *old(connected_peers),
                *old(bandwidth_limited_peers),
                *final(connected_peers),
                *final(bandwidth_limited_peers),
            ),
    {
        if state == PeerState::Connected || state == PeerState::DisconnectLater {
            self.on_connect(connected_peers, bandwidth_limited_peers);
        } else {
            self.on_disconnect(connected_peers, bandwidth_limited_peers);
        }
        self.state = state;
    }

    /// Move the peer to `state` (see [`Peer::change_state`]) and mark it as needing its
    /// events dispatched.
    pub fn dispatch_state(
        &mut self,
        state: PeerState,
        connected_peers: &mut usize,
        bandwidth_limited_peers: &mut usize,
    )
        requires
            counters_room(*old(self), *old(connected_peers), *old(bandwidth_limited_peers)),
        ensures
            *final(self) == (Peer {
                state,
                flags: old(self).flags | PEER_FLAG_NEEDS_DISPATCH,
                ..*old(self)
            }),
            counters_follow(
                *old(self),
                *final(self),
                *old(connected_peers),
                *old(bandwidth_limited_peers),
                *final(connected_peers),
                *final(bandwidth_limited_peers),
            ),
    {
        self.change_state(state, connected_peers, bandwidth_limited_peers);
        self.flags = self.flags | PEER_FLAG_NEEDS_DISPATCH;
    }

    /// Queue a ping to a connected peer (nothing otherwise); `total_queued` counts the
    /// host's commands.
    pub fn ping(&mut self, total_queued: &mut u32)
        ensures
            same_link(*old(self), *final(self)),
            keeps_identity(*old(self), *final(self)),
            old(self).state != PeerState::Connected ==> *final(self) == *old(self)
                && *final(total_queued) == *old(total_queued),
            old(self).state == PeerState::Connected ==> *final(total_queued)
                == old(total_queued).wrapping_add(1) && control_queued(
                *old(self),
                *final(self),
                ProtocolCommand {
                    command: PROTOCOL_COMMAND_PING | PROTOCOL_COMMAND_FLAG_ACKNOWLEDGE,
                    channel_id: 0xff,
                    reliable_sequence_number: 0,
                    body: Command::Ping,
                },
                *final(total_queued),
            ),
    {
        if self.state != PeerState::Connected {
            return;
        }
        let pc = ProtocolCommand {
            command: PROTOCOL_COMMAND_PING | PROTOCOL_COMMAND_FLAG_ACKNOWLEDGE,
            channel_id: 0xff,
            reliable_sequence_number: 0,
            body: Command::Ping,
        };
        assert((5u8 | 128u8) & 15u8 == 5u8) by (bit_vector);
        self.queue_control(total_queued, pc);
    }

    /// Set the packet throttle parameters of the peer and queue a command telling the
    /// remote host about them; `total_queued` counts the host's commands.
    pub fn throttle_configure(
        &mut self,
        total_queued: &mut u32,
        interval: u32,
        acceleration: u32,
        deceleration: u32,
    )
        ensures
            keeps_identity(*old(self), *final(self)),
            *final(total_queued) == old(total_queued).wrapping_add(1),
            control_queued(
                Peer {
                    packet_throttle_interval: interval,
                    packet_throttle_acceleration: acceleration,
                    packet_throttle_deceleration: deceleration,
                    ..*old(self)
                },
                *final(self),
                ProtocolCommand {
                    command: PROTOCOL_COMMAND_THROTTLE_CONFIGURE
                        | PROTOCOL_COMMAND_FLAG_ACKNOWLEDGE,
                    channel_id: 0xff,
                    reliable_sequence_number: 0,
                    body: Command::ThrottleConfigure {
                        packet_throttle_interval: interval,
                        packet_throttle_acceleration: acceleration,
                        packet_throttle_deceleration: deceleration,
                    },
                },
                *final(total_queued),
            ),
    {
        self.packet_throttle_interval = interval;
        self.packet_throttle_acceleration = acceleration;
        self.packet_throttle_deceleration = deceleration;
        let pc = ProtocolCommand {
            command: PROTOCOL_COMMAND_THROTTLE_CONFIGURE | PROTOCOL_COMMAND_FLAG_ACKNOWLEDGE,
            channel_id: 0xff,
            reliable_sequence_number: 0,
            body: Command::ThrottleConfigure {
                packet_throttle_interval: interval,
                packet_throttle_acceleration: acceleration,
                packet_throttle_deceleration: deceleration,
            },
        };
        assert((11u8 | 128u8) & 15u8 == 11u8) by (bit_vector);
        self.queue_control(total_queued, pc);
    }
}

/// Whether `p1` is `p0` with its queues emptied and no longer marked for dispatch.
pub open spec fn queues_reset(p0: Peer, p1: Peer) -> bool {
    &&& p1.acknowledgements@.len() == 0
    &&& p1.sent_reliable_commands@.len() == 0
    &&& p1.outgoing_commands@.len() == 0
    &&& p1.outgoing_send_reliable_commands@.len() == 0
    &&& p1.dispatched_commands@.len() == 0
    &&& p1.channels@.len() == 0
    &&& p1 == (Peer {
        flags: p0.flags & !PEER_FLAG_NEEDS_DISPATCH,
        acknowledgements: p1.acknowledgements,
        sent_reliable_commands: p1.sent_reliable_commands,
        outgoing_commands: p1.outgoing_commands,
        outgoing_send_reliable_commands: p1.outgoing_send_reliable_commands,
        dispatched_commands: p1.dispatched_commands,
        channels: p1.channels,
        ..p0
    })
}

/// Whether a peer takes no disconnection: it is disconnected or already disconnecting.
pub open spec fn disconnect_quiet(state: PeerState) -> bool {
    state == PeerState::Disconnecting || state == PeerState::Disconnected || state
        == PeerState::AcknowledgingDisconnect || state == PeerState::Zombie
}

/// Whether `p1`, `f` and the host's command count `tq1` are what disconnecting peer `p0`
/// with `data` gives: its queues are emptied and a disconnect command is queued; a connected
/// peer then waits for the acknowledgement, any other one is to be flushed and reset.
pub open spec fn disconnected(p0: Peer, p1: Peer, data: u32, tq0: u32, tq1: u32, f: Finish) -> bool {
    if disconnect_quiet(p0.state) {
        p1 == p0 && tq1 == tq0 && f == Finish::Nothing
    } else {
        &&& tq1 == tq0.wrapping_add(1)
        &&& exists|q: Peer|
            queues_reset(p0, q) && #[trigger] control_queued(
                q,
                Peer { state: p0.state, ..p1 },
                disconnect_command(p0.state, data),
                tq1,
            )
        &&& if counts_as_connected(p0.state) {
            p1.state == PeerState::Disconnecting && f == Finish::Nothing
        } else {
            p1.state == p0.state && f == Finish::FlushThenReset
        }
    }
}

impl Peer {
    /// Disconnect the peer with `data` for the remote host (see [`disconnected`]).
    pub fn disconnect(
        &mut self,
        total_queued: &mut u32,
        data: u32,
        connected_peers: &mut usize,
        bandwidth_limited_peers: &mut usize,
    ) -> (f: Finish)
        requires
            counters_room(*old(self), *old(connected_peers), *old(bandwidth_limited_peers)),
        ensures
            same_link(*old(self), *final(self)),
            keeps_identity(*old(self), *final(self)),
            disconnected(*old(self), *final(self), data, *old(total_queued), *final(total_queued), f),
            counters_follow(
                *old(self),
                *final(self),
                *old(connected_peers),
                *old(bandwidth_limited_peers),
                *final(connected_peers),
                *final(bandwidth_limited_peers),
            ),
    {
        let state = self.state;
        if state == PeerState::Disconnecting || state == PeerState::Disconnected || state
            == PeerState::AcknowledgingDisconnect || state == PeerState::Zombie {
            return Finish::Nothing;
        }
        let ghost p0 = *self;
        self.reset_queues();
        let ghost q = *self;
        assert(queues_reset(p0, q));
        let connected = state == PeerState::Connected || state == PeerState::DisconnectLater;
        let command: u8 = if connected {
            PROTOCOL_COMMAND_DISCONNECT | PROTOCOL_COMMAND_FLAG_ACKNOWLEDGE
        } else {
            PROTOCOL_COMMAND_DISCONNECT | PROTOCOL_COMMAND_FLAG_UNSEQUENCED
        };
        let pc = ProtocolCommand {
            command,
            channel_id: 0xff,
            reliable_sequence_number: 0,
            body: Command::Disconnect { data },
        };
        assert((4u8 | 128u8) & 15u8 == 4u8) by (bit_vector);
        assert((4u8 | 64u8) & 15u8 == 4u8) by (bit_vector);
        self.queue_control(total_queued, pc);
        assert(control_queued(q, Peer { state: p0.state, ..*self }, disconnect_command(p0.state, data), *total_queued));
        if connected {
            self.on_disconnect(connected_peers, bandwidth_limited_peers);
            self.state = PeerState::Disconnecting;
            Finish::Nothing
        } else {
            Finish::FlushThenReset
        }
    }

    /// Disconnect the peer with `data` once everything queued for it has been sent and
    /// acknowledged: a connected peer with commands outstanding moves to `DisconnectLater`
    /// and keeps `data`; any other peer is disconnected now (see [`Peer::disconnect`]).
    pub fn disconnect_later(
        &mut self,
        total_queued: &mut u32,
        data: u32,
        connected_peers: &mut usize,
        bandwidth_limited_peers: &mut usize,
    ) -> (f: Finish)
        requires
            counters_room(*old(self), *old(connected_peers), *old(bandwidth_limited_peers)),
        ensures
            keeps_identity(*old(self), *final(self)),
            counts_as_connected(old(self).state) && old(self).spec_has_outgoing_commands() ==> {
                &&& *final(self) == (Peer {
                    state: PeerState::DisconnectLater,
                    event_data: data,
                    ..*old(self)
                })
                &&& *final(total_queued) == *old(total_queued)
                &&& f == Finish::Nothing
            },
            !(counts_as_connected(old(self).state) && old(self).spec_has_outgoing_commands())
                ==> disconnected(*old(self), *final(self), data, *old(total_queued), *final(total_queued), f),
            counters_follow(
                *old(self),
                *final(self),
                *old(connected_peers),
                *old(bandwidth_limited_peers),
                *final(connected_peers),
                *final(bandwidth_limited_peers),
            ),
    {
        if (self.state == PeerState::Connected || self.state == PeerState::DisconnectLater)
            && self.has_outgoing_commands() {
            self.state = PeerState::DisconnectLater;
            self.event_data = data;
            Finish::Nothing
        } else {
            self.disconnect(total_queued, data, connected_peers, bandwidth_limited_peers)
        }
    }

    /// Disconnect the peer with `data` at once, without waiting for the remote host. Unless
    /// the peer is disconnected, it is to be reset; unless it is also disconnecting or a
    /// zombie, its queues are emptied first and an unsequenced disconnect command is queued,
    /// to be flushed before the reset.
    pub fn disconnect_now(&mut self, total_queued: &mut u32, data: u32) -> (f: Finish)
        ensures
            keeps_identity(*old(self), *final(self)),
            old(self).state == PeerState::Disconnected ==> f == Finish::Nothing && *final(self)
                == *old(self) && *final(total_queued) == *old(total_queued),
            old(self).state == PeerState::Zombie || old(self).state == PeerState::Disconnecting
                ==> f == Finish::Reset && *final(self) == *old(self) && *final(total_queued)
                == *old(total_queued),
            old(self).state != PeerState::Disconnected && old(self).state != PeerState::Zombie
                && old(self).state != PeerState::Disconnecting ==> {
                &&& f == Finish::FlushThenReset
                &&& *final(total_queued) == old(total_queued).wrapping_add(1)
                &&& exists|q: Peer|
                    queues_reset(*old(self), q) && #[trigger] control_queued(
                        q,
                        *final(self),
                        ProtocolCommand {
                            command: PROTOCOL_COMMAND_DISCONNECT | PROTOCOL_COMMAND_FLAG_UNSEQUENCED,
                            channel_id: 0xff,
                            reliable_sequence_number: 0,
                            body: Command::Disconnect { data },
                        },
                        *final(total_queued),
                    )
            },
    {
        if self.state == PeerState::Disconnected {
            return Finish::Nothing;
        }
        if self.state == PeerState::Zombie || self.state == PeerState::Disconnecting {
            return Finish::Reset;
        }
        let ghost p0 = *self;
        self.reset_queues();
        let ghost q = *self;
        assert(queues_reset(p0, q));
        let pc = ProtocolCommand {
            command: PROTOCOL_COMMAND_DISCONNECT | PROTOCOL_COMMAND_FLAG_UNSEQUENCED,
            channel_id: 0xff,
            reliable_sequence_number: 0,
            body: Command::Disconnect { data },
        };
        assert((4u8 | 64u8) & 15u8 == 4u8) by (bit_vector);
        self.queue_control(total_queued, pc);
        Finish::FlushThenReset
    }
}

impl Peer {
    /// Set the MTU of the peer. Returns a [`BadParameter`] error, changing nothing, when
    /// `mtu` lies outside the protocol's bounds.
    pub fn set_mtu(&mut self, mtu: u16) -> (r: Result<(), BadParameter>)
        ensures
            (mtu < PROTOCOL_MINIMUM_MTU || mtu > PROTOCOL_MAXIMUM_MTU) ==> r == Err::<(), BadParameter>(
                BadParameter { method: "Peer::set_mtu", parameter: "mtu" },
            ) && *final(self) == *old(self),
            PROTOCOL_MINIMUM_MTU <= mtu <= PROTOCOL_MAXIMUM_MTU ==> r is Ok && *final(self) == (Peer {
                mtu: mtu as u32,
                ..*old(self)
            }),
    {
        if (mtu as usize) < PROTOCOL_MINIMUM_MTU || (mtu as usize) > PROTOCOL_MAXIMUM_MTU {
            return Err(BadParameter { method: "Peer::set_mtu", parameter: "mtu" });
        }
        self.mtu = mtu as u32;
        Ok(())
    }
}

} // verus!
