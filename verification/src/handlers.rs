//! Handling the control commands a peer receives: pings, bandwidth limits, throttle
//! configurations, disconnections, the verification of a connection, and
//! acknowledgements, with the connection and disconnection events they lead to.
use vstd::prelude::*;
use crate::acknowledge::{ack_removed, acknowledged_command, command_acknowledged, queue_of};
use crate::consts::{PROTOCOL_MAXIMUM_CHANNEL_COUNT, PROTOCOL_MINIMUM_CHANNEL_COUNT};
use crate::control::{
    counted, counters_follow, counters_room, disconnected, keeps_identity, limited, queues_reset,
    mtu_in_bounds, Finish,
};
use crate::event::Event;
use crate::peer::{
    clamp_mtu, clamp_mtu_value, clamp_window, counts_as_connected, negotiated_window_size,
    acknowledgement_timed, round_trip_sample, window_size_for, Peer, PeerState,
    PEER_FLAG_NEEDS_DISPATCH,
};
use crate::protocol::{
    command_number, Command, ConnectFields, ProtocolCommand, PROTOCOL_COMMAND_DISCONNECT,
    PROTOCOL_COMMAND_FLAG_ACKNOWLEDGE, PROTOCOL_COMMAND_VERIFY_CONNECT,
};

verus! {

/// What handling a command leads to besides the change of the peer: whether the command
/// was taken, whether the host must recalculate its bandwidth limits, and the event for
/// the user, if any.
pub struct Reaction {
    pub ok: bool,
    pub recalculate: bool,
    pub event: Option<Event>,
}

/// Whether `p1` is `p0` reset: back to the initial disconnected state, with its identity
/// and session ids kept.
pub open spec fn peer_reset(p0: Peer, p1: Peer, host_mtu: u32) -> bool {
    &&& p1.is_reset(host_mtu)
    &&& p1.index == p0.index
    &&& p1.incoming_peer_id == p0.incoming_peer_id
    &&& p1.outgoing_session_id == p0.outgoing_session_id
    &&& p1.incoming_session_id == p0.incoming_session_id
}

/// Whether the state comes at or after `ConnectionPending` in the order of states.
pub open spec fn at_least_pending(state: PeerState) -> bool {
    !(state == PeerState::Disconnected || state == PeerState::Connecting || state
        == PeerState::AcknowledgingConnect)
}

/// Whether `(p1, r)` is what reporting the connection of peer `p0` gives: with an event at
/// hand the peer is connected and the event carries its data; without one it moves on to
/// `ConnectionSucceeded` (from `Connecting`) or `ConnectionPending`, to be dispatched.
pub open spec fn connect_notified(p0: Peer, p1: Peer, with_event: bool, r: Reaction) -> bool {
    &&& r.ok
    &&& r.recalculate
    &&& if with_event {
        &&& p1 == (Peer { state: PeerState::Connected, ..p0 })
        &&& r.event == Some(Event::Connect { peer: p0.index, data: p0.event_data })
    } else {
        &&& p1 == (Peer {
            state: if p0.state == PeerState::Connecting {
                PeerState::ConnectionSucceeded
            } else {
                PeerState::ConnectionPending
            },
            flags: p0.flags | PEER_FLAG_NEEDS_DISPATCH,
            ..p0
        })
        &&& r.event is None
    }
}

/// Whether `(p1, r)` is what reporting the disconnection of peer `p0` gives: a peer that
/// never got connected is reset; otherwise, with an event at hand the peer is reset and
/// the event reported, without one it becomes a zombie to be dispatched.
pub open spec fn disconnect_notified(
    p0: Peer,
    p1: Peer,
    with_event: bool,
    host_mtu: u32,
    r: Reaction,
) -> bool {
    &&& r.ok
    &&& r.recalculate == at_least_pending(p0.state)
    &&& if p0.state != PeerState::Connecting && !at_least_pending(p0.state)
        || p0.state == PeerState::ConnectionPending {
        peer_reset(p0, p1, host_mtu) && r.event is None
    } else if with_event {
        peer_reset(p0, p1, host_mtu) && r.event == Some(Event::Disconnect { peer: p0.index, data: 0 })
    } else {
        &&& p1 == (Peer {
            state: PeerState::Zombie,
            event_data: 0,
            flags: p0.flags | PEER_FLAG_NEEDS_DISPATCH,
            ..p0
        })
        &&& r.event is None
    }
}

impl Peer {
    /// Report that the peer got connected (see [`connect_notified`]).
    pub fn notify_connect(
        &mut self,
        with_event: bool,
        connected_peers: &mut usize,
        bandwidth_limited_peers: &mut usize,
    ) -> (r: Reaction)
        requires
            counters_room(*old(self), *old(connected_peers), *old(bandwidth_limited_peers)),
        ensures
            keeps_identity(*old(self), *final(self)),
            connect_notified(*old(self), *final(self), with_event, r),
            counters_follow(
                *old(self),
                *final(self),
                *old(connected_peers),
                *old(bandwidth_limited_peers),
                *final(connected_peers),
                *final(bandwidth_limited_peers),
            ),
    {
        if with_event {
            self.change_state(PeerState::Connected, connected_peers, bandwidth_limited_peers);
            Reaction {
                ok: true,
                recalculate: true,
                event: Some(Event::Connect { peer: self.index, data: self.event_data }),
            }
        } else {
            let state = if self.state == PeerState::Connecting {
                PeerState::ConnectionSucceeded
            } else {
                PeerState::ConnectionPending
            };
            self.dispatch_state(state, connected_peers, bandwidth_limited_peers);
            Reaction { ok: true, recalculate: true, event: None }
        }
    }

    /// Report that the peer got disconnected (see [`disconnect_notified`]).
    pub fn notify_disconnect(
        &mut self,
        with_event: bool,
        host_mtu: u32,
        connected_peers: &mut usize,
        bandwidth_limited_peers: &mut usize,
    ) -> (r: Reaction)
        requires
            counters_room(*old(self), *old(connected_peers), *old(bandwidth_limited_peers)),
            mtu_in_bounds(host_mtu),
        ensures
            keeps_identity(*old(self), *final(self)),
            disconnect_notified(*old(self), *final(self), with_event, host_mtu, r),
            counters_follow(
                *old(self),
                *final(self),
                *old(connected_peers),
                *old(bandwidth_limited_peers),
                *final(connected_peers),
                *final(bandwidth_limited_peers),
            ),
    {
        let state = self.state;
        let recalculate = !(state == PeerState::Disconnected || state == PeerState::Connecting
            || state == PeerState::AcknowledgingConnect);
        if state != PeerState::Connecting && (state == PeerState::Disconnected || state
            == PeerState::AcknowledgingConnect || state == PeerState::ConnectionPending) {
            self.reset(host_mtu, connected_peers, bandwidth_limited_peers);
            Reaction { ok: true, recalculate, event: None }
        } else if with_event {
            let peer = self.index;
            self.reset(host_mtu, connected_peers, bandwidth_limited_peers);
            Reaction { ok: true, recalculate, event: Some(Event::Disconnect { peer, data: 0 }) }
        } else {
            self.event_data = 0;
            self.dispatch_state(PeerState::Zombie, connected_peers, bandwidth_limited_peers);
            Reaction { ok: true, recalculate, event: None }
        }
    }

    /// Handle a ping: taken only from a connected peer.
    pub fn handle_ping(&self) -> (ok: bool)
        ensures
            ok == counts_as_connected(self.state),
    {
        self.state == PeerState::Connected || self.state == PeerState::DisconnectLater
    }

    /// Handle a throttle configuration: a connected peer takes the packet throttle
    /// parameters of the command; any other one refuses it.
    pub fn handle_throttle_configure(&mut self, command: &ProtocolCommand) -> (ok: bool)
        requires
            command.body is ThrottleConfigure,
        ensures
            keeps_identity(*old(self), *final(self)),
            ok == counts_as_connected(old(self).state),
            !ok ==> *final(self) == *old(self),
            ok ==> *final(self) == (Peer {
                packet_throttle_interval: command.body->packet_throttle_interval,
                packet_throttle_acceleration: command.body->packet_throttle_acceleration,
                packet_throttle_deceleration: command.body->packet_throttle_deceleration,
                ..*old(self)
            }),
    {
        if self.state != PeerState::Connected && self.state != PeerState::DisconnectLater {
            return false;
        }
        match &command.body {
            Command::ThrottleConfigure {
                packet_throttle_interval,
                packet_throttle_acceleration,
                packet_throttle_deceleration,
            } => {
                self.packet_throttle_interval = *packet_throttle_interval;
                self.packet_throttle_acceleration = *packet_throttle_acceleration;
                self.packet_throttle_deceleration = *packet_throttle_deceleration;
            },
            _ => {},
        }
        true
    }

    /// Handle a bandwidth limit: a connected peer takes the bandwidths of the command and
    /// the window size they give with the host's outgoing bandwidth
    /// `host_outgoing_bandwidth` (see [`negotiated_window_size`]); any other one refuses it.
    pub fn handle_bandwidth_limit(
        &mut self,
        command: &ProtocolCommand,
        host_outgoing_bandwidth: u32,
        bandwidth_limited_peers: &mut usize,
    ) -> (ok: bool)
        requires
            command.body is BandwidthLimit,
            limited(*old(self)) <= *old(bandwidth_limited_peers) < usize::MAX,
        ensures
            keeps_identity(*old(self), *final(self)),
            ok == counts_as_connected(old(self).state),
            !ok ==> *final(self) == *old(self),
            ok ==> *final(self) == (Peer {
                incoming_bandwidth: command.body->incoming_bandwidth,
                outgoing_bandwidth: command.body->outgoing_bandwidth,
                window_size: negotiated_window_size(
                    host_outgoing_bandwidth,
                    command.body->incoming_bandwidth,
                ),
                ..*old(self)
            }),
            *final(bandwidth_limited_peers) == *old(bandwidth_limited_peers) + limited(
                *final(self),
            ) - limited(*old(self)),
    {
        if self.state != PeerState::Connected && self.state != PeerState::DisconnectLater {
            return false;
        }
        let (incoming, outgoing) = match &command.body {
            Command::BandwidthLimit { incoming_bandwidth, outgoing_bandwidth } => (
                *incoming_bandwidth,
                *outgoing_bandwidth,
            ),
            _ => (0, 0),
        };
        if self.incoming_bandwidth != 0 {
            *bandwidth_limited_peers = *bandwidth_limited_peers - 1;
        }
        self.incoming_bandwidth = incoming;
        self.outgoing_bandwidth = outgoing;
        if self.incoming_bandwidth != 0 {
            *bandwidth_limited_peers = *bandwidth_limited_peers + 1;
        }
        self.window_size = window_size_for(host_outgoing_bandwidth, incoming);
        true
    }

    /// Handle a disconnect command. A peer already disconnected, a zombie, or one
    /// acknowledging a disconnection ignores it. Otherwise its queues are emptied, and: a
    /// peer still connecting or disconnecting becomes a zombie to be dispatched; a peer
    /// waiting for its connection to be acknowledged is reset (the host recalculates its
    /// bandwidth limits when it was pending); a connected peer acknowledges the
    /// disconnection when the command asks for that, and becomes a zombie to be dispatched
    /// otherwise. A peer not reset keeps the data of the command for the event.
    pub fn handle_disconnect(
        &mut self,
        command: &ProtocolCommand,
        host_mtu: u32,
        connected_peers: &mut usize,
        bandwidth_limited_peers: &mut usize,
    ) -> (recalculate: bool)
        requires
            command.body is Disconnect,
            counters_room(*old(self), *old(connected_peers), *old(bandwidth_limited_peers)),
            mtu_in_bounds(host_mtu),
        ensures
            keeps_identity(*old(self), *final(self)),
            ({
                let s = old(self).state;
                let data = command.body->Disconnect_data;
                if s == PeerState::Disconnected || s == PeerState::Zombie || s
                    == PeerState::AcknowledgingDisconnect {
                    *final(self) == *old(self) && !recalculate
                } else if s == PeerState::ConnectionSucceeded || s == PeerState::Disconnecting
                    || s == PeerState::Connecting || (counts_as_connected(s) && command.command
                    & PROTOCOL_COMMAND_FLAG_ACKNOWLEDGE == 0) {
                    &&& !recalculate
                    &&& final(self).flags == (old(self).flags & !PEER_FLAG_NEEDS_DISPATCH)
                        | PEER_FLAG_NEEDS_DISPATCH
                    &&& queues_reset(
                        *old(self),
                        Peer {
                            state: s,
                            event_data: old(self).event_data,
                            flags: old(self).flags & !PEER_FLAG_NEEDS_DISPATCH,
                            ..*final(self)
                        },
                    )
                    &&& final(self).state == PeerState::Zombie
                    &&& final(self).event_data == data
                } else if counts_as_connected(s) {
                    &&& !recalculate
                    &&& queues_reset(
                        *old(self),
                        Peer { state: s, event_data: old(self).event_data, ..*final(self) },
                    )
                    &&& final(self).state == PeerState::AcknowledgingDisconnect
                    &&& final(self).event_data == data
                } else {
                    peer_reset(*old(self), *final(self), host_mtu) && recalculate == (s
                        == PeerState::ConnectionPending)
                }
            }),
            counters_follow(
                *old(self),
                *final(self),
                *old(connected_peers),
                *old(bandwidth_limited_peers),
                *final(connected_peers),
                *final(bandwidth_limited_peers),
            ),
    {
        let s = self.state;
        if s == PeerState::Disconnected || s == PeerState::Zombie || s
            == PeerState::AcknowledgingDisconnect {
            return false;
        }
        let data = match &command.body {
            Command::Disconnect { data } => *data,
            _ => 0,
        };
        self.reset_queues();
        let mut recalculate = false;
        if s == PeerState::ConnectionSucceeded || s == PeerState::Disconnecting || s
            == PeerState::Connecting {
            self.dispatch_state(PeerState::Zombie, connected_peers, bandwidth_limited_peers);
        } else if s != PeerState::Connected && s != PeerState::DisconnectLater {
            if s == PeerState::ConnectionPending {
                recalculate = true;
            }
            self.reset(host_mtu, connected_peers, bandwidth_limited_peers);
        } else if command.command & PROTOCOL_COMMAND_FLAG_ACKNOWLEDGE != 0 {
            self.change_state(
                PeerState::AcknowledgingDisconnect,
                connected_peers,
                bandwidth_limited_peers,
            );
        } else {
            self.dispatch_state(PeerState::Zombie, connected_peers, bandwidth_limited_peers);
        }
        if self.state != PeerState::Disconnected {
            self.event_data = data;
        }
        recalculate
    }
}

/// Whether a verification of the connection with fields `f` is refused by peer `p`: the
/// channel count is out of bounds, or the throttle parameters or the connect id differ
/// from those the peer asked for.
pub open spec fn verify_refused(p: Peer, f: ConnectFields) -> bool {
    ||| f.channel_count < PROTOCOL_MINIMUM_CHANNEL_COUNT
    ||| f.channel_count > PROTOCOL_MAXIMUM_CHANNEL_COUNT
    ||| f.packet_throttle_interval != p.packet_throttle_interval
    ||| f.packet_throttle_acceleration != p.packet_throttle_acceleration
    ||| f.packet_throttle_deceleration != p.packet_throttle_deceleration
    ||| f.connect_id != p.connect_id
}

/// Whether `p1` is `p0` having taken the fields `f` of a verification of its connection:
/// no more channels than the remote host allows, its peer id and session ids, an MTU and
/// a window size no larger than the remote host's (within the protocol's bounds), and its
/// bandwidths.
pub open spec fn verify_taken(p0: Peer, p1: Peer, f: ConnectFields) -> bool {
    let mtu = clamp_mtu(f.mtu);
    let window = clamp_window(f.window_size as int) as u32;
    &&& p1.channels@ == if (f.channel_count as int) < p0.channels@.len() {
        p0.channels@.take(f.channel_count as int)
    } else {
        p0.channels@
    }
    &&& p1 == (Peer {
        channels: p1.channels,
        outgoing_peer_id: f.outgoing_peer_id,
        incoming_session_id: f.incoming_session_id,
        outgoing_session_id: f.outgoing_session_id,
        mtu: if mtu < p0.mtu {
            mtu
        } else {
            p0.mtu
        },
        window_size: if window < p0.window_size {
            window
        } else {
            p0.window_size
        },
        incoming_bandwidth: f.incoming_bandwidth,
        outgoing_bandwidth: f.outgoing_bandwidth,
        ..p0
    })
}

impl Peer {
    /// Handle the verification of the connection this peer asked for. A peer that is not
    /// connecting ignores it. A refused verification (see [`verify_refused`]) makes the
    /// peer a zombie to be dispatched, with no data. Otherwise the peer's connect command
    /// counts as acknowledged, the peer takes the fields of the command (see
    /// [`verify_taken`]) and its connection is reported (see [`connect_notified`]).
    pub fn handle_verify_connect(
        &mut self,
        command: &ProtocolCommand,
        with_event: bool,
        connected_peers: &mut usize,
        bandwidth_limited_peers: &mut usize,
    ) -> (r: Reaction)
        requires
            command.body is VerifyConnect,
            counters_room(*old(self), *old(connected_peers), *old(bandwidth_limited_peers)),
        ensures
            keeps_identity(*old(self), *final(self)),
            ({
                let f = command.body->VerifyConnect_fields;
                if old(self).state != PeerState::Connecting {
                    *final(self) == *old(self) && r.ok && !r.recalculate && r.event is None
                } else if verify_refused(*old(self), f) {
                    &&& *final(self) == (Peer {
                        state: PeerState::Zombie,
                        event_data: 0,
                        flags: old(self).flags | PEER_FLAG_NEEDS_DISPATCH,
                        ..*old(self)
                    })
                    &&& !r.ok && !r.recalculate && r.event is None
                } else {
                    exists|a: Peer, n: u8, v: Peer|
                        #[trigger] ack_removed(*old(self), a, 1, 0xff, n) && #[trigger] verify_taken(a, v, f)
                            && connect_notified(v, *final(self), with_event, r)
                }
            }),
            counters_follow(
                *old(self),
                *final(self),
                *old(connected_peers),
                *old(bandwidth_limited_peers),
                *final(connected_peers),
                *final(bandwidth_limited_peers),
            ),
    {
        if self.state != PeerState::Connecting {
            return Reaction { ok: true, recalculate: false, event: None };
        }
        let f = match &command.body {
            Command::VerifyConnect { fields } => *fields,
            _ => ConnectFields {
                outgoing_peer_id: 0,
                incoming_session_id: 0,
                outgoing_session_id: 0,
                mtu: 0,
                window_size: 0,
                channel_count: 0,
                incoming_bandwidth: 0,
                outgoing_bandwidth: 0,
                packet_throttle_interval: 0,
                packet_throttle_acceleration: 0,
                packet_throttle_deceleration: 0,
                connect_id: 0,
            },
        };
        if f.channel_count < PROTOCOL_MINIMUM_CHANNEL_COUNT || f.channel_count
            > PROTOCOL_MAXIMUM_CHANNEL_COUNT || f.packet_throttle_interval
            != self.packet_throttle_interval || f.packet_throttle_acceleration
            != self.packet_throttle_acceleration || f.packet_throttle_deceleration
            != self.packet_throttle_deceleration || f.connect_id != self.connect_id {
            self.event_data = 0;
            self.dispatch_state(PeerState::Zombie, connected_peers, bandwidth_limited_peers);
            return Reaction { ok: false, recalculate: false, event: None };
        }
        let ghost p0 = *self;
        let n = self.remove_sent_reliable_command(1, 0xff);
        let ghost a = *self;
        if (f.channel_count as usize) < self.channels.len() {
            self.channels.truncate(f.channel_count as usize);
        }
        self.outgoing_peer_id = f.outgoing_peer_id;
        self.incoming_session_id = f.incoming_session_id;
        self.outgoing_session_id = f.outgoing_session_id;
        let mtu = clamp_mtu_value(f.mtu);
        if mtu < self.mtu {
            self.mtu = mtu;
        }
        let window = if f.window_size < 4096 {
            4096
        } else if f.window_size > 65536 {
            65536
        } else {
            f.window_size
        };
        if window < self.window_size {
            self.window_size = window;
        }
        self.incoming_bandwidth = f.incoming_bandwidth;
        self.outgoing_bandwidth = f.outgoing_bandwidth;
        let ghost v = *self;
        assert(verify_taken(a, v, f));
        let r = self.notify_connect(with_event, connected_peers, bandwidth_limited_peers);
        assert(ack_removed(p0, a, 1, 0xff, n));
        r
    }
}

/// Whether `(p1, r)` and the host's command count `tq1` are what follows the removal of
/// the acknowledged command numbered `n` from peer `a` in state `s`: a peer acknowledging
/// its connection needs the acknowledgement of its verification, and is then connected;
/// a disconnecting peer needs the acknowledgement of its disconnection, and is then
/// disconnected; a peer that is to disconnect later does so once nothing is outstanding.
pub open spec fn acknowledgement_followed(
    a: Peer,
    p1: Peer,
    s: PeerState,
    n: u8,
    with_event: bool,
    host_mtu: u32,
    tq0: u32,
    tq1: u32,
    r: Reaction,
) -> bool {
    if s == PeerState::AcknowledgingConnect {
        tq1 == tq0 && if n != PROTOCOL_COMMAND_VERIFY_CONNECT {
            p1 == a && !r.ok && !r.recalculate && r.event is None
        } else {
            connect_notified(a, p1, with_event, r)
        }
    } else if s == PeerState::Disconnecting {
        tq1 == tq0 && if n != PROTOCOL_COMMAND_DISCONNECT {
            p1 == a && !r.ok && !r.recalculate && r.event is None
        } else {
            disconnect_notified(a, p1, with_event, host_mtu, r)
        }
    } else {
        &&& r.ok && !r.recalculate && r.event is None
        &&& if s == PeerState::DisconnectLater && !a.spec_has_outgoing_commands() {
            disconnected(a, p1, a.event_data, tq0, tq1, Finish::Nothing)
        } else {
            p1 == a && tq1 == tq0
        }
    }
}

impl Peer {
    /// Handle an acknowledgement received at `service_time`. A disconnected peer or a
    /// zombie ignores it, and so does any peer when the acknowledged datagram's time lies
    /// ahead (see [`round_trip_sample`]). Otherwise the peer takes its timing (see
    /// [`acknowledgement_timed`]), the acknowledged command is taken off its queue (see
    /// [`ack_removed`]), and what follows depends on the peer's state (see
    /// [`acknowledgement_followed`]). `total_queued` counts the host's commands.
    pub fn handle_acknowledge(
        &mut self,
        command: &ProtocolCommand,
        service_time: u32,
        with_event: bool,
        total_queued: &mut u32,
        host_mtu: u32,
        connected_peers: &mut usize,
        bandwidth_limited_peers: &mut usize,
    ) -> (r: Reaction)
        requires
            mtu_in_bounds(host_mtu),
            command.body is Acknowledge,
            counters_room(*old(self), *old(connected_peers), *old(bandwidth_limited_peers)),
        ensures
            keeps_identity(*old(self), *final(self)),
            ({
                let s = old(self).state;
                let rst = command.body->received_sent_time;
                let rsn = command.body->received_reliable_sequence_number;
                if s == PeerState::Disconnected || s == PeerState::Zombie || round_trip_sample(
                    service_time,
                    rst,
                ) is None {
                    &&& *final(self) == *old(self)
                    &&& *final(total_queued) == *old(total_queued)
                    &&& r.ok && !r.recalculate && r.event is None
                } else {
                    exists|t: Peer, a: Peer, n: u8|
                        #[trigger] acknowledgement_timed(*old(self), t, service_time, rst)
                            && #[trigger] ack_removed(t, a, rsn, command.channel_id, n)
                            && acknowledgement_followed(
                            a,
                            *final(self),
                            s,
                            n,
                            with_event,
                            host_mtu,
                            *old(total_queued),
                            *final(total_queued),
                            r,
                        )
                }
            }),
            counters_follow(
                *old(self),
                *final(self),
                *old(connected_peers),
                *old(bandwidth_limited_peers),
                *final(connected_peers),
                *final(bandwidth_limited_peers),
            ),
    {
        let s = self.state;
        if s == PeerState::Disconnected || s == PeerState::Zombie {
            return Reaction { ok: true, recalculate: false, event: None };
        }
        let (rsn, rst) = match &command.body {
            Command::Acknowledge { received_reliable_sequence_number, received_sent_time } => (
                *received_reliable_sequence_number,
                *received_sent_time,
            ),
            _ => (0, 0),
        };
        let ghost p0 = *self;
        if !self.take_acknowledgement_timing(service_time, rst) {
            return Reaction { ok: true, recalculate: false, event: None };
        }
        let ghost t = *self;
        let n = self.remove_sent_reliable_command(rsn, command.channel_id);
        let ghost a = *self;
        let ghost tq0 = *total_queued;
        let r = if s == PeerState::AcknowledgingConnect {
            if n != PROTOCOL_COMMAND_VERIFY_CONNECT {
                Reaction { ok: false, recalculate: false, event: None }
            } else {
                self.notify_connect(with_event, connected_peers, bandwidth_limited_peers)
            }
        } else if s == PeerState::Disconnecting {
            if n != PROTOCOL_COMMAND_DISCONNECT {
                Reaction { ok: false, recalculate: false, event: None }
            } else {
                self.notify_disconnect(
                    with_event,
                    host_mtu,
                    connected_peers,
                    bandwidth_limited_peers,
                )
            }
        } else {
            if s == PeerState::DisconnectLater && !self.has_outgoing_commands() {
                let data = self.event_data;
                self.disconnect(total_queued, data, connected_peers, bandwidth_limited_peers);
            }
            Reaction { ok: true, recalculate: false, event: None }
        };
        assert(acknowledgement_timed(p0, t, service_time, rst));
        assert(ack_removed(t, a, rsn, command.channel_id, n));
        r
    }
}

} // verus!
