//! Filling the datagram sent to a peer: its acknowledgements, then the commands waiting in
//! its queues, as far as the datagram, the reliable windows, the data in transit and the
//! packet throttle allow.
use vstd::prelude::*;
use crate::consts::{BUFFER_MAXIMUM, PEER_PACKET_THROTTLE_SCALE, PROTOCOL_MAXIMUM_MTU, PROTOCOL_MAXIMUM_PACKET_COMMANDS};
use crate::control::{counted, counters_follow, counters_room, keeps_identity, limited, same_link, Finish};
use crate::peer::{Acknowledgement, OutgoingCommand, Peer, PeerState, PEER_FLAG_CONTINUE_SENDING, PEER_FLAG_NEEDS_DISPATCH};
use crate::protocol::{
    command_size_of, enet_protocol_command_size, Command, OutgoingFrame, ProtocolCommand,
    PROTOCOL_COMMAND_ACKNOWLEDGE, PROTOCOL_COMMAND_DISCONNECT, PROTOCOL_COMMAND_FLAG_ACKNOWLEDGE,
    PROTOCOL_HEADER_FLAG_SENT_TIME, frames_view,
};

verus! {

/// A datagram being filled: its commands with their payloads, the number of buffers it
/// takes (the header counts as one), its size, and the flags of its header.
pub struct Datagram {
    pub frames: Vec<OutgoingFrame>,
    pub buffers: usize,
    pub packet_size: usize,
    pub header_flags: u16,
}

impl Datagram {
    /// An empty datagram: a header of four bytes.
    pub fn new() -> (d: Datagram)
        ensures
            d.frames@.len() == 0,
            d.buffers == 1,
            d.packet_size == 4,
            d.header_flags == 0,
    {
        Datagram { frames: Vec::new(), buffers: 1, packet_size: 4, header_flags: 0 }
    }
}

/// Whether a datagram with `frames` commands, `buffers` buffers and `packet_size` bytes
/// has room for another acknowledgement for a peer with MTU `mtu`.
pub open spec fn room_for_acknowledgement(frames: int, buffers: int, packet_size: int, mtu: u32) -> bool {
    frames < PROTOCOL_MAXIMUM_PACKET_COMMANDS && buffers < BUFFER_MAXIMUM && (mtu as int
        - packet_size >= 8 || packet_size > mtu)
}

/// Whether the datagram, after `j` more acknowledgements, still has room for one.
pub open spec fn ack_room_at(frames: int, buffers: int, packet_size: int, mtu: u32, j: int) -> bool {
    room_for_acknowledgement(frames + j, buffers + j, packet_size + 8 * j, mtu)
}

/// The acknowledgement command for `a`.
pub open spec fn acknowledgement_command(a: Acknowledgement) -> ProtocolCommand {
    ProtocolCommand {
        command: PROTOCOL_COMMAND_ACKNOWLEDGE,
        channel_id: a.command.channel_id,
        reliable_sequence_number: a.command.reliable_sequence_number,
        body: Command::Acknowledge {
            received_reliable_sequence_number: a.command.reliable_sequence_number,
            received_sent_time: (a.sent_time % 65536) as u16,
        },
    }
}

/// The frames of the acknowledgements `acks`: each command with no payload.
pub open spec fn acknowledgement_frames(acks: Seq<Acknowledgement>) -> Seq<(ProtocolCommand, Seq<u8>)> {
    acks.map_values(|a: Acknowledgement| (acknowledgement_command(a), Seq::<u8>::empty()))
}

/// Whether an acknowledgement acknowledges a disconnection.
pub open spec fn acknowledges_disconnect(a: Acknowledgement) -> bool {
    a.command.command & 15 == PROTOCOL_COMMAND_DISCONNECT
}

/// Whether the acknowledgements `acks` hold one of a disconnection.
pub open spec fn any_disconnect(acks: Seq<Acknowledgement>) -> bool {
    exists|j: int| 0 <= j < acks.len() && #[trigger] acknowledges_disconnect(acks[j])
}

/// Whether `(p1, d1)` is what putting the first `k` acknowledgements of peer `p0` into
/// datagram `d0` gives.
pub open spec fn acknowledgements_sent(p0: Peer, p1: Peer, d0: Datagram, d1: Datagram, k: int) -> bool {
    let acks = p0.acknowledgements@;
    let zombie = any_disconnect(acks.take(k));
    let flags = if zombie {
        p0.flags | PEER_FLAG_NEEDS_DISPATCH
    } else {
        p0.flags
    };
    &&& 0 <= k <= acks.len()
    &&& frames_view(d1.frames@) == frames_view(d0.frames@) + acknowledgement_frames(acks.take(k))
    &&& d1.buffers == d0.buffers + k
    &&& d1.packet_size == d0.packet_size + 8 * k
    &&& d1.header_flags == d0.header_flags
    &&& p1.acknowledgements@ == acks.skip(k)
    &&& p1.flags == if k < acks.len() {
        flags | PEER_FLAG_CONTINUE_SENDING
    } else {
        flags
    }
    &&& p1 == (Peer {
        acknowledgements: p1.acknowledgements,
        flags: p1.flags,
        state: if zombie {
            PeerState::Zombie
        } else {
            p0.state
        },
        ..p0
    })
}

impl Peer {
    /// Put the peer's acknowledgements, in order, into datagram `d` while it has room for
    /// them (see [`room_for_acknowledgement`]); the peer is marked to continue sending
    /// when some are left. Acknowledging a disconnection makes the peer a zombie to be
    /// dispatched.
    pub fn send_acknowledgements(
        &mut self,
        d: &mut Datagram,
        connected_peers: &mut usize,
        bandwidth_limited_peers: &mut usize,
    )
        requires
            counters_room(*old(self), *old(connected_peers), *old(bandwidth_limited_peers)),
            old(d).buffers < 4096,
            old(d).packet_size < 65536,
            old(d).frames@.len() < 4096,
        ensures
            same_link(*old(self), *final(self)),
            old(d).frames@.len() <= 32 ==> final(d).frames@.len() <= 32 && final(d).packet_size
                <= old(d).packet_size + 256,
            old(d).buffers <= 65 ==> final(d).buffers <= 65,
            keeps_identity(*old(self), *final(self)),
            exists|k: int|
                #[trigger] acknowledgements_sent(*old(self), *final(self), *old(d), *final(d), k)
                    && (forall|j: int|
                    0 <= j < k ==> #[trigger] ack_room_at(old(d).frames@.len() as int, old(d).buffers as int, old(d).packet_size as int, old(self).mtu, j)) && (k < old(self).acknowledgements@.len() ==> !ack_room_at(old(d).frames@.len() as int, old(d).buffers as int, old(d).packet_size as int, old(self).mtu, k)),
            counters_follow(
                *old(self),
                *final(self),
                *old(connected_peers),
                *old(bandwidth_limited_peers),
                *final(connected_peers),
                *final(bandwidth_limited_peers),
            ),
    {
        let ghost p0 = *self;
        let ghost acks = self.acknowledgements@;
        let ghost f0 = frames_view(d.frames@);
        let ghost d0 = *d;
        let mut k: usize = 0;
        let mut zombie = false;
        assert(acks.skip(0) =~= acks);
        assert(acks.take(0) =~= Seq::<Acknowledgement>::empty());
        assert(acknowledgement_frames(acks.take(0)) =~= Seq::empty());
        assert(f0 + acknowledgement_frames(acks.take(0)) =~= f0);
        while self.acknowledgements.len() > 0 && d.frames.len() < 32 && d.buffers < 65 && (
        self.mtu as usize).wrapping_sub(d.packet_size) >= 8
            invariant
                0 <= k <= acks.len(),
                self.acknowledgements@ == acks.skip(k as int),
                forall|j: int|
                    0 <= j < k ==> #[trigger] ack_room_at(d0.frames@.len() as int, d0.buffers as int, d0.packet_size as int, p0.mtu, j),
                frames_view(d.frames@) == f0 + acknowledgement_frames(acks.take(k as int)),
                f0 == frames_view(d0.frames@),
                d.buffers == d0.buffers + k,
                d.packet_size == d0.packet_size + 8 * k,
                d.header_flags == d0.header_flags,
                d0.buffers < 4096,
                d0.packet_size < 65536,
                d0.frames@.len() < 4096,
                d.frames@.len() == d0.frames@.len() + k,
                d0.frames@.len() <= 32 ==> d.frames@.len() <= 32,
                d0.buffers <= 65 ==> d.buffers <= 65,
                zombie == any_disconnect(acks.take(k as int)),
                *self == (Peer {
                    acknowledgements: self.acknowledgements,
                    flags: if zombie {
                        p0.flags | PEER_FLAG_NEEDS_DISPATCH
                    } else {
                        p0.flags
                    },
                    state: if zombie {
                        PeerState::Zombie
                    } else {
                        p0.state
                    },
                    ..p0
                }),
                counters_follow(
                    p0,
                    *self,
                    *old(connected_peers),
                    *old(bandwidth_limited_peers),
                    *connected_peers,
                    *bandwidth_limited_peers,
                ),
                counters_room(p0, *old(connected_peers), *old(bandwidth_limited_peers)),
            decreases acks.len() - k,
        {
            assert(self.acknowledgements@[0] == acks[k as int]);
            assert(ack_room_at(d0.frames@.len() as int, d0.buffers as int, d0.packet_size as int, p0.mtu, k as int));
            let a = self.acknowledgements.remove(0);
            let rsn = a.command.reliable_sequence_number;
            let pc = ProtocolCommand {
                command: PROTOCOL_COMMAND_ACKNOWLEDGE,
                channel_id: a.command.channel_id,
                reliable_sequence_number: rsn,
                body: Command::Acknowledge {
                    received_reliable_sequence_number: rsn,
                    received_sent_time: (a.sent_time % 65536) as u16,
                },
            };
            let ghost fv = frames_view(d.frames@);
            d.frames.push(OutgoingFrame { command: pc, payload: Vec::new() });
            d.buffers = d.buffers + 1;
            d.packet_size = d.packet_size + 8;
            proof {
                assert(acks.take(k + 1) =~= acks.take(k as int).push(a));
                assert(acknowledgement_frames(acks.take(k + 1)) =~= acknowledgement_frames(
                    acks.take(k as int),
                ).push((acknowledgement_command(a), Seq::<u8>::empty())));
                assert(frames_view(d.frames@) =~= fv.push((pc, Seq::<u8>::empty())));
                assert(self.acknowledgements@ =~= acks.skip(k + 1));
            }
            if a.command.command & 15 == PROTOCOL_COMMAND_DISCONNECT {
                self.dispatch_state(PeerState::Zombie, connected_peers, bandwidth_limited_peers);
                proof {
                    let f = p0.flags;
                    assert((f | 1u16) | 1u16 == f | 1u16) by (bit_vector);
                    assert(acknowledges_disconnect(acks.take(k + 1)[k as int]));
                }
                zombie = true;
            } else {
                assert(any_disconnect(acks.take(k + 1)) == any_disconnect(acks.take(k as int)))
                    by {
                    if any_disconnect(acks.take(k + 1)) {
                        let j = choose|j: int| 0 <= j < k + 1 && #[trigger] acknowledges_disconnect(acks.take(k + 1)[j]);
                        assert(j < k);
                        assert(acks.take(k as int)[j] == acks.take(k + 1)[j]);
                    }
                    if any_disconnect(acks.take(k as int)) {
                        let j = choose|j: int| 0 <= j < k && #[trigger] acknowledges_disconnect(acks.take(k as int)[j]);
                        assert(acks.take(k as int)[j] == acks.take(k + 1)[j]);
                    }
                }
            }
            k = k + 1;
        }
        if self.acknowledgements.len() > 0 {
            self.flags = self.flags | PEER_FLAG_CONTINUE_SENDING;
        }
        assert(acknowledgements_sent(p0, *self, d0, *d, k as int));
    }
}

/// The size of the command that command byte `command` stands for, 0 for none.
fn size_of_command(command: u8) -> (n: usize)
    ensures
        n == command_size_of(command & 15),
        n <= 48,
{
    if command & 15 < 13 {
        enet_protocol_command_size(command)
    } else {
        0
    }
}

/// The reliable windows marked in `used` that stop a command of window `w` from opening a
/// new window: `w` itself and the windows around it.
fn window_blocked(used: u16, w: u16) -> (b: bool)
    requires
        w < 16,
    ensures
        b == ((used as u32) & ((1023u32 << (w as u32)) | (1023u32 >> ((16 - w) as u32))) != 0),
{
    let mask: u32 = (1023u32 << (w as u32)) | (1023u32 >> ((16 - w) as u32));
    (used as u32) & mask != 0
}

/// The frame that sends command `c`: its protocol command, with its data when it carries
/// packet data.
pub open spec fn command_frame(c: OutgoingCommand) -> (ProtocolCommand, Seq<u8>) {
    (c.command, if c.has_packet {
        c.payload@
    } else {
        Seq::empty()
    })
}

fn frame_of(c: &OutgoingCommand) -> (f: OutgoingFrame)
    ensures
        f.command == c.command,
        f.payload@ == command_frame(*c).1,
{
    if c.has_packet {
        let mut payload: Vec<u8> = Vec::new();
        let mut i: usize = 0;
        while i < c.payload.len()
            invariant
                i <= c.payload@.len(),
                payload@ == c.payload@.take(i as int),
            decreases c.payload@.len() - i,
        {
            payload.push(c.payload[i]);
            assert(c.payload@.take(i + 1) =~= c.payload@.take(i as int).push(c.payload@[i as int]));
            i = i + 1;
        }
        assert(c.payload@.take(c.payload@.len() as int) =~= c.payload@);
        OutgoingFrame { command: c.command, payload }
    } else {
        OutgoingFrame { command: c.command, payload: Vec::new() }
    }
}

/// The most reliable data that peer `p` may have in transit: its window under its packet
/// throttle, but at least its MTU.
pub open spec fn transit_limit(p: Peer) -> u32 {
    let w = (p.packet_throttle.wrapping_mul(p.window_size) / PEER_PACKET_THROTTLE_SCALE) as u32;
    if w > p.mtu {
        w
    } else {
        p.mtu
    }
}

/// Whether command `c` carries a fragment no longer than the protocol's largest MTU, and
/// none when it carries no packet.
pub open spec fn fragment_fits(c: OutgoingCommand) -> bool {
    &&& c.fragment_length <= PROTOCOL_MAXIMUM_MTU
    &&& !c.has_packet ==> c.fragment_length == 0
}

/// Whether the first command queued by peer `p`, with no reliable command waiting to be
/// sent again, is a control command that asks for acknowledgement, on no channel of the
/// peer and with no packet, and datagram `d` has room for it.
pub open spec fn control_first_fits(p: Peer, d: Datagram) -> bool {
    &&& p.outgoing_commands@.len() > 0
    &&& p.outgoing_send_reliable_commands@.len() == 0
    &&& {
        let c = p.outgoing_commands@[0];
        &&& c.command.command & PROTOCOL_COMMAND_FLAG_ACKNOWLEDGE != 0
        &&& !c.has_packet
        &&& c.command.channel_id >= p.channels@.len()
        &&& d.frames@.len() < 32
        &&& d.buffers + 1 < 65
        &&& d.packet_size + command_size_of(c.command.command & 15) <= p.mtu
    }
}

/// Whether every command queued by peer `p` has a fitting fragment (see [`fragment_fits`]).
pub open spec fn fragments_fit(p: Peer) -> bool {
    &&& forall|i: int| 0 <= i < p.outgoing_commands@.len() ==> fragment_fits(#[trigger] p.outgoing_commands@[i])
    &&& forall|i: int|
        0 <= i < p.outgoing_send_reliable_commands@.len() ==> fragment_fits(#[trigger] p.outgoing_send_reliable_commands@[i])
}

/// A command of `cs` bytes with a fragment of `fl` bytes (when it carries a packet) that
/// passes the room check of a datagram of `packet_size` bytes for an MTU of `mtu` keeps the
/// datagram within the MTU.
proof fn lemma_room(packet_size: usize, mtu: u32, cs: usize, fl: usize, packet: bool)
    requires
        packet_size <= mtu <= PROTOCOL_MAXIMUM_MTU,
        cs <= 48,
        fl <= PROTOCOL_MAXIMUM_MTU,
        !((mtu as usize).wrapping_sub(packet_size) < cs),
        !(packet && ((((mtu as usize).wrapping_sub(packet_size)) % 65536) as u16) < (((cs + fl) % 65536) as u16)),
    ensures
        packet_size + cs + (if packet { fl } else { 0 }) <= mtu,
{
    let room = (mtu as usize).wrapping_sub(packet_size);
    assert(room == mtu - packet_size);
    assert(room % 65536 == room);
    assert((cs + fl) % 65536 == cs + fl);
}

impl Peer {
    /// Put the commands waiting in the peer's queues into datagram `d`, in the order they
    /// were queued. A command that asks for acknowledgement waits while its reliable
    /// window cannot be opened (and, from then on, every such command on a channel waits)
    /// or while its data would exceed the window of data in transit; once sent it moves
    /// to the sent reliable commands with its time out set. An unreliable packet is dropped,
    /// with its other fragments, when the packet throttle says so; one that is sent goes
    /// to `sent_unreliable`. Filling stops, with the peer marked to continue sending, at a
    /// command for which the datagram has no room. A peer that is to disconnect later does
    /// so once nothing is left. Returns whether the peer may be pinged: no command asking
    /// for acknowledgement went out or waits on the throttle.
    #[verifier::spinoff_prover]
    #[verifier::rlimit(50)]
    pub fn check_outgoing_commands(
        &mut self,
        service_time: u32,
        d: &mut Datagram,
        sent_unreliable: &mut Vec<OutgoingCommand>,
        total_queued: &mut u32,
        connected_peers: &mut usize,
        bandwidth_limited_peers: &mut usize,
    ) -> (can_ping: bool)
        requires
            counters_room(*old(self), *old(connected_peers), *old(bandwidth_limited_peers)),
            old(d).buffers <= 65,
            old(d).packet_size <= 4000000,
            old(d).frames@.len() <= 32,
        ensures
            same_link(*old(self), *final(self)),
            keeps_identity(*old(self), *final(self)),
            frames_view(final(d).frames@).take(old(d).frames@.len() as int) == frames_view(
                old(d).frames@,
            ),
            final(d).buffers <= 65,
            final(d).packet_size <= old(d).packet_size + 32 * 65583,
            final(d).frames@.len() <= 32,
            final(self).sent_reliable_commands@.take(old(self).sent_reliable_commands@.len() as int)
                == old(self).sent_reliable_commands@,
            final(sent_unreliable)@.take(old(sent_unreliable)@.len() as int) == old(sent_unreliable)@,
            can_ping ==> final(self).sent_reliable_commands@.len() == old(self).sent_reliable_commands@.len(),
            old(d).packet_size <= old(self).mtu <= PROTOCOL_MAXIMUM_MTU && fragments_fit(*old(self))
                ==> final(d).packet_size <= old(self).mtu,
            final(self).flags & PEER_FLAG_CONTINUE_SENDING == 0 && final(self).state == old(self).state ==> forall|k: int|
                0 <= k < final(self).outgoing_commands@.len()
                    ==> #[trigger] final(self).outgoing_commands@[k].command.command & PROTOCOL_COMMAND_FLAG_ACKNOWLEDGE != 0,
            fragments_fit(*old(self)) ==> final(self).reliable_data_in_transit <= old(self).reliable_data_in_transit
                || final(self).reliable_data_in_transit <= transit_limit(*old(self)),
            control_first_fits(*old(self), *old(d)) ==> final(d).frames@.len() > old(d).frames@.len()
                && frames_view(final(d).frames@)[old(d).frames@.len() as int] == command_frame(
                old(self).outgoing_commands@[0],
            ),
            counters_follow(
                *old(self),
                *final(self),
                *old(connected_peers),
                *old(bandwidth_limited_peers),
                *final(connected_peers),
                *final(bandwidth_limited_peers),
            ),
    {
        let ghost p0 = *self;
        let ghost d0 = *d;
        let ghost su0 = sent_unreliable@;
        let mut out: Vec<OutgoingCommand> = Vec::new();
        core::mem::swap(&mut out, &mut self.outgoing_commands);
        let mut rel: Vec<OutgoingCommand> = Vec::new();
        core::mem::swap(&mut rel, &mut self.outgoing_send_reliable_commands);
        let mut out_kept: Vec<OutgoingCommand> = Vec::new();
        let mut rel_kept: Vec<OutgoingCommand> = Vec::new();
        let mut rel_open = true;
        let mut window_wrap = false;
        let mut can_ping = true;
        let ghost f0 = frames_view(d.frames@);
        assert(frames_view(d.frames@).take(d0.frames@.len() as int) =~= f0);
        assert(self.sent_reliable_commands@.take(p0.sent_reliable_commands@.len() as int) =~= p0.sent_reliable_commands@);
        assert(sent_unreliable@.take(su0.len() as int) =~= su0);
        let ghost mut first_taken = false;
        loop
            invariant
                !first_taken ==> out@ == p0.outgoing_commands@ && rel@ == p0.outgoing_send_reliable_commands@
                    && *d == d0 && !window_wrap && self.channels@.len() == p0.channels@.len(),
                first_taken && control_first_fits(p0, d0) ==> d.frames@.len() > d0.frames@.len()
                    && frames_view(d.frames@)[d0.frames@.len() as int] == command_frame(p0.outgoing_commands@[0]),
                d.buffers <= 65,
                d.packet_size <= d0.packet_size + (d.frames@.len() - d0.frames@.len()) * 65583,
                d0.packet_size <= 4000000,
                d.frames@.len() <= 32,
                d0.frames@.len() <= d.frames@.len(),
                frames_view(d.frames@).take(d0.frames@.len() as int) == f0,
                f0 == frames_view(d0.frames@),
                self.mtu == p0.mtu,
                p0.sent_reliable_commands@.len() <= self.sent_reliable_commands@.len(),
                self.sent_reliable_commands@.take(p0.sent_reliable_commands@.len() as int)
                    == p0.sent_reliable_commands@,
                su0.len() <= sent_unreliable@.len(),
                sent_unreliable@.take(su0.len() as int) == su0,
                can_ping ==> self.sent_reliable_commands@.len() == p0.sent_reliable_commands@.len(),
                self.state == p0.state,
                self.incoming_bandwidth == p0.incoming_bandwidth,
                same_link(p0, *self),
                self.packet_throttle == p0.packet_throttle,
                self.window_size == p0.window_size,
                fragments_fit(p0) ==> self.reliable_data_in_transit <= p0.reliable_data_in_transit
                    || self.reliable_data_in_transit <= transit_limit(p0),
                fragments_fit(p0) ==> forall|i: int| 0 <= i < out@.len() ==> fragment_fits(#[trigger] out@[i]),
                fragments_fit(p0) ==> forall|i: int| 0 <= i < rel@.len() ==> fragment_fits(#[trigger] rel@[i]),
                d0.packet_size <= p0.mtu <= PROTOCOL_MAXIMUM_MTU && fragments_fit(p0) ==> d.packet_size <= p0.mtu,
                self.flags & PEER_FLAG_CONTINUE_SENDING == 0 ==> forall|k: int|
                    0 <= k < out_kept@.len() ==> #[trigger] out_kept@[k].command.command & PROTOCOL_COMMAND_FLAG_ACKNOWLEDGE != 0,
                self.index == p0.index,
                self.incoming_peer_id == p0.incoming_peer_id,
                self.channels@.len() == p0.channels@.len(),
                *connected_peers == *old(connected_peers),
                *bandwidth_limited_peers == *old(bandwidth_limited_peers),
            ensures
                self.flags & PEER_FLAG_CONTINUE_SENDING == 0 ==> out@.len() == 0,
                control_first_fits(p0, d0) ==> d.frames@.len() > d0.frames@.len()
                    && frames_view(d.frames@)[d0.frames@.len() as int] == command_frame(p0.outgoing_commands@[0]),
            decreases out@.len() + rel@.len(),
        {
            let from_rel: bool;
            if out.len() > 0 {
                from_rel = rel_open && rel.len() > 0 && rel[0].queue_time.wrapping_sub(
                    out[0].queue_time,
                ) >= 86400000;
            } else {
                if !rel_open || rel.len() == 0 {
                    break;
                }
                from_rel = true;
            }
            let ghost first = !first_taken;
            let mut c = if from_rel {
                rel.remove(0)
            } else {
                out.remove(0)
            };
            proof {
                if first && control_first_fits(p0, d0) {
                    assert(!from_rel);
                    assert(c == p0.outgoing_commands@[0]);
                }
                first_taken = true;
            }
            assert(fragments_fit(p0) ==> fragment_fits(c));
            let acknowledged = c.command.command & PROTOCOL_COMMAND_FLAG_ACKNOWLEDGE != 0;
            let cid = c.command.channel_id as usize;
            let has_channel = cid < self.channels.len();
            let w: u16 = c.reliable_sequence_number / 4096;
            if acknowledged {
                if has_channel {
                    if window_wrap {
                        if from_rel {
                            rel_kept.push(c);
                        } else {
                            out_kept.push(c);
                        }
                        continue;
                    }
                    let previous = self.channels[cid].reliable_windows[((w + 15) % 16) as usize];
                    if c.send_attempts < 1 && c.reliable_sequence_number % 4096 == 0 && (previous
                        >= 4096 || window_blocked(self.channels[cid].used_reliable_windows, w)) {
                        window_wrap = true;
                        rel_open = false;
                        if from_rel {
                            rel_kept.push(c);
                        } else {
                            out_kept.push(c);
                        }
                        continue;
                    }
                }
                if c.has_packet {
                    let window_size = self.packet_throttle.wrapping_mul(self.window_size)
                        / PEER_PACKET_THROTTLE_SCALE;
                    let limit = if window_size > self.mtu {
                        window_size
                    } else {
                        self.mtu
                    };
                    if self.reliable_data_in_transit.wrapping_add(c.fragment_length as u32)
                        > limit {
                        rel_open = false;
                        if from_rel {
                            rel_kept.push(c);
                        } else {
                            out_kept.push(c);
                        }
                        continue;
                    }
                }
                can_ping = false;
            }
            let command_size = size_of_command(c.command.command);
            let room = (self.mtu as usize).wrapping_sub(d.packet_size);
            if d.frames.len() >= 32 || d.buffers + 1 >= 65 || room < command_size || (c.has_packet
                && ((room % 65536) as u16) < (((command_size + c.fragment_length as usize) % 65536) as u16)) {
                let ghost f0 = self.flags;
                self.flags = self.flags | PEER_FLAG_CONTINUE_SENDING;
                assert((f0 | 2u16) & 2u16 != 0) by (bit_vector);
                if from_rel {
                    rel_kept.push(c);
                } else {
                    out_kept.push(c);
                }
                break;
            }
            proof {
                if d0.packet_size <= p0.mtu <= PROTOCOL_MAXIMUM_MTU && fragments_fit(p0) {
                    lemma_room(d.packet_size, self.mtu, command_size, c.fragment_length as usize, c.has_packet);
                }
            }
            if acknowledged {
                if has_channel && c.send_attempts < 1 {
                    let mut ch = self.channels.remove(cid);
                    ch.used_reliable_windows = ch.used_reliable_windows | (1u16 << w);
                    ch.reliable_windows[w as usize] = ch.reliable_windows[w as usize].wrapping_add(1);
                    self.channels.insert(cid, ch);
                }
                c.send_attempts = c.send_attempts.wrapping_add(1);
                if c.round_trip_timeout == 0 {
                    c.round_trip_timeout = self.round_trip_time.wrapping_add(
                        4u32.wrapping_mul(self.round_trip_time_variance),
                    );
                }
                if self.sent_reliable_commands.len() == 0 {
                    self.next_timeout = service_time.wrapping_add(c.round_trip_timeout);
                }
                c.sent_time = service_time;
                d.header_flags = d.header_flags | PROTOCOL_HEADER_FLAG_SENT_TIME;
                self.reliable_data_in_transit = self.reliable_data_in_transit.wrapping_add(
                    c.fragment_length as u32,
                );
                let frame = frame_of(&c);
                let packet = c.has_packet;
                let fl = c.fragment_length as usize;
                let ghost sr = self.sent_reliable_commands@;
                self.sent_reliable_commands.push(c);
                assert(self.sent_reliable_commands@.take(p0.sent_reliable_commands@.len() as int)
                    =~= sr.take(p0.sent_reliable_commands@.len() as int));
                let ghost fv = frames_view(d.frames@);
                d.frames.push(frame);
                assert(frames_view(d.frames@).take(d0.frames@.len() as int) =~= fv.take(d0.frames@.len() as int));
                d.buffers = d.buffers + if packet {
                    2
                } else {
                    1
                };
                d.packet_size = d.packet_size + command_size + if packet {
                    fl
                } else {
                    0
                };
            } else {
                if c.has_packet && c.fragment_offset == 0 {
                    self.packet_throttle_counter = self.packet_throttle_counter.wrapping_add(7)
                        % PEER_PACKET_THROTTLE_SCALE;
                    if self.packet_throttle_counter > self.packet_throttle {
                        let rsn = c.reliable_sequence_number;
                        let usn = c.unreliable_sequence_number;
                        let ghost n_before = out@.len();
                        while out.len() > 0 && out[0].reliable_sequence_number == rsn
                            && out[0].unreliable_sequence_number == usn
                            invariant
                                out@.len() <= n_before,
                                fragments_fit(p0) ==> forall|i: int| 0 <= i < out@.len() ==> fragment_fits(#[trigger] out@[i]),
                            decreases out@.len(),
                        {
                            out.remove(0);
                        }
                        continue;
                    }
                }
                let frame = frame_of(&c);
                let packet = c.has_packet;
                let fl = c.fragment_length as usize;
                if packet {
                    let ghost su = sent_unreliable@;
                    sent_unreliable.push(c);
                    assert(sent_unreliable@.take(su0.len() as int) =~= su.take(su0.len() as int));
                }
                let ghost fv = frames_view(d.frames@);
                d.frames.push(frame);
                assert(frames_view(d.frames@).take(d0.frames@.len() as int) =~= fv.take(d0.frames@.len() as int));
                d.buffers = d.buffers + if packet {
                    2
                } else {
                    1
                };
                d.packet_size = d.packet_size + command_size + if packet {
                    fl
                } else {
                    0
                };
            }
            self.packets_sent = self.packets_sent.wrapping_add(1);
        }
        let ghost kept_view = out_kept@;
        let ghost rest_view = out@;
        out_kept.append(&mut out);
        proof {
            assert(self.flags & PEER_FLAG_CONTINUE_SENDING == 0 ==> rest_view.len() == 0);
            assert(out_kept@ =~= kept_view + rest_view);
        }
        self.outgoing_commands = out_kept;
        rel_kept.append(&mut rel);
        self.outgoing_send_reliable_commands = rel_kept;
        if self.state == PeerState::DisconnectLater && !self.has_outgoing_commands()
            && sent_unreliable.len() == 0 {
            let data = self.event_data;
            self.disconnect(total_queued, data, connected_peers, bandwidth_limited_peers);
        }
        can_ping
    }
}

} // verus!
