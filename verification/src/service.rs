//! Servicing a host over its socket: sending each peer the datagram its queues fill,
//! receiving datagrams and handing their commands to the peers they come from, and
//! dispatching the events this leads to.
use vstd::prelude::*;
use crate::compressor::Compressor;
use crate::address::Address;
use crate::control::{counted, counters_room, keeps_identity, limited, same_link};
use crate::crc32::{buffers_bytes, crc32, crc32_of};
use crate::protocol::{u32_at, u32_bytes};
use crate::event::Event;
use crate::dispatch::dispatch_quiet;
use crate::host::{lemma_count_bounds, lemma_peer_step, Host};
use crate::os::{be32, htonl};
use crate::peer::{counts_as_connected, time_diff, time_difference, Acknowledgement, Peer, PeerState, PEER_FLAG_CONTINUE_SENDING, PEER_FLAG_NEEDS_DISPATCH};
use crate::outgoing::{copy_range, packet_sent};
use crate::error::PeerSendError;
use crate::protocol::{
    body_number, body_number_of, header_of, command_number, commands_at, encode_frames, encode_header, lemma_commands_at_facts,
    parse_commands, parse_header, payload_length, payload_ok, push_u32, read_u32,
    received_view, well_formed, Command, ProtocolCommand, ProtocolHeader,
    PROTOCOL_COMMAND_CONNECT, PROTOCOL_COMMAND_DISCONNECT, PROTOCOL_COMMAND_FLAG_ACKNOWLEDGE,
    PROTOCOL_HEADER_FLAG_COMPRESSED, PROTOCOL_HEADER_FLAG_SENT_TIME,
};
use crate::sending::{acknowledgements_sent, Datagram};
use crate::timeouts::timeouts_checked;
use crate::acknowledge::acknowledgement_held_back;
use crate::peer_api::same_host_view;
use crate::handlers::{disconnect_notified, Reaction};
use crate::protocol::{frame_ok, frames_bytes, frames_received, frames_view, header_peer_field, law_frames_roundtrip, law_header_roundtrip, u16_bytes, PROTOCOL_HEADER_FLAG_MASK};
use crate::packet::Packet;
use crate::consts::{PROTOCOL_MAXIMUM_MTU, PROTOCOL_MINIMUM_MTU};
use crate::socket::{received_length, Socket};
use crate::consts::HOST_BANDWIDTH_THROTTLE_INTERVAL;

verus! {

/// Whether an event waits in host `h`: its dispatch queue holds a peer that is not quiet
/// (see [`dispatch_quiet`]).
pub open spec fn event_waiting<A: Address, Z: Compressor>(h: Host<A, Z>) -> bool {
    exists|j: int|
        0 <= j < h.dispatch_queue@.len() && !dispatch_quiet(#[trigger] h.peers@[h.dispatch_queue@[j] as int])
}

/// The bytes of a datagram for peer `p` with header flags `flags`, sent at `service_time`,
/// carrying `frames`, with neither compression nor checksum: the peer field (the peer's
/// outgoing id, the flags and its session), the time of sending when the field's flag
/// bits ask for it, then each command and its payload.
pub open spec fn plain_datagram(
    p: Peer,
    flags: u16,
    service_time: u32,
    frames: Seq<(ProtocolCommand, Seq<u8>)>,
) -> Seq<u8> {
    let sent_flags = if p.outgoing_peer_id < 4095 {
        flags | (((p.outgoing_session_id as u16) << 12u16) as u16)
    } else {
        flags
    };
    u16_bytes(header_peer_field(p.outgoing_peer_id, flags, p.outgoing_session_id)) + (if sent_flags
        & PROTOCOL_HEADER_FLAG_SENT_TIME != 0 {
        u16_bytes((service_time % 65536) as u16)
    } else {
        Seq::empty()
    }) + frames_bytes(frames)
}

/// A datagram reads back as it was sent: for a peer that knows its remote id and holds a
/// session of the protocol, the header of the bytes of a plain datagram gives the peer id,
/// the session, the header flags and, when the flags carry it, the time of sending; and the
/// commands read after the header are the frames sent, each with where its payload lies.
#[verifier::spinoff_prover]
pub proof fn law_plain_datagram_roundtrip(
    p: Peer,
    flags: u16,
    service_time: u32,
    frames: Seq<(ProtocolCommand, Seq<u8>)>,
    maximum_packet_size: int,
)
    requires
        p.outgoing_peer_id < 4095,
        p.outgoing_session_id < 4,
        flags & !PROTOCOL_HEADER_FLAG_MASK == 0,
        forall|i: int| 0 <= i < frames.len() ==> frame_ok(#[trigger] frames[i], maximum_packet_size),
    ensures
        ({
            let bytes = plain_datagram(p, flags, service_time, frames);
            let h = header_of(bytes, false);
            &&& h is Some
            &&& h->0.peer_id == p.outgoing_peer_id
            &&& h->0.session_id == p.outgoing_session_id
            &&& h->0.flags == flags
            &&& flags & PROTOCOL_HEADER_FLAG_SENT_TIME != 0 ==> h->0.sent_time == service_time % 65536
            &&& commands_at(bytes, h->0.header_size as int, maximum_packet_size) == frames_received(
                frames,
                h->0.header_size as int,
            )
        }),
{
    let id = p.outgoing_peer_id;
    let sess = p.outgoing_session_id;
    let s16 = sess as u16;
    assert((flags | ((s16 << 12u16) as u16)) & 0x8000u16 == flags & 0x8000u16) by (bit_vector)
        requires
            s16 < 4,
    ;
    let has_time = flags & PROTOCOL_HEADER_FLAG_SENT_TIME != 0;
    let sent = (service_time % 65536) as u16;
    let rest = frames_bytes(frames);
    let head = u16_bytes(header_peer_field(id, flags, sess)) + if has_time {
        u16_bytes(sent)
    } else {
        Seq::empty()
    };
    law_header_roundtrip(id, flags, sess, sent, rest, false);
    assert(plain_datagram(p, flags, service_time, frames) =~= head + rest);
    law_frames_roundtrip(head, frames, maximum_packet_size);
}

/// Whether host `h` drops a datagram `data` from `received` on its header alone: the
/// datagram is too short for a header, or it names a peer that the host does not have,
/// that is disconnected or a zombie, that is at another address (unless the peer's address
/// is a broadcast one), or whose session differs.
pub open spec fn header_refused<A: Address, Z: Compressor>(h: Host<A, Z>, received: A, data: Seq<u8>) -> bool {
    match header_of(data, h.checksum) {
        None => true,
        Some(hd) => hd.peer_id != 4095 && {
            let pid = hd.peer_id as int;
            pid >= h.peers@.len() || {
                let p = h.peers@[pid];
                ||| p.state == PeerState::Disconnected
                ||| p.state == PeerState::Zombie
                ||| !(match h.addresses@[pid] {
                    Some(a) => received.spec_same(&a) || a.spec_is_broadcast(),
                    None => false,
                })
                ||| (p.outgoing_peer_id < 4095 && hd.session_id != p.incoming_session_id)
            }
        },
    }
}

impl<A: Address, Z: Compressor> Host<A, Z> {
    /// Keep the dispatch queue in step with the dispatch mark of peer `i`, which was
    /// `before`: a newly marked peer joins the end of the queue, a peer no longer marked
    /// leaves it.
    pub(crate) fn sync_dispatch(&mut self, i: usize, before: u16)
        requires
            i < old(self).peers@.len(),
            forall|j: int|
                0 <= j < old(self).dispatch_queue@.len() ==> #[trigger] old(self).dispatch_queue@[j]
                    < old(self).peers@.len(),
        ensures
            forall|j: int|
                0 <= j < final(self).dispatch_queue@.len() ==> #[trigger] final(self).dispatch_queue@[j]
                    < final(self).peers@.len(),
            *final(self) == (Host { dispatch_queue: final(self).dispatch_queue, ..*old(self) }),
            (old(self).peers@[i as int].flags & PEER_FLAG_NEEDS_DISPATCH == 0) == (before
                & PEER_FLAG_NEEDS_DISPATCH == 0) ==> *final(self) == *old(self),
            before & PEER_FLAG_NEEDS_DISPATCH == 0 && old(self).peers@[i as int].flags & PEER_FLAG_NEEDS_DISPATCH
                != 0 ==> final(self).dispatch_queue@ == old(self).dispatch_queue@.push(i),
            before & PEER_FLAG_NEEDS_DISPATCH != 0 && old(self).peers@[i as int].flags & PEER_FLAG_NEEDS_DISPATCH
                == 0 ==> final(self).dispatch_queue@ == old(self).dispatch_queue@.filter(|x: usize| x != i),
    {
        let now = self.peers[i].flags & PEER_FLAG_NEEDS_DISPATCH;
        let was = before & PEER_FLAG_NEEDS_DISPATCH;
        if was == 0 && now != 0 {
            self.dispatch_queue.push(i);
        } else if was != 0 && now == 0 {
            let mut kept: Vec<usize> = Vec::new();
            let mut k: usize = 0;
            while k < self.dispatch_queue.len()
                invariant
                    k <= self.dispatch_queue@.len(),
                    *self == *old(self),
                    forall|j: int|
                        0 <= j < self.dispatch_queue@.len() ==> #[trigger] self.dispatch_queue@[j]
                            < self.peers@.len(),
                    forall|j: int| 0 <= j < kept@.len() ==> #[trigger] kept@[j] < self.peers@.len(),
                    kept@ == self.dispatch_queue@.take(k as int).filter(|x: usize| x != i),
                decreases self.dispatch_queue@.len() - k,
            {
                proof {
                    let q = self.dispatch_queue@;
                    assert(q.take(k + 1).drop_last() =~= q.take(k as int));
                    reveal_with_fuel(Seq::filter, 1);
                }
                if self.dispatch_queue[k] != i {
                    kept.push(self.dispatch_queue[k]);
                }
                k = k + 1;
            }
            proof {
                assert(self.dispatch_queue@.take(k as int) =~= self.dispatch_queue@);
            }
            self.dispatch_queue = kept;
        }
    }

    /// The bytes of the datagram `d` for peer `i`: the header (the peer's outgoing id with
    /// the header flags and its session, and the time of sending when the flags ask for
    /// it), the checksum when the host uses one, then the commands with their payloads,
    /// compressed when the host has a compressor and that makes them shorter. The checksum
    /// covers the header and the commands before compression.
    pub(crate) fn datagram_bytes(&mut self, i: usize, d: &Datagram) -> (bytes: Vec<u8>)
        requires
            i < old(self).peers@.len(),
        ensures
            old(self).compressor is None ==> final(self).compressor is None,
            *final(self) == (Host { compressor: final(self).compressor, ..*old(self) }),
            old(self).compressor is None && !old(self).checksum ==> bytes@ == plain_datagram(
                old(self).peers@[i as int],
                d.header_flags,
                old(self).service_time,
                frames_view(d.frames@),
            ),
    {
        let mut body: Vec<u8> = Vec::new();
        encode_frames(&d.frames, &mut body);
        let mut header_flags = d.header_flags;
        let mut packed: Option<Vec<u8>> = None;
        match &mut self.compressor {
            Some(c) => {
                let plain = body.len();
                let mut out: Vec<u8> = vec![0u8; plain];
                let n = c.compress(vec![body.as_slice()], plain, out.as_mut_slice());
                if n > 0 && n < plain && n <= out.len() {
                    out.truncate(n);
                    header_flags = header_flags | PROTOCOL_HEADER_FLAG_COMPRESSED;
                    packed = Some(out);
                }
            },
            None => {},
        }
        let peer = &self.peers[i];
        if peer.outgoing_peer_id < 4095 {
            header_flags = header_flags | (((peer.outgoing_session_id as u16) << 12u16) as u16);
        }
        let mut header: Vec<u8> = Vec::new();
        encode_header(peer.outgoing_peer_id, header_flags, 0, self.service_time, &mut header);
        proof {
            let id = peer.outgoing_peer_id;
            let f0 = d.header_flags;
            let sess = peer.outgoing_session_id;
            if packed is None {
                if id < 4095 {
                    assert(header_flags == f0 | (((sess as u16) << 12u16) as u16));
                    assert(id | ((f0 | (((sess as u16) << 12u16) as u16)) | ((0u8 as u16) << 12u16)) == id
                        | (f0 | ((sess as u16) << 12u16))) by (bit_vector);
                } else {
                    assert(header_flags == f0);
                }
            }
        }
        if self.checksum {
            let seed = if peer.outgoing_peer_id < 4095 {
                peer.connect_id
            } else {
                0
            };
            let mut slot = header.clone();
            push_u32(&mut slot, htonl(seed));
            let c = crc32(vec![slot.as_slice(), body.as_slice()]);
            push_u32(&mut header, htonl(c));
        }
        match packed {
            Some(mut p) => header.append(&mut p),
            None => header.append(&mut body),
        }
        header
    }
}

/// The time since peer `p` was last heard from, at service time `t`.
pub open spec fn time_since_receive(p: Peer, t: u32) -> u32 {
    if t.wrapping_sub(p.last_receive_time) >= 86400000 {
        p.last_receive_time.wrapping_sub(t)
    } else {
        t.wrapping_sub(p.last_receive_time)
    }
}

/// Whether peer `p` has nothing to put in a datagram of `packet_size` bytes at service time
/// `t`: no queued commands, and no ping due, as it has reliable commands outstanding, was
/// heard from within its ping interval, or the datagram has no room for a ping.
pub open spec fn nothing_to_fill(p: Peer, t: u32, packet_size: usize) -> bool {
    &&& p.outgoing_commands@.len() == 0
    &&& p.outgoing_send_reliable_commands@.len() == 0
    &&& (p.sent_reliable_commands@.len() != 0 || time_since_receive(p, t) < p.ping_interval || (
    p.mtu as usize).wrapping_sub(packet_size) < 4)
}

/// Whether datagram `data`, with a header of `hs` bytes ending in its checksum, carries the
/// checksum of a host that seeds it with `seed`: the CRC-32 of the datagram with the seed
/// in place of the checksum.
pub open spec fn checksum_matches(seed: u32, data: Seq<u8>, hs: int) -> bool {
    &&& 4 <= hs <= data.len()
    &&& be32(be32(crc32_of(data.take(hs - 4) + u32_bytes(be32(seed)) + data.skip(hs)))) == u32_at(data, hs - 4)
}

/// Whether peer `p` is neither disconnected nor a zombie.
pub open spec fn is_live(p: Peer) -> bool {
    !(p.state == PeerState::Disconnected || p.state == PeerState::Zombie)
}

/// Whether host `h0` became `h1` by handing its socket datagrams, each to the address of
/// one of its peers that is neither disconnected nor a zombie: those handed before stay
/// as they were, and each new one went to a copy of such a peer's address.
pub open spec fn sent_to_live_peers<A: Clone, Z>(h0: Host<A, Z>, h1: Host<A, Z>, time: u32) -> bool {
    &&& h0.sent@.len() <= h1.sent@.len()
    &&& h1.sent@.take(h0.sent@.len() as int) == h0.sent@
    &&& forall|k: int|
        h0.sent@.len() <= k < h1.sent@.len() ==> sent_to_live_peer(
            h0.peers@,
            h0.addresses@,
            #[trigger] h1.sent@[k],
            time,
            h0.compressor is None && !h0.checksum,
        )
}

/// Whether datagram `entry` went to a copy of the address, among `addresses`, of one of
/// `peers` that is neither disconnected nor a zombie, and, when datagrams are `plain` (no
/// compression, no checksum), is a plain datagram for that peer at time `time`.
pub open spec fn sent_to_live_peer<A: Clone>(
    peers: Seq<Peer>,
    addresses: Seq<Option<A>>,
    entry: (A, Seq<u8>),
    time: u32,
    plain: bool,
) -> bool {
    exists|j: int|
        0 <= j < peers.len() && is_live(peers[j]) && #[trigger] sent_to_peer_address(addresses, j, entry.0) && (
        plain ==> datagram_of(peers[j], time, entry.1))
}

/// Whether `bytes` is a plain datagram for peer `p` sent at time `t` (see
/// [`plain_datagram`]): a header naming the peer, with some flags, then some commands.
pub open spec fn datagram_of(p: Peer, t: u32, bytes: Seq<u8>) -> bool {
    exists|flags: u16, frames: Seq<(ProtocolCommand, Seq<u8>)>| bytes == #[trigger] plain_datagram(p, flags, t, frames)
}

/// A plain datagram depends on its peer only through the peer's outgoing id and session.
proof fn lemma_plain_datagram_link(p0: Peer, p1: Peer, flags: u16, t: u32, frames: Seq<(ProtocolCommand, Seq<u8>)>)
    requires
        same_link(p0, p1),
    ensures
        plain_datagram(p0, flags, t, frames) == plain_datagram(p1, flags, t, frames),
{
}

/// Datagrams handed after `h1`'s to the address of a live peer `i` of `h0` keep what
/// [`sent_to_live_peers`] says.
proof fn lemma_sent_step<A: Clone, Z>(h0: Host<A, Z>, h1: Host<A, Z>, h2: Host<A, Z>, i: int, time: u32)
    requires
        sent_to_live_peers(h0, h1, time),
        h1.sent@.len() <= h2.sent@.len() <= h1.sent@.len() + 1,
        h2.sent@.take(h1.sent@.len() as int) == h1.sent@,
        0 <= i < h0.peers@.len(),
        is_live(h0.peers@[i]),
        h2.sent@.len() > h1.sent@.len() ==> sent_to_peer_address(h0.addresses@, i, h2.sent@[h1.sent@.len() as int].0)
            && (h0.compressor is None && !h0.checksum ==> datagram_of(
            h0.peers@[i],
            time,
            h2.sent@[h1.sent@.len() as int].1,
        )),
    ensures
        sent_to_live_peers(h0, h2, time),
{
    let n0 = h0.sent@.len() as int;
    let n1 = h1.sent@.len() as int;
    assert(h2.sent@.take(n0) =~= h0.sent@) by {
        assert(h2.sent@.take(n0) =~= h2.sent@.take(n1).take(n0));
    }
    assert forall|k: int| n0 <= k < h2.sent@.len() implies sent_to_live_peer(
        h0.peers@,
        h0.addresses@,
        #[trigger] h2.sent@[k],
        time,
        h0.compressor is None && !h0.checksum,
    ) by {
        if k < n1 {
            assert(h2.sent@[k] == h2.sent@.take(n1)[k]);
            assert(h2.sent@[k] == h1.sent@[k]);
        } else {
            assert(sent_to_peer_address(h0.addresses@, i, h2.sent@[k].0));
        }
    }
}

/// Whether `to` is a copy of the address of peer `j` among `addresses`.
pub open spec fn sent_to_peer_address<A: Clone>(addresses: Seq<Option<A>>, j: int, to: A) -> bool {
    addresses[j] matches Some(a) && cloned(a, to)
}

/// Datagram `data` with header size `hs` as the host reads it: when `compressed`, its
/// header followed by the first `unpacked` bytes of `out`, what its compressed part was
/// decompressed to; else as it came.
pub open spec fn decompressed(data: Seq<u8>, hs: int, compressed: bool, out: Seq<u8>, unpacked: int) -> Seq<u8> {
    if compressed {
        data.take(hs) + out.take(unpacked)
    } else {
        data
    }
}

/// The seed of the checksum of a datagram for peer `peer_id` of host `h`: the peer's
/// connection id, or 0 for a datagram that names no peer.
pub open spec fn checksum_seed<A, Z: Compressor>(h: Host<A, Z>, peer_id: u16) -> u32 {
    if peer_id == 4095 {
        0
    } else {
        h.peers@[peer_id as int].connect_id
    }
}

/// Whether a wrapping counter went from `before` to `after` by counting `n` more.
pub open spec fn count_advanced(before: u32, after: u32, n: nat) -> bool {
    after == ((before + n) % 0x1_0000_0000) as u32
}

/// Whether peer `p` sends nothing at service time `t`: no acknowledgements, no reliable
/// commands due for a time out check when `check_for_timeouts` asks for one, and nothing
/// to fill a datagram with (see [`nothing_to_fill`]).
pub open spec fn sends_nothing(p: Peer, t: u32, check_for_timeouts: bool) -> bool {
    &&& p.acknowledgements@.len() == 0
    &&& !(check_for_timeouts && p.sent_reliable_commands@.len() != 0 && t.wrapping_sub(p.next_timeout)
        < 86400000)
    &&& nothing_to_fill(p, t, 4)
}

/// Peer `p` after a sending pass that sent it nothing: one that is disconnected or a
/// zombie is passed over, any other has its mark to continue sending cleared.
pub open spec fn passed_over(p: Peer) -> Peer {
    if p.state == PeerState::Disconnected || p.state == PeerState::Zombie {
        p
    } else {
        Peer { flags: p.flags & !PEER_FLAG_CONTINUE_SENDING, ..p }
    }
}

impl<A: Address, Z: Compressor> Host<A, Z> {
    /// Start the datagram of peer `i`: clear its mark to continue sending and put its
    /// queued acknowledgements in `d`.
    fn begin_datagram(&mut self, i: usize, d: &mut Datagram)
        requires
            old(self).wf(),
            i < old(self).peers@.len(),
            old(d).frames@.len() == 0,
            old(d).buffers == 1,
            old(d).packet_size == 4,
        ensures
            final(self).compressor == old(self).compressor && same_link(old(self).peers@[i as int], final(self).peers@[i as int]),
            final(self).addresses == old(self).addresses,
            final(self).sent == old(self).sent,
            forall|j: int| 0 <= j < old(self).peers@.len() && j != i ==> #[trigger] final(self).peers@[j] == old(self).peers@[j],
            final(d).frames@.len() <= 32,
            final(d).buffers <= 65,
            final(d).packet_size <= 260,
            final(self).maximum_packet_size == old(self).maximum_packet_size,
            final(self).checksum == old(self).checksum,
            final(self).wf(),
            final(self).peers@.len() == old(self).peers@.len(),
            final(self).service_time == old(self).service_time,
            final(self).bandwidth_throttle_epoch == old(self).bandwidth_throttle_epoch,
            final(self).total_received_packets == old(self).total_received_packets,
            final(self).total_received_data == old(self).total_received_data,
            ({
                let p0 = old(self).peers@[i as int];
                let q = Peer { flags: p0.flags & !PEER_FLAG_CONTINUE_SENDING, ..p0 };
                &&& p0.acknowledgements@.len() == 0 ==> final(self).peers@[i as int] == q && *final(d) == *old(d)
                &&& p0.acknowledgements@.len() > 0 ==> exists|k: int|
                    #[trigger] acknowledgements_sent(q, final(self).peers@[i as int], *old(d), *final(d), k)
            }),
    {
        let ghost h0 = *self;
        proof {
            lemma_count_bounds(self.peers@);
        }
        {
            let p = &mut self.peers[i];
            p.flags = p.flags & !PEER_FLAG_CONTINUE_SENDING;
        }
        proof {
            lemma_peer_step(h0, *self, i as int);
        }
        if self.peers[i].acknowledgements.len() > 0 {
            let ghost h1 = *self;
            let ghost d1 = *d;
            proof {
                lemma_count_bounds(self.peers@);
            }
            let before = self.peers[i].flags;
            {
                let p = &mut self.peers[i];
                p.send_acknowledgements(
                    d,
                    &mut self.connected_peers,
                    &mut self.bandwidth_limited_peers,
                );
            }
            self.sync_dispatch(i, before);
            proof {
                lemma_peer_step(h1, *self, i as int);
            }
            assert(exists|k: int| #[trigger] acknowledgements_sent(h1.peers@[i as int], self.peers@[i as int], d1, *d, k));
        }
    }

    /// With reliable commands of peer `i` outstanding past its next timeout, check them:
    /// a peer that has timed out is disconnected, and `Some` of the event this gives is
    /// returned; otherwise `None`.
    fn peer_timed_out(&mut self, i: usize) -> (r: Option<Option<Event>>)
        requires
            old(self).wf(),
            i < old(self).peers@.len(),
        ensures
            final(self).compressor == old(self).compressor && (r is None ==> same_link(old(self).peers@[i as int], final(self).peers@[i as int])),
            final(self).addresses == old(self).addresses,
            final(self).sent == old(self).sent,
            forall|j: int| 0 <= j < old(self).peers@.len() && j != i ==> #[trigger] final(self).peers@[j] == old(self).peers@[j],
            final(self).maximum_packet_size == old(self).maximum_packet_size,
            final(self).checksum == old(self).checksum,
            final(self).wf(),
            final(self).peers@.len() == old(self).peers@.len(),
            final(self).service_time == old(self).service_time,
            final(self).bandwidth_throttle_epoch == old(self).bandwidth_throttle_epoch,
            final(self).total_received_packets == old(self).total_received_packets,
            final(self).total_received_data == old(self).total_received_data,
            ({
                let p0 = old(self).peers@[i as int];
                let due = p0.sent_reliable_commands@.len() != 0 && old(self).service_time.wrapping_sub(
                    p0.next_timeout,
                ) < 86400000;
                &&& !due ==> r is None && *final(self) == *old(self)
                &&& due ==> exists|q: Peer, t: bool|
                    #[trigger] timeouts_checked(p0, q, old(self).service_time, t) && (r is Some <==> t) && (!t
                        ==> final(self).peers@[i as int] == q) && (t ==> exists|re: Reaction|
                        #[trigger] disconnect_notified(q, final(self).peers@[i as int], true, old(self).mtu, re)
                            && r == Some(re.event))
            }),
    {
        let service_time = self.service_time;
        if self.peers[i].sent_reliable_commands.len() == 0
            || service_time.wrapping_sub(self.peers[i].next_timeout) >= 86400000 {
            return None;
        }
        let ghost h2 = *self;
        let timed_out;
        {
            let p = &mut self.peers[i];
            timed_out = p.check_timeouts(service_time);
        }
        proof {
            lemma_peer_step(h2, *self, i as int);
        }
        if !timed_out {
            assert(timeouts_checked(h2.peers@[i as int], self.peers@[i as int], service_time, timed_out));
            return None;
        }
        let ghost h3 = *self;
        proof {
            lemma_count_bounds(self.peers@);
        }
        let before = self.peers[i].flags;
        let host_mtu = self.mtu;
        let reaction;
        {
            let p = &mut self.peers[i];
            reaction = p.notify_disconnect(
                true,
                host_mtu,
                &mut self.connected_peers,
                &mut self.bandwidth_limited_peers,
            );
        }
        self.sync_dispatch(i, before);
        proof {
            lemma_peer_step(h3, *self, i as int);
        }
        if reaction.recalculate {
            self.recalculate_bandwidth_limits = true;
        }
        assert(timeouts_checked(h2.peers@[i as int], h3.peers@[i as int], service_time, timed_out));
        assert(disconnect_notified(h3.peers@[i as int], self.peers@[i as int], true, host_mtu, reaction));
        Some(reaction.event)
    }

    /// Put the queued commands of peer `i` in `d`, as far as they fit, and a ping when
    /// it has nothing outstanding and has not been heard from for its ping interval.
    /// Returns whether an unreliable packet went into `d`.
    #[verifier::spinoff_prover]
    fn fill_datagram(&mut self, i: usize, d: &mut Datagram) -> (unreliable: bool)
        requires
            old(self).wf(),
            i < old(self).peers@.len(),
            old(d).frames@.len() <= 32,
            old(d).buffers <= 65,
            old(d).packet_size <= 260,
        ensures
            final(self).compressor == old(self).compressor && same_link(old(self).peers@[i as int], final(self).peers@[i as int]),
            final(self).addresses == old(self).addresses,
            final(self).sent == old(self).sent,
            forall|j: int| 0 <= j < old(self).peers@.len() && j != i ==> #[trigger] final(self).peers@[j] == old(self).peers@[j],
            final(self).maximum_packet_size == old(self).maximum_packet_size,
            final(self).checksum == old(self).checksum,
            final(self).wf(),
            final(self).peers@.len() == old(self).peers@.len(),
            final(self).service_time == old(self).service_time,
            final(self).bandwidth_throttle_epoch == old(self).bandwidth_throttle_epoch,
            final(self).total_received_packets == old(self).total_received_packets,
            final(self).total_received_data == old(self).total_received_data,
            nothing_to_fill(old(self).peers@[i as int], old(self).service_time, old(d).packet_size) ==> *final(self)
                == *old(self) && *final(d) == *old(d),
    {
        let service_time = self.service_time;
        let mut sent_unreliable: Vec<crate::peer::OutgoingCommand> = Vec::new();
        let idle = self.peers[i].outgoing_commands.len() == 0
            && self.peers[i].outgoing_send_reliable_commands.len() == 0;
        let can_ping = if idle {
            true
        } else {
            let ghost h4 = *self;
            proof {
                lemma_count_bounds(self.peers@);
            }
            let before = self.peers[i].flags;
            let c;
            {
                let p = &mut self.peers[i];
                c = p.check_outgoing_commands(
                    service_time,
                    d,
                    &mut sent_unreliable,
                    &mut self.total_queued,
                    &mut self.connected_peers,
                    &mut self.bandwidth_limited_peers,
                );
            }
            self.sync_dispatch(i, before);
            proof {
                lemma_peer_step(h4, *self, i as int);
            }
            c
        };
        if !can_ping || self.peers[i].sent_reliable_commands.len() != 0 {
            return sent_unreliable.len() > 0;
        }
        let since = {
            let p = &self.peers[i];
            if service_time.wrapping_sub(p.last_receive_time) >= 86400000 {
                p.last_receive_time.wrapping_sub(service_time)
            } else {
                service_time.wrapping_sub(p.last_receive_time)
            }
        };
        if since < self.peers[i].ping_interval
            || (self.peers[i].mtu as usize).wrapping_sub(d.packet_size) < 4 {
            return sent_unreliable.len() > 0;
        }
        let ghost h5 = *self;
        {
            let p = &mut self.peers[i];
            p.ping(&mut self.total_queued);
        }
        proof {
            lemma_peer_step(h5, *self, i as int);
            lemma_count_bounds(self.peers@);
        }
        let ghost h6 = *self;
        let before = self.peers[i].flags;
        {
            let p = &mut self.peers[i];
            p.check_outgoing_commands(
                service_time,
                d,
                &mut sent_unreliable,
                &mut self.total_queued,
                &mut self.connected_peers,
                &mut self.bandwidth_limited_peers,
            );
        }
        self.sync_dispatch(i, before);
        proof {
            lemma_peer_step(h6, *self, i as int);
        }
        sent_unreliable.len() > 0
    }
}

impl<A: Address + Clone, Z: Compressor> Host<A, Z> {
    /// Send the datagram `d` of peer `i`, which holds at least one command, to the
    /// peer's address; when it carries an unreliable packet (`unreliable`), a peer that was
    /// to disconnect once its queues drained and now has nothing left to send is
    /// disconnected.
    fn transmit<S: Socket<PeerAddress = A>>(&mut self, socket: &mut S, i: usize, d: &Datagram, unreliable: bool) -> (r:
        Result<(), S::Error>)
        requires
            old(self).wf(),
            i < old(self).peers@.len(),
        ensures
            same_link(old(self).peers@[i as int], final(self).peers@[i as int]),
            old(self).compressor is None ==> final(self).compressor is None,
            final(self).service_time == old(self).service_time,
            final(self).bandwidth_throttle_epoch == old(self).bandwidth_throttle_epoch,
            final(self).total_received_packets == old(self).total_received_packets,
            final(self).total_received_data == old(self).total_received_data,
            forall|j: int| 0 <= j < old(self).peers@.len() && j != i ==> #[trigger] final(self).peers@[j] == old(self).peers@[j],
            final(self).maximum_packet_size == old(self).maximum_packet_size,
            final(self).checksum == old(self).checksum,
            final(self).wf(),
            final(self).peers@.len() == old(self).peers@.len(),
            r is Ok ==> final(self).total_sent_packets == old(self).total_sent_packets.wrapping_add(1),
            r is Err ==> final(self).total_sent_packets == old(self).total_sent_packets,
            final(self).addresses == old(self).addresses,
            old(self).addresses@[i as int] is None ==> final(self).sent@ == old(self).sent@,
            old(self).addresses@[i as int] matches Some(a) ==> {
                &&& final(self).sent@.len() == old(self).sent@.len() + 1
                &&& final(self).sent@.take(old(self).sent@.len() as int) == old(self).sent@
                &&& cloned(a, final(self).sent@.last().0)
                &&& old(self).compressor is None && !old(self).checksum ==> final(self).sent@.last().1
                    == plain_datagram(
                    old(self).peers@[i as int],
                    d.header_flags,
                    old(self).service_time,
                    frames_view(d.frames@),
                )
            },
            ({
                let p0 = old(self).peers@[i as int];
                &&& unreliable && p0.state == PeerState::DisconnectLater && !p0.spec_has_outgoing_commands()
                    ==> final(self).peers@[i as int].state == PeerState::Disconnecting
                &&& !(unreliable && p0.state == PeerState::DisconnectLater && !p0.spec_has_outgoing_commands())
                    ==> final(self).peers@[i as int].state == p0.state
                    && final(self).peers@[i as int].last_send_time == old(self).service_time
            }),
    {
        let service_time = self.service_time;
        let ghost h7 = *self;
        {
            let p = &mut self.peers[i];
            p.update_packet_loss(service_time);
            p.last_send_time = service_time;
        }
        proof {
            lemma_peer_step(h7, *self, i as int);
        }
        let ghost h8 = *self;
        let bytes = self.datagram_bytes(i, d);
        let to: Option<A> = match &self.addresses[i] {
            Some(address) => Some(address.clone()),
            None => None,
        };
        let result = match to {
            Some(t) => {
                proof {
                    self.sent@ = self.sent@.push((t, bytes@));
                    assert(self.sent@.take(h8.sent@.len() as int) =~= h8.sent@);
                }
                socket.send(t, bytes.as_slice())
            },
            None => Ok(0),
        };
        if unreliable && self.peers[i].state == PeerState::DisconnectLater
            && !self.peers[i].has_outgoing_commands() {
            let ghost h8 = *self;
            proof {
                lemma_count_bounds(self.peers@);
            }
            let before = self.peers[i].flags;
            {
                let p = &mut self.peers[i];
                let data = p.event_data;
                p.disconnect(
                    &mut self.total_queued,
                    data,
                    &mut self.connected_peers,
                    &mut self.bandwidth_limited_peers,
                );
            }
            self.sync_dispatch(i, before);
            proof {
                lemma_peer_step(h8, *self, i as int);
            }
        }
        match result {
            Err(e) => {
                return Err(e);
            },
            Ok(n) => {
                self.total_sent_data = self.total_sent_data.wrapping_add(#[verifier::truncate] (n as u32));
            },
        }
        self.total_sent_packets = self.total_sent_packets.wrapping_add(1);
        Ok(())
    }

    /// Fill and send the datagram of peer `i` (see [`Host::send_outgoing_commands`]).
    fn send_to_peer<S: Socket<PeerAddress = A>>(
        &mut self,
        socket: &mut S,
        i: usize,
        check_for_timeouts: bool,
    ) -> (r: Result<Option<Event>, S::Error>)
        requires
            old(self).wf(),
            i < old(self).peers@.len(),
        ensures
            is_live(final(self).peers@[i as int]) ==> same_link(old(self).peers@[i as int], final(self).peers@[i as int]),
            old(self).compressor is None ==> final(self).compressor is None,
            final(self).addresses == old(self).addresses,
            final(self).sent@ == old(self).sent@ || {
                &&& final(self).sent@.len() == old(self).sent@.len() + 1
                &&& final(self).sent@.take(old(self).sent@.len() as int) == old(self).sent@
                &&& sent_to_peer_address(old(self).addresses@, i as int, final(self).sent@.last().0)
                &&& old(self).compressor is None && !old(self).checksum ==> datagram_of(
                    old(self).peers@[i as int],
                    old(self).service_time,
                    final(self).sent@.last().1,
                )
            },
            final(self).service_time == old(self).service_time,
            final(self).bandwidth_throttle_epoch == old(self).bandwidth_throttle_epoch,
            final(self).total_received_packets == old(self).total_received_packets,
            final(self).total_received_data == old(self).total_received_data,
            forall|j: int| 0 <= j < old(self).peers@.len() && j != i ==> #[trigger] final(self).peers@[j] == old(self).peers@[j],
            final(self).maximum_packet_size == old(self).maximum_packet_size,
            final(self).checksum == old(self).checksum,
            final(self).wf(),
            final(self).peers@.len() == old(self).peers@.len(),
            r matches Ok(Some(_)) ==> check_for_timeouts,
            ({
                let p0 = old(self).peers@[i as int];
                let due = p0.sent_reliable_commands@.len() != 0 && old(self).service_time.wrapping_sub(
                    p0.next_timeout,
                ) < 86400000;
                p0.acknowledgements@.len() == 0 && (!check_for_timeouts || !due) && nothing_to_fill(
                    p0,
                    old(self).service_time,
                    4,
                ) ==> (r matches Ok(None)) && final(self).peers@ == old(self).peers@.update(
                    i as int,
                    Peer { flags: p0.flags & !PEER_FLAG_CONTINUE_SENDING, ..p0 },
                )
            }),
    {
        let mut d = Datagram::new();
        self.begin_datagram(i, &mut d);
        if check_for_timeouts {
            match self.peer_timed_out(i) {
                Some(event) => {
                    return Ok(event);
                },
                None => {},
            }
        }
        let unreliable = self.fill_datagram(i, &mut d);
        let ghost hf = *self;
        if d.frames.len() > 0 {
            let sent = self.transmit(socket, i, &d, unreliable);
            proof {
                if self.sent@.len() > hf.sent@.len() && old(self).compressor is None && !old(self).checksum {
                    let fl = d.header_flags;
                    let fs = frames_view(d.frames@);
                    lemma_plain_datagram_link(old(self).peers@[i as int], hf.peers@[i as int], fl, hf.service_time, fs);
                    assert(self.sent@.last().1 == plain_datagram(old(self).peers@[i as int], fl, old(self).service_time, fs));
                }
            }
            match sent {
                Err(e) => {
                    return Err(e);
                },
                Ok(()) => {},
            }
        }
        Ok(None)
    }
}

impl<A: Address + Clone, Z: Compressor> Host<A, Z> {
    /// Send each peer that is neither disconnected nor a zombie the datagram its queues
    /// fill: its acknowledgements, then its commands; a ping when it has nothing
    /// outstanding and has not been heard from for its ping interval. With
    /// `check_for_timeouts`, a peer whose reliable commands have timed out is disconnected
    /// instead, and the first such disconnection that gives an event is returned. Peers
    /// marked to continue sending get further passes. An error of the socket stops the
    /// sending and is returned. Each datagram goes to a copy of the address of a peer that
    /// was neither disconnected nor a zombie, and, without compression or checksum, is a
    /// plain datagram for that peer (see [`sent_to_live_peers`]).
    pub fn send_outgoing_commands<S: Socket<PeerAddress = A>>(
        &mut self,
        socket: &mut S,
        check_for_timeouts: bool,
    ) -> (r: Result<Option<Event>, S::Error>)
        requires
            old(self).wf(),
        ensures
            final(self).addresses == old(self).addresses,
            sent_to_live_peers(*old(self), *final(self), old(self).service_time),
            old(self).compressor is None ==> final(self).compressor is None,
            final(self).service_time == old(self).service_time,
            final(self).bandwidth_throttle_epoch == old(self).bandwidth_throttle_epoch,
            final(self).total_received_packets == old(self).total_received_packets,
            final(self).total_received_data == old(self).total_received_data,
            final(self).maximum_packet_size == old(self).maximum_packet_size,
            final(self).checksum == old(self).checksum,
            final(self).wf(),
            final(self).peers@.len() == old(self).peers@.len(),
            forall|j: int|
                0 <= j < old(self).peers@.len() && (old(self).peers@[j].state == PeerState::Disconnected
                    || old(self).peers@[j].state == PeerState::Zombie) ==> #[trigger] final(self).peers@[j]
                    == old(self).peers@[j],
            r matches Ok(Some(_)) ==> check_for_timeouts,
            (forall|j: int|
                0 <= j < old(self).peers@.len() && !(old(self).peers@[j].state == PeerState::Disconnected
                    || old(self).peers@[j].state == PeerState::Zombie) ==> sends_nothing(
                    #[trigger] old(self).peers@[j],
                    old(self).service_time,
                    check_for_timeouts,
                )) ==> (r matches Ok(None)) && forall|j: int|
                0 <= j < old(self).peers@.len() ==> #[trigger] final(self).peers@[j] == passed_over(
                    old(self).peers@[j],
                ),
    {
        let ghost all_idle = forall|j: int|
            0 <= j < old(self).peers@.len() && !(old(self).peers@[j].state == PeerState::Disconnected
                || old(self).peers@[j].state == PeerState::Zombie) ==> sends_nothing(
                #[trigger] old(self).peers@[j],
                old(self).service_time,
                check_for_timeouts,
            );
        assert(old(self).sent@.take(old(self).sent@.len() as int) =~= old(self).sent@);
        let mut send_pass: usize = 0;
        let mut continue_sending: usize = 0;
        while send_pass <= continue_sending && send_pass < 4096
            invariant
                self.addresses == old(self).addresses,
                sent_to_live_peers(*old(self), *self, old(self).service_time),
                old(self).compressor is None ==> self.compressor is None,
                forall|j: int|
                    0 <= j < self.peers@.len() && is_live(#[trigger] self.peers@[j]) ==> same_link(old(self).peers@[j], self.peers@[j]),
                self.wf(),
                self.peers@.len() == old(self).peers@.len(),
                self.maximum_packet_size == old(self).maximum_packet_size,
                self.checksum == old(self).checksum,
                self.service_time == old(self).service_time,
                self.bandwidth_throttle_epoch == old(self).bandwidth_throttle_epoch,
                self.total_received_packets == old(self).total_received_packets,
                self.total_received_data == old(self).total_received_data,
                continue_sending <= send_pass + 1,
                forall|j: int|
                    0 <= j < old(self).peers@.len() && (old(self).peers@[j].state == PeerState::Disconnected
                        || old(self).peers@[j].state == PeerState::Zombie) ==> #[trigger] self.peers@[j]
                        == old(self).peers@[j],
                all_idle == forall|j: int|
                    0 <= j < old(self).peers@.len() && !(old(self).peers@[j].state == PeerState::Disconnected
                        || old(self).peers@[j].state == PeerState::Zombie) ==> sends_nothing(
                        #[trigger] old(self).peers@[j],
                        old(self).service_time,
                        check_for_timeouts,
                    ),
                all_idle ==> continue_sending == 0,
                all_idle && send_pass == 0 ==> self.peers@ == old(self).peers@,
                all_idle && send_pass > 0 ==> forall|j: int|
                    0 <= j < old(self).peers@.len() ==> #[trigger] self.peers@[j] == passed_over(old(self).peers@[j]),
            decreases 4096 - send_pass,
        {
            let mut i: usize = 0;
            while i < self.peers.len()
                invariant
                    self.addresses == old(self).addresses,
                    sent_to_live_peers(*old(self), *self, old(self).service_time),
                    old(self).compressor is None ==> self.compressor is None,
                    forall|j: int|
                        0 <= j < self.peers@.len() && is_live(#[trigger] self.peers@[j]) ==> same_link(old(self).peers@[j], self.peers@[j]),
                    self.wf(),
                    self.peers@.len() == old(self).peers@.len(),
                    self.maximum_packet_size == old(self).maximum_packet_size,
                    self.checksum == old(self).checksum,
                    self.service_time == old(self).service_time,
                    self.bandwidth_throttle_epoch == old(self).bandwidth_throttle_epoch,
                    self.total_received_packets == old(self).total_received_packets,
                    self.total_received_data == old(self).total_received_data,
                    continue_sending <= send_pass + 1,
                    send_pass < 4096,
                    forall|j: int|
                        0 <= j < old(self).peers@.len() && (old(self).peers@[j].state == PeerState::Disconnected
                            || old(self).peers@[j].state == PeerState::Zombie) ==> #[trigger] self.peers@[j]
                            == old(self).peers@[j],
                    all_idle == forall|j: int|
                        0 <= j < old(self).peers@.len() && !(old(self).peers@[j].state == PeerState::Disconnected
                            || old(self).peers@[j].state == PeerState::Zombie) ==> sends_nothing(
                            #[trigger] old(self).peers@[j],
                            old(self).service_time,
                            check_for_timeouts,
                        ),
                    all_idle ==> continue_sending == 0 && send_pass == 0,
                    all_idle ==> forall|j: int|
                        0 <= j < old(self).peers@.len() ==> #[trigger] self.peers@[j] == if j < i {
                            passed_over(old(self).peers@[j])
                        } else {
                            old(self).peers@[j]
                        },
                    i <= self.peers@.len(),
                decreases self.peers@.len() - i,
            {
                let state = self.peers[i].state;
                let skip = state == PeerState::Disconnected || state == PeerState::Zombie || (
                send_pass > 0 && self.peers[i].flags & PEER_FLAG_CONTINUE_SENDING == 0);
                if !skip {
                    let ghost hb = *self;
                    let res = self.send_to_peer(socket, i, check_for_timeouts);
                    proof {
                        assert(is_live(old(self).peers@[i as int]));
                        if self.sent@ != hb.sent@ {
                            assert(self.sent@[hb.sent@.len() as int] == self.sent@.last());
                            if old(self).compressor is None && !old(self).checksum {
                                let e = self.sent@.last().1;
                                assert(datagram_of(hb.peers@[i as int], hb.service_time, e));
                                let (fl, fs) = choose|fl: u16, fs: Seq<(ProtocolCommand, Seq<u8>)>|
                                    e == #[trigger] plain_datagram(hb.peers@[i as int], fl, hb.service_time, fs);
                                lemma_plain_datagram_link(old(self).peers@[i as int], hb.peers@[i as int], fl, hb.service_time, fs);
                                assert(e == plain_datagram(old(self).peers@[i as int], fl, old(self).service_time, fs));
                            }
                        } else {
                            assert(self.sent@.take(hb.sent@.len() as int) =~= hb.sent@);
                        }
                        lemma_sent_step(*old(self), hb, *self, i as int, old(self).service_time);
                    }
                    match res {
                        Err(e) => {
                            return Err(e);
                        },
                        Ok(Some(event)) => {
                            return Ok(Some(event));
                        },
                        Ok(None) => {},
                    }
                    proof {
                        if all_idle {
                            let f = old(self).peers@[i as int].flags;
                            assert((f & !PEER_FLAG_CONTINUE_SENDING) & PEER_FLAG_CONTINUE_SENDING == 0) by (bit_vector);
                        }
                    }
                    if self.peers[i].flags & PEER_FLAG_CONTINUE_SENDING != 0 {
                        continue_sending = send_pass + 1;
                    }
                }
                i = i + 1;
            }
            send_pass = send_pass + 1;
        }
        Ok(None)
    }
}

impl<A: Address + Clone, Z: Compressor> Host<A, Z> {
    /// Hand command `pc`, with its payload, to peer `i`. Returns whether the command was
    /// taken, and the event it gives, if any.
    #[verifier::spinoff_prover]
    #[verifier::rlimit(60)]
    fn command_to_peer(&mut self, i: usize, pc: &ProtocolCommand, payload: &[u8]) -> (r: (
        bool,
        Option<Event>,
    ))
        requires
            old(self).wf(),
            i < old(self).peers@.len(),
            well_formed(*pc),
            payload@.len() <= old(self).maximum_packet_size,
        ensures
            final(self).addresses == old(self).addresses,
            final(self).service_time == old(self).service_time,
            final(self).bandwidth_throttle_epoch == old(self).bandwidth_throttle_epoch,
            final(self).total_received_packets == old(self).total_received_packets,
            final(self).total_received_data == old(self).total_received_data,
            final(self).sent == old(self).sent,
            final(self).maximum_packet_size == old(self).maximum_packet_size,
            final(self).checksum == old(self).checksum,
            final(self).wf(),
            final(self).peers@.len() == old(self).peers@.len(),
            forall|j: int| 0 <= j < old(self).peers@.len() && j != i ==> #[trigger] final(self).peers@[j] == old(self).peers@[j],
            r.1 is Some ==> pc.body is Acknowledge || pc.body is VerifyConnect,
            pc.body is Connect ==> r == (false, None::<Event>) && same_host_view(*old(self), *final(self)),
            pc.body is Ping ==> r == (counts_as_connected(old(self).peers@[i as int].state), None::<Event>)
                && same_host_view(*old(self), *final(self)),
            pc.body is Disconnect ==> r.0,
    {
        let ghost h0 = *self;
        proof {
            lemma_count_bounds(self.peers@);
        }
        let before = self.peers[i].flags;
        let service_time = self.service_time;
        let host_mtu = self.mtu;
        let host_outgoing = self.outgoing_bandwidth;
        let mps = self.maximum_packet_size;
        let mwd = self.maximum_waiting_data;
        let mut recalculate = false;
        let mut event: Option<Event> = None;
        let ok: bool;
        {
            let p = &mut self.peers[i];
            match &pc.body {
                Command::Acknowledge { .. } => {
                    let r = p.handle_acknowledge(
                        pc,
                        service_time,
                        true,
                        &mut self.total_queued,
                        host_mtu,
                        &mut self.connected_peers,
                        &mut self.bandwidth_limited_peers,
                    );
                    ok = r.ok;
                    recalculate = r.recalculate;
                    event = r.event;
                },
                Command::VerifyConnect { .. } => {
                    let r = p.handle_verify_connect(
                        pc,
                        true,
                        &mut self.connected_peers,
                        &mut self.bandwidth_limited_peers,
                    );
                    ok = r.ok;
                    recalculate = r.recalculate;
                    event = r.event;
                },
                Command::Disconnect { .. } => {
                    recalculate = p.handle_disconnect(
                        pc,
                        host_mtu,
                        &mut self.connected_peers,
                        &mut self.bandwidth_limited_peers,
                    );
                    ok = true;
                },
                Command::Ping => {
                    ok = p.handle_ping();
                },
                Command::SendReliable { .. } => {
                    ok = p.handle_send_reliable(pc, payload, mwd);
                },
                Command::SendUnreliable { .. } => {
                    ok = p.handle_send_unreliable(pc, payload, mwd);
                },
                Command::SendUnsequenced { .. } => {
                    ok = p.handle_send_unsequenced(pc, payload, mwd);
                },
                Command::SendFragment { .. } => {
                    ok = p.handle_send_fragment(pc, payload, mps, mwd);
                },
                Command::SendUnreliableFragment { .. } => {
                    ok = p.handle_send_unreliable_fragment(pc, payload, mps, mwd);
                },
                Command::BandwidthLimit { .. } => {
                    ok = p.handle_bandwidth_limit(pc, host_outgoing, &mut self.bandwidth_limited_peers);
                },
                Command::ThrottleConfigure { .. } => {
                    ok = p.handle_throttle_configure(pc);
                },
                Command::Connect { .. } => {
                    ok = false;
                },
            }
        }
        self.sync_dispatch(i, before);
        proof {
            lemma_peer_step(h0, *self, i as int);
            if pc.body is Connect || pc.body is Ping {
                assert(self.peers@ =~= h0.peers@);
            }
        }
        if recalculate {
            self.recalculate_bandwidth_limits = true;
        }
        (ok, event)
    }

    /// Queue the acknowledgement of command `pc` of peer `i`, received in a datagram sent
    /// at `sent_time`, as the peer's state allows: none while it is disconnecting, waiting
    /// for its connection to be acknowledged, disconnected or a zombie, and only that of
    /// the disconnection while it acknowledges one.
    fn acknowledge_command(&mut self, i: usize, pc: &ProtocolCommand, sent_time: u16)
        requires
            old(self).wf(),
            i < old(self).peers@.len(),
        ensures
            final(self).addresses == old(self).addresses,
            final(self).service_time == old(self).service_time,
            final(self).bandwidth_throttle_epoch == old(self).bandwidth_throttle_epoch,
            final(self).total_received_packets == old(self).total_received_packets,
            final(self).total_received_data == old(self).total_received_data,
            final(self).sent == old(self).sent,
            final(self).maximum_packet_size == old(self).maximum_packet_size,
            final(self).checksum == old(self).checksum,
            final(self).wf(),
            final(self).peers@.len() == old(self).peers@.len(),
            ({
                let p0 = old(self).peers@[i as int];
                let skipped = p0.state == PeerState::Disconnecting || p0.state == PeerState::AcknowledgingConnect
                    || p0.state == PeerState::Disconnected || p0.state == PeerState::Zombie || (p0.state
                    == PeerState::AcknowledgingDisconnect && pc.command & 15 != PROTOCOL_COMMAND_DISCONNECT);
                let cid = pc.channel_id as int;
                let held = cid < p0.channels@.len() && acknowledgement_held_back(
                    pc.reliable_sequence_number,
                    p0.channels@[cid].incoming_reliable_sequence_number,
                );
                &&& skipped || held ==> same_host_view(*old(self), *final(self))
                &&& !skipped && !held ==> *final(self) == (Host { peers: final(self).peers, ..*old(self) })
                    && final(self).peers@ == old(self).peers@.update(
                    i as int,
                    Peer {
                        outgoing_data_total: p0.outgoing_data_total.wrapping_add(8),
                        acknowledgements: final(self).peers@[i as int].acknowledgements,
                        ..p0
                    },
                ) && final(self).peers@[i as int].acknowledgements@ == p0.acknowledgements@.push(
                    Acknowledgement { sent_time: sent_time as u32, command: *pc },
                )
            }),
    {
        let ghost h0 = *self;
        let state = self.peers[i].state;
        if state == PeerState::Disconnecting || state == PeerState::AcknowledgingConnect
            || state == PeerState::Disconnected || state == PeerState::Zombie {
            return ;
        }
        if state == PeerState::AcknowledgingDisconnect && pc.command & 15
            != PROTOCOL_COMMAND_DISCONNECT {
            return ;
        }
        {
            let p = &mut self.peers[i];
            p.queue_acknowledgement(pc, sent_time);
        }
        proof {
            lemma_peer_step(h0, *self, i as int);
            assert(self.peers@ =~= h0.peers@.update(i as int, self.peers@[i as int]));
            let p0 = h0.peers@[i as int];
            let cid = pc.channel_id as int;
            let held = cid < p0.channels@.len() && acknowledgement_held_back(
                pc.reliable_sequence_number,
                p0.channels@[cid].incoming_reliable_sequence_number,
            );
            assert(held ==> self.peers@[i as int] == p0);
            assert(held ==> self.peers@ =~= h0.peers@);
            assert(*self == (Host { peers: self.peers, ..h0 }));
        }
    }

    /// Handle a datagram `data` received from `received`, and return the event it gives,
    /// if any. The datagram is dropped when its header names no peer of the host, a peer
    /// that is disconnected or a zombie, a peer at another address, or a session other
    /// than the peer's; when it is compressed and the host has no compressor. A compressed
    /// datagram is otherwise decompressed, and the rest is as [`Host::handle_datagram`] says
    /// of the decompressed length and bytes.
    pub fn handle_incoming_commands(&mut self, received: A, data: &[u8]) -> (r: Option<Event>)
        requires
            old(self).wf(),
        ensures
            final(self).service_time == old(self).service_time,
            final(self).bandwidth_throttle_epoch == old(self).bandwidth_throttle_epoch,
            final(self).total_received_packets == old(self).total_received_packets,
            final(self).total_received_data == old(self).total_received_data,
            final(self).sent == old(self).sent,
            final(self).wf(),
            final(self).peers@.len() == old(self).peers@.len(),
            header_refused(*old(self), received, data@) ==> r is None && *final(self) == *old(self),
            ({
                let hd = header_of(data@, old(self).checksum)->0;
                let compressed = hd.flags & PROTOCOL_HEADER_FLAG_COMPRESSED != 0;
                &&& !header_refused(*old(self), received, data@) && compressed && old(self).compressor is None
                    ==> r is None && *final(self) == *old(self)
                &&& !header_refused(*old(self), received, data@) && !compressed && old(self).checksum
                    && !checksum_matches(checksum_seed(*old(self), hd.peer_id), data@, hd.header_size as int)
                    ==> r is None && *final(self) == *old(self)
            }),
    {
        let header = match self.check_header(&received, data) {
            None => {
                return None;
            },
            Some((h, _)) => h,
        };
        let hs = header.header_size;
        if header.flags & PROTOCOL_HEADER_FLAG_COMPRESSED != 0 {
            if hs > data.len() || hs > 4096 {
                return None;
            }
            let packed = copy_range(data, hs, data.len());
            let room = 4096 - hs;
            let mut out: Vec<u8> = vec![0u8; room];
            let n = match &mut self.compressor {
                None => {
                    return None;
                },
                Some(c) => c.decompress(packed.as_slice(), out.as_mut_slice()),
            };
            self.handle_datagram(received, data, n, out.as_slice())
        } else {
            let none: Vec<u8> = Vec::new();
            self.handle_datagram(received, data, 0, none.as_slice())
        }
    }

    /// The header of datagram `data` from `received` and the peer it names (`None` for no
    /// peer), or `None` when the header is refused (see [`header_refused`]).
    fn check_header(&self, received: &A, data: &[u8]) -> (r: Option<(ProtocolHeader, Option<usize>)>)
        requires
            self.wf(),
        ensures
            r is None <==> header_refused(*self, *received, data@),
            r matches Some((h, p)) ==> h == header_of(data@, self.checksum)->0 && p == if h.peer_id == 4095 {
                None::<usize>
            } else {
                Some(h.peer_id as usize)
            } && (p matches Some(i) ==> i < self.peers@.len()),
    {
        let header = match parse_header(data, self.checksum) {
            None => {
                return None;
            },
            Some(h) => h,
        };
        let pid = header.peer_id as usize;
        if header.peer_id != 4095 {
            if pid >= self.peers.len() {
                return None;
            }
            let p = &self.peers[pid];
            let address_ok = match &self.addresses[pid] {
                Some(a) => received.same(a) || a.is_broadcast(),
                None => false,
            };
            if p.state == PeerState::Disconnected || p.state == PeerState::Zombie || !address_ok
                || (p.outgoing_peer_id < 4095 && header.session_id != p.incoming_session_id) {
                return None;
            }
            return Some((header, Some(pid)));
        }
        Some((header, None))
    }

    /// Handle a datagram `data` received from `received`, whose compressed part, when its
    /// header says it is compressed, the host's compressor decompressed to the first
    /// `unpacked` bytes of `out` (0 when it could not), and return the event it gives, if
    /// any. The datagram is dropped when its header is refused (see [`header_refused`]);
    /// when it is compressed and nothing, or more than a datagram holds after its header,
    /// was decompressed; or when its checksum, if the host uses one, does not match the
    /// datagram as decompressed (see [`checksum_matches`]). Otherwise its commands are
    /// handed, in order, to the peer (a connect command makes one), up to the first that is
    /// refused; those that ask for it are acknowledged.
    #[verifier::spinoff_prover]
    #[verifier::rlimit(80)]
    pub fn handle_datagram(&mut self, received: A, data: &[u8], unpacked: usize, out: &[u8]) -> (r: Option<Event>)
        requires
            old(self).wf(),
        ensures
            final(self).service_time == old(self).service_time,
            final(self).bandwidth_throttle_epoch == old(self).bandwidth_throttle_epoch,
            final(self).total_received_packets == old(self).total_received_packets,
            final(self).total_received_data == old(self).total_received_data,
            final(self).sent == old(self).sent,
            final(self).wf(),
            final(self).peers@.len() == old(self).peers@.len(),
            header_refused(*old(self), received, data@) ==> r is None && *final(self) == *old(self),
            ({
                let hd = header_of(data@, old(self).checksum)->0;
                let hs = hd.header_size as int;
                let compressed = hd.flags & PROTOCOL_HEADER_FLAG_COMPRESSED != 0;
                &&& !header_refused(*old(self), received, data@) && compressed && (hs > data@.len() || hs
                    > 4096 || unpacked == 0 || unpacked > 4096 - hs || unpacked > out@.len())
                    ==> r is None && *final(self) == *old(self)
                &&& !header_refused(*old(self), received, data@) && !(compressed && (hs > data@.len() || hs
                    > 4096 || unpacked == 0 || unpacked > 4096 - hs || unpacked > out@.len()))
                    && old(self).checksum && !checksum_matches(
                    checksum_seed(*old(self), hd.peer_id),
                    decompressed(data@, hs, compressed, out@, unpacked as int),
                    hs,
                ) ==> r is None && *final(self) == *old(self)
                &&& !header_refused(*old(self), received, data@) && !(compressed && (hs > data@.len() || hs
                    > 4096 || unpacked == 0 || unpacked > 4096 - hs || unpacked > out@.len()))
                    && !(old(self).checksum && !checksum_matches(
                    checksum_seed(*old(self), hd.peer_id),
                    decompressed(data@, hs, compressed, out@, unpacked as int),
                    hs,
                )) && hd.peer_id != 4095 ==> final(self).addresses@.len() == old(self).addresses@.len()
                    && (forall|j: int|
                    0 <= j < old(self).addresses@.len() && j != hd.peer_id ==> #[trigger] final(self).addresses@[j]
                        == old(self).addresses@[j]) && (final(self).addresses@[hd.peer_id as int] matches Some(
                    x,
                ) && cloned(received, x))
            }),
    {
        let ghost data0 = data@;
        let (header, mut peer) = match self.check_header(&received, data) {
            None => {
                return None;
            },
            Some(x) => x,
        };
        let hs = header.header_size;
        let datagram: Vec<u8> = if header.flags & PROTOCOL_HEADER_FLAG_COMPRESSED != 0 {
            if hs > data.len() || hs > 4096 {
                return None;
            }
            let room = 4096 - hs;
            if unpacked == 0 || unpacked > room || unpacked > out.len() {
                return None;
            }
            let mut whole = copy_range(data, 0, hs);
            let mut tail = copy_range(out, 0, unpacked);
            whole.append(&mut tail);
            whole
        } else {
            copy_range(data, 0, data.len())
        };
        proof {
            assert(datagram@ =~= decompressed(
                data0,
                hs as int,
                header.flags & PROTOCOL_HEADER_FLAG_COMPRESSED != 0,
                out@,
                unpacked as int,
            ));
        }
        let data = datagram.as_slice();
        if self.checksum {
            if data.len() < hs || hs < 4 {
                return None;
            }
            let desired = read_u32(data, hs - 4);
            let seed = match peer {
                Some(p) => self.peers[p].connect_id,
                None => 0,
            };
            let mut copy = copy_range(data, 0, hs - 4);
            push_u32(&mut copy, htonl(seed));
            let rest = copy_range(data, hs, data.len());
            let bufs = vec![copy.as_slice(), rest.as_slice()];
            proof {
                let m = bufs@.map_values(|b: &[u8]| b@);
                assert(m.len() == 2);
                assert(m[0] == copy@);
                assert(m[1] == rest@);
                assert(m.drop_first().drop_first() =~= Seq::<Seq<u8>>::empty());
                assert(m.drop_first().drop_first().flatten() =~= Seq::<u8>::empty());
                assert(m.drop_first().first() == rest@);
                assert(m.drop_first().flatten() =~= rest@);
                assert(m.flatten() =~= copy@ + rest@);
            }
            let c = crc32(bufs);
            if htonl(c) != desired {
                return None;
            }
            proof {
                assert(data@.take(hs - 4) =~= data@.subrange(0, hs - 4));
                assert(data@.skip(hs as int) =~= data@.subrange(hs as int, data@.len() as int));
                assert(seed == checksum_seed(*old(self), header.peer_id));
                assert(checksum_matches(seed, data@, hs as int));
            }
        }
        let ghost named = peer is Some;
        match peer {
            Some(p) => {
                let ghost h0 = *self;
                self.addresses.set(p, Some(received.clone()));
                {
                    let q = &mut self.peers[p];
                    q.incoming_data_total = q.incoming_data_total.wrapping_add(
                        #[verifier::truncate] (data.len() as u32),
                    );
                }
                proof {
                    lemma_peer_step(h0, *self, p as int);
                }
            },
            None => {},
        }
        let ghost named_addresses = self.addresses@;
        proof {
            if named {
                assert(self.addresses@.len() == old(self).addresses@.len());
                assert(forall|j: int|
                    0 <= j < old(self).addresses@.len() && j != header.peer_id ==> #[trigger] self.addresses@[j]
                        == old(self).addresses@[j]);
            }
        }
        let commands = parse_commands(data, hs, self.maximum_packet_size);
        let mut event: Option<Event> = None;
        let mut k: usize = 0;
        while k < commands.len()
            invariant
                named ==> self.addresses@ == named_addresses && peer == Some(header.peer_id as usize),
                self.sent == old(self).sent,
                self.wf(),
                self.peers@.len() == old(self).peers@.len(),
                self.maximum_packet_size == old(self).maximum_packet_size,
                self.checksum == old(self).checksum,
                self.service_time == old(self).service_time,
                self.bandwidth_throttle_epoch == old(self).bandwidth_throttle_epoch,
                self.total_received_packets == old(self).total_received_packets,
                self.total_received_data == old(self).total_received_data,
                match peer {
                    Some(p) => p < self.peers@.len(),
                    None => true,
                },
            decreases commands@.len() - k,
        {
            let rc = commands[k];
            let pc = rc.command;
            let number = pc.command & 15;
            if peer.is_none() && number != PROTOCOL_COMMAND_CONNECT {
                break;
            }
            if number != body_number_of(&pc.body) || rc.payload_offset > data.len()
                || rc.payload_length > data.len() - rc.payload_offset || rc.payload_length
                > self.maximum_packet_size {
                break;
            }
            let payload = copy_range(data, rc.payload_offset, rc.payload_offset + rc.payload_length);
            match peer {
                Some(p) => {
                    if number == PROTOCOL_COMMAND_CONNECT {
                        break;
                    }
                    let (ok, e) = self.command_to_peer(p, &pc, payload.as_slice());
                    if e.is_some() {
                        event = e;
                    }
                    if !ok {
                        break;
                    }
                },
                None => {
                    let connected = match &pc.body {
                        Command::Connect { .. } => self.handle_connect(received.clone(), &pc),
                        _ => None,
                    };
                    match connected {
                        None => {
                            break;
                        },
                        Some(id) => {
                            peer = Some(id.0);
                        },
                    }
                },
            }
            match peer {
                Some(p) => {
                    if pc.command & PROTOCOL_COMMAND_FLAG_ACKNOWLEDGE != 0 {
                        if header.flags & PROTOCOL_HEADER_FLAG_SENT_TIME == 0 {
                            break;
                        }
                        self.acknowledge_command(p, &pc, header.sent_time);
                    }
                },
                None => {},
            }
            k = k + 1;
        }
        event
    }
}

impl<A: Address, Z: Compressor> Host<A, Z> {
    /// Queue `packet` to be sent on channel `channel_id` to each connected peer; a peer
    /// that refuses it (see [`Peer::send`]) is passed over.
    pub fn broadcast(&mut self, channel_id: u8, packet: &Packet)
        requires
            old(self).wf(),
        ensures
            final(self).wf(),
            final(self).peers@.len() == old(self).peers@.len(),
            forall|j: int|
                0 <= j < old(self).peers@.len() && old(self).peers@[j].state != PeerState::Connected
                    ==> #[trigger] final(self).peers@[j] == old(self).peers@[j],
            *final(self) == (Host { peers: final(self).peers, total_queued: final(self).total_queued, ..*old(self) }),
            forall|j: int|
                0 <= j < old(self).peers@.len() && old(self).peers@[j].state == PeerState::Connected ==> {
                    exists|t0: u32, t1: u32, r: Result<(), PeerSendError>|
                        #[trigger] packet_sent(
                            old(self).peers@[j],
                            final(self).peers@[j],
                            t0,
                            t1,
                            channel_id,
                            *packet,
                            old(self).maximum_packet_size,
                            old(self).checksum,
                            r,
                        )
                },
    {
        let ghost h0 = *self;
        let mps = self.maximum_packet_size;
        let checksum = self.checksum;
        let mut j: usize = 0;
        while j < self.peers.len()
            invariant
                self.wf(),
                j <= self.peers@.len(),
                self.peers@.len() == h0.peers@.len(),
                *self == (Host { peers: self.peers, total_queued: self.total_queued, ..h0 }),
                mps == self.maximum_packet_size,
                checksum == self.checksum,
                forall|k: int|
                    0 <= k < h0.peers@.len() && h0.peers@[k].state != PeerState::Connected
                        ==> #[trigger] self.peers@[k] == h0.peers@[k],
                forall|k: int| j <= k < h0.peers@.len() ==> #[trigger] self.peers@[k] == h0.peers@[k],
                forall|k: int|
                    0 <= k < j && h0.peers@[k].state == PeerState::Connected ==> {
                        exists|t0: u32, t1: u32, r: Result<(), PeerSendError>|
                            #[trigger] packet_sent(
                                h0.peers@[k],
                                self.peers@[k],
                                t0,
                                t1,
                                channel_id,
                                *packet,
                                h0.maximum_packet_size,
                                h0.checksum,
                                r,
                            )
                    },
            decreases self.peers@.len() - j,
        {
            let ghost h1 = *self;
            if self.peers[j].state == PeerState::Connected {
                let sr;
                {
                    let p = &mut self.peers[j];
                    sr = p.send(&mut self.total_queued, channel_id, packet, mps, checksum);
                }
                proof {
                    lemma_peer_step(h1, *self, j as int);
                    assert(packet_sent(
                        h0.peers@[j as int],
                        self.peers@[j as int],
                        h1.total_queued,
                        self.total_queued,
                        channel_id,
                        *packet,
                        h0.maximum_packet_size,
                        h0.checksum,
                        sr,
                    ));
                }
            }
            assert(forall|k: int| 0 <= k < self.peers@.len() && k != j ==> #[trigger] self.peers@[k] == h1.peers@[k]);
            assert forall|k: int|
                0 <= k < j + 1 && h0.peers@[k].state == PeerState::Connected implies {
                    exists|t0: u32, t1: u32, r: Result<(), PeerSendError>|
                        #[trigger] packet_sent(
                            h0.peers@[k],
                            self.peers@[k],
                            t0,
                            t1,
                            channel_id,
                            *packet,
                            h0.maximum_packet_size,
                            h0.checksum,
                            r,
                        )
                } by {
                if k < j {
                    assert(self.peers@[k] == h1.peers@[k]);
                }
            }
            j = j + 1;
        }
    }
}

impl<A: Address + Clone, Z: Compressor> Host<A, Z> {
    /// Receive up to 256 datagrams from `socket` and handle each (see
    /// [`Host::handle_incoming_commands`]); a partial datagram, or one larger than a
    /// buffer, is dropped and does not count. Stops at the first event, which is returned, when the socket
    /// has nothing more, or at its first error, which is returned.
    pub fn receive_incoming_commands<S: Socket<PeerAddress = A>>(&mut self, socket: &mut S) -> (r:
        Result<Option<Event>, S::Error>)
        requires
            old(self).wf(),
        ensures
            final(self).wf(),
            final(self).peers@.len() == old(self).peers@.len(),
            final(self).service_time == old(self).service_time,
            final(self).bandwidth_throttle_epoch == old(self).bandwidth_throttle_epoch,
            exists|n: nat|
                n <= 256 && #[trigger] count_advanced(old(self).total_received_packets, final(self).total_received_packets, n),
            final(self).sent == old(self).sent,
    {
        let mut packets: usize = 0;
        let mut polls: u64 = 0;
        let ghost mut handled: nat = 0;
        while packets < 256 && polls < u64::MAX
            invariant
                self.sent == old(self).sent,
                self.wf(),
                self.peers@.len() == old(self).peers@.len(),
                self.service_time == old(self).service_time,
                self.bandwidth_throttle_epoch == old(self).bandwidth_throttle_epoch,
                handled == packets <= 256,
                count_advanced(old(self).total_received_packets, self.total_received_packets, handled),
            decreases u64::MAX - polls,
        {
            polls = polls + 1;
            let mut buffer = [0u8; 4096];
            let (address, received) = match socket.receive(&mut buffer) {
                Err(e) => {
                    assert(count_advanced(old(self).total_received_packets, self.total_received_packets, handled));
                    return Err(e);
                },
                Ok(None) => {
                    assert(count_advanced(old(self).total_received_packets, self.total_received_packets, handled));
                    return Ok(None);
                },
                Ok(Some(r)) => r,
            };
            let n = match received_length(received) {
                None => {
                    continue;
                },
                Some(n) => n,
            };
            packets = packets + 1;
            let data = copy_range(buffer.as_slice(), 0, n);
            self.total_received_data = self.total_received_data.wrapping_add(#[verifier::truncate] (n as u32));
            self.total_received_packets = self.total_received_packets.wrapping_add(1);
            proof {
                handled = handled + 1;
            }
            match self.handle_incoming_commands(address, data.as_slice()) {
                Some(event) => {
                    assert(count_advanced(old(self).total_received_packets, self.total_received_packets, handled));
                    return Ok(Some(event));
                },
                None => {},
            }
        }
        assert(count_advanced(old(self).total_received_packets, self.total_received_packets, handled));
        Ok(None)
    }

    /// Service the host at time `time`: return the first event already waiting, if any;
    /// otherwise take `time` as the service time, throttle the bandwidth when a throttle
    /// interval has passed, send what is queued (checking for time outs), receive and
    /// handle what came in, send again, and return the first event any of this gives.
    /// An error of the socket is returned.
    pub fn service<S: Socket<PeerAddress = A>>(&mut self, socket: &mut S, time: u32) -> (r:
        Result<Option<Event>, S::Error>)
        requires
            old(self).wf(),
        ensures
            final(self).wf(),
            final(self).peers@.len() == old(self).peers@.len(),
            event_waiting(*old(self)) ==> r matches Ok(Some(_)),
            !event_waiting(*old(self)) ==> final(self).service_time == time,
            ({
                let due = time_difference(time, old(self).bandwidth_throttle_epoch) >= HOST_BANDWIDTH_THROTTLE_INTERVAL
                    && time.wrapping_sub(old(self).bandwidth_throttle_epoch) >= HOST_BANDWIDTH_THROTTLE_INTERVAL;
                &&& !event_waiting(*old(self)) && due ==> final(self).bandwidth_throttle_epoch == time
                &&& !event_waiting(*old(self)) && !due ==> final(self).bandwidth_throttle_epoch
                    == old(self).bandwidth_throttle_epoch
            }),
            event_waiting(*old(self)) ==> final(self).sent == old(self).sent,
            old(self).sent@.len() <= final(self).sent@.len(),
            final(self).sent@.take(old(self).sent@.len() as int) == old(self).sent@,
    {
        let ghost h0 = *self;
        assert(h0.sent@.take(h0.sent@.len() as int) =~= h0.sent@);
        match self.check_events() {
            Some(event) => {
                return Ok(Some(event));
            },
            None => {},
        }
        proof {
            if event_waiting(h0) {
                let j = choose|j: int| 0 <= j < h0.dispatch_queue@.len() && !dispatch_quiet(#[trigger] h0.peers@[h0.dispatch_queue@[j] as int]);
                assert(!dispatch_quiet(h0.peers@[h0.dispatch_queue@[j] as int]));
            }
        }
        self.service_time = time;
        if time_diff(time, self.bandwidth_throttle_epoch) >= HOST_BANDWIDTH_THROTTLE_INTERVAL {
            self.bandwidth_throttle(time);
        }
        let ghost h1 = *self;
        let first = self.send_outgoing_commands(socket, true);
        proof {
            assert(self.sent@.take(h0.sent@.len() as int) =~= self.sent@.take(h1.sent@.len() as int).take(
                h0.sent@.len() as int,
            ));
        }
        match first {
            Err(e) => {
                return Err(e);
            },
            Ok(Some(event)) => {
                return Ok(Some(event));
            },
            Ok(None) => {},
        }
        match self.receive_incoming_commands(socket) {
            Err(e) => {
                return Err(e);
            },
            Ok(Some(event)) => {
                return Ok(Some(event));
            },
            Ok(None) => {},
        }
        let ghost h2 = *self;
        let second = self.send_outgoing_commands(socket, true);
        proof {
            assert(self.sent@.take(h0.sent@.len() as int) =~= self.sent@.take(h2.sent@.len() as int).take(
                h0.sent@.len() as int,
            ));
        }
        match second {
            Err(e) => {
                return Err(e);
            },
            Ok(Some(event)) => {
                return Ok(Some(event));
            },
            Ok(None) => {},
        }
        Ok(self.check_events())
    }

    /// Send what is queued for the peers at time `time`, without checking for time outs.
    /// An error of the socket is dropped.
    pub fn flush<S: Socket<PeerAddress = A>>(&mut self, socket: &mut S, time: u32)
        requires
            old(self).wf(),
        ensures
            final(self).wf(),
            final(self).peers@.len() == old(self).peers@.len(),
            final(self).service_time == time,
            final(self).bandwidth_throttle_epoch == old(self).bandwidth_throttle_epoch,
            final(self).total_received_packets == old(self).total_received_packets,
            final(self).total_received_data == old(self).total_received_data,
            forall|j: int|
                0 <= j < old(self).peers@.len() && (old(self).peers@[j].state == PeerState::Disconnected
                    || old(self).peers@[j].state == PeerState::Zombie) ==> #[trigger] final(self).peers@[j]
                    == old(self).peers@[j],
            (forall|j: int|
                0 <= j < old(self).peers@.len() && !(old(self).peers@[j].state == PeerState::Disconnected
                    || old(self).peers@[j].state == PeerState::Zombie) ==> sends_nothing(
                    #[trigger] old(self).peers@[j],
                    time,
                    false,
                )) ==> forall|j: int|
                0 <= j < old(self).peers@.len() ==> #[trigger] final(self).peers@[j] == passed_over(
                    old(self).peers@[j],
                ),
            final(self).addresses == old(self).addresses,
            sent_to_live_peers(*old(self), *final(self), time),
    {
        self.service_time = time;
        let _ = self.send_outgoing_commands(socket, false);
    }
}

} // verus!
