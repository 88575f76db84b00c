//! Reassembling fragmented packets: finding or starting the command that stands for the
//! whole packet, marking each arriving fragment in its bitmap, copying its bytes into
//! place, and delivering the packet once every fragment has arrived.
use vstd::prelude::*;
use crate::channel::{
    dispatch_incoming_reliable_commands, dispatch_incoming_unreliable_commands, insert_position,
    reliable_dispatch, reliable_le, same_outgoing, unreliable_dispatch, unreliable_le, Channel,
    IncomingCommand, QueueOutcome, in_free_window, free_window, reliable_position,
    unreliable_position,
};
use crate::consts::PROTOCOL_MAXIMUM_FRAGMENT_COUNT;
use crate::incoming::{flags_after_delivery, peer_queued_incoming};
use crate::packet::{PACKET_FLAG_RELIABLE, PACKET_FLAG_UNRELIABLE_FRAGMENT};
use crate::peer::{Peer, PeerState, PEER_FLAG_NEEDS_DISPATCH};
use crate::protocol::{
    command_number, well_formed, Command, FragmentFields, ProtocolCommand,
    PROTOCOL_COMMAND_SEND_FRAGMENT, PROTOCOL_COMMAND_SEND_UNRELIABLE_FRAGMENT,
};

verus! {

/// The list of a channel that fragments of the given kind go to.
pub open spec fn fragment_list(ch: Channel, reliable: bool) -> Seq<IncomingCommand> {
    if reliable {
        ch.incoming_reliable_commands@
    } else {
        ch.incoming_unreliable_commands@
    }
}

/// The bit of fragment `number` in its bitmap word.
pub open spec fn fragment_bit(number: u32) -> u32 {
    1u32 << (number % 32)
}

/// `d` with `src` written over it from `offset`, as far as `d` reaches.
pub open spec fn overwrite(d: Seq<u8>, offset: int, src: Seq<u8>) -> Seq<u8> {
    let n = if src.len() <= d.len() - offset {
        src.len() as int
    } else {
        d.len() - offset
    };
    d.subrange(0, offset) + src.take(n) + d.subrange(offset + n, d.len() as int)
}

/// Whether `c1` is `c0` once fragment `number`, whose bytes `payload` start at `offset`,
/// has been stored in it: marked in the bitmap, counted, and copied into the packet.
pub open spec fn fragment_written(
    c0: IncomingCommand,
    c1: IncomingCommand,
    number: u32,
    offset: u32,
    payload: Seq<u8>,
) -> bool {
    let w = number as int / 32;
    &&& c1.reliable_sequence_number == c0.reliable_sequence_number
    &&& c1.unreliable_sequence_number == c0.unreliable_sequence_number
    &&& c1.command == c0.command
    &&& c1.channel_id == c0.channel_id
    &&& c1.fragment_count == c0.fragment_count
    &&& c1.fragments_remaining == (if c0.fragments_remaining == 0 {
        u32::MAX
    } else {
        (c0.fragments_remaining - 1) as u32
    })
    &&& c1.fragments@ == c0.fragments@.update(w, c0.fragments@[w] | fragment_bit(number))
    &&& c1.packet.bytes() == overwrite(c0.packet.bytes(), offset as int, payload)
    &&& c1.packet.spec_flags() == c0.packet.spec_flags()
}

/// Whether `(ch1, d1)` is what putting `c1` at index `i` of the list of `ch0` for the given
/// kind gives, followed, when `c1` has no fragment left to wait for, by delivering the
/// commands of the channel that can be delivered.
pub open spec fn after_fragment(
    ch0: Channel,
    d0: Seq<IncomingCommand>,
    reliable: bool,
    i: int,
    c1: IncomingCommand,
    ch1: Channel,
    d1: Seq<IncomingCommand>,
) -> bool {
    let inc = ch0.incoming_reliable_sequence_number;
    &&& same_outgoing(ch1, ch0)
    &&& if reliable {
        let l = ch0.incoming_reliable_commands@.update(i, c1);
        if c1.fragments_remaining == 0 {
            let r = reliable_dispatch(
                l,
                inc,
                ch0.incoming_unreliable_commands@,
                ch0.incoming_unreliable_sequence_number,
            );
            &&& ch1.incoming_reliable_commands@ == r.0
            &&& ch1.incoming_reliable_sequence_number == r.1
            &&& ch1.incoming_unreliable_commands@ == r.2
            &&& ch1.incoming_unreliable_sequence_number == r.3
            &&& d1 == d0 + r.4
        } else {
            &&& ch1.incoming_reliable_commands@ == l
            &&& ch1.incoming_reliable_sequence_number == inc
            &&& ch1.incoming_unreliable_commands@ == ch0.incoming_unreliable_commands@
            &&& ch1.incoming_unreliable_sequence_number == ch0.incoming_unreliable_sequence_number
            &&& d1 == d0
        }
    } else {
        let l = ch0.incoming_unreliable_commands@.update(i, c1);
        &&& ch1.incoming_reliable_commands@ == ch0.incoming_reliable_commands@
        &&& ch1.incoming_reliable_sequence_number == inc
        &&& if c1.fragments_remaining == 0 {
            let u = unreliable_dispatch(l, inc, ch0.incoming_unreliable_sequence_number, None);
            &&& ch1.incoming_unreliable_commands@ == u.0
            &&& ch1.incoming_unreliable_sequence_number == u.2
            &&& d1 == d0 + u.1
        } else {
            &&& ch1.incoming_unreliable_commands@ == l
            &&& ch1.incoming_unreliable_sequence_number == ch0.incoming_unreliable_sequence_number
            &&& d1 == d0
        }
    }
}

/// Whether `(ch1, d1, ok)` is what recording fragment `number` (bytes `payload` at
/// `offset`) in the command at index `i` of the list of `ch0` for the given kind gives.
/// A fragment already recorded changes nothing; a fragment number beyond the bitmap
/// of the command is refused.
pub open spec fn fragment_recorded(
    ch0: Channel,
    d0: Seq<IncomingCommand>,
    reliable: bool,
    i: int,
    number: u32,
    offset: u32,
    payload: Seq<u8>,
    ok: bool,
    ch1: Channel,
    d1: Seq<IncomingCommand>,
) -> bool {
    let c0 = fragment_list(ch0, reliable)[i];
    let w = number as int / 32;
    if w >= c0.fragments@.len() || c0.fragments@[w] & fragment_bit(number) != 0 {
        &&& ok == (w < c0.fragments@.len())
        &&& ch1 == ch0
        &&& d1 == d0
    } else {
        &&& ok
        &&& exists|c1: IncomingCommand|
            fragment_written(c0, c1, number, offset, payload) && after_fragment(
                ch0,
                d0,
                reliable,
                i,
                c1,
                ch1,
                d1,
            )
    }
}

/// Record fragment `number`, whose bytes `payload` start at `offset` of the packet, in the
/// command at index `i` of the list of `channel` for the given kind (see
/// [`fragment_recorded`]). Once the command has every fragment, the commands of the channel
/// that can be delivered are delivered to `dispatched`.
pub fn record_fragment(
    channel: &mut Channel,
    dispatched: &mut Vec<IncomingCommand>,
    reliable: bool,
    i: usize,
    number: u32,
    offset: u32,
    payload: &[u8],
) -> (ok: bool)
    requires
        i < fragment_list(*old(channel), reliable).len(),
        offset <= fragment_list(*old(channel), reliable)[i as int].packet.bytes().len(),
    ensures
        fragment_recorded(
            *old(channel),
            old(dispatched)@,
            reliable,
            i as int,
            number,
            offset,
            payload@,
            ok,
            *final(channel),
            final(dispatched)@,
        ),
{
    let ghost ch0 = *channel;
    let ghost l0 = fragment_list(*channel, reliable);
    let w = (number / 32) as usize;
    let bit: u32 = 1u32 << (number % 32);
    let c_ref = if reliable {
        &channel.incoming_reliable_commands[i]
    } else {
        &channel.incoming_unreliable_commands[i]
    };
    if w >= c_ref.fragments.len() {
        return false;
    }
    if c_ref.fragments[w] & bit != 0 {
        return true;
    }
    let mut c = if reliable {
        channel.incoming_reliable_commands.remove(i)
    } else {
        channel.incoming_unreliable_commands.remove(i)
    };
    let ghost c0 = c;
    assert(c0 == l0[i as int]);
    c.fragments_remaining = if c.fragments_remaining == 0 {
        u32::MAX
    } else {
        c.fragments_remaining - 1
    };
    let word = c.fragments[w] | bit;
    c.fragments.set(w, word);
    c.packet.write_at(offset as usize, payload);
    let done = c.fragments_remaining == 0;
    assert(fragment_written(c0, c, number, offset, payload@));
    let ghost c1 = c;
    if reliable {
        channel.incoming_reliable_commands.insert(i, c);
        assert(channel.incoming_reliable_commands@ =~= ch0.incoming_reliable_commands@.update(
            i as int,
            c1,
        ));
        if done {
            dispatch_incoming_reliable_commands(channel, dispatched);
        }
    } else {
        channel.incoming_unreliable_commands.insert(i, c);
        assert(channel.incoming_unreliable_commands@
            =~= ch0.incoming_unreliable_commands@.update(i as int, c1));
        if done {
            dispatch_incoming_unreliable_commands(channel, dispatched, None);
        }
    }
    assert(after_fragment(ch0, old(dispatched)@, reliable, i as int, c1, *channel, dispatched@));
    true
}


/// Whether `p1` and `ok` are what recording fragment `number` (bytes `payload` at `offset`)
/// in the command at index `i` of the list for the given kind of channel `cid` of peer `p0`
/// gives: only that channel, the delivered commands and the dispatch flag change.
pub open spec fn peer_fragment_recorded(
    p0: Peer,
    p1: Peer,
    cid: int,
    reliable: bool,
    i: int,
    number: u32,
    offset: u32,
    payload: Seq<u8>,
    ok: bool,
) -> bool {
    &&& p1.channels@.len() == p0.channels@.len()
    &&& fragment_recorded(
        p0.channels@[cid],
        p0.dispatched_commands@,
        reliable,
        i,
        number,
        offset,
        payload,
        ok,
        p1.channels@[cid],
        p1.dispatched_commands@,
    )
    &&& forall|j: int| 0 <= j < p0.channels@.len() && j != cid ==> p1.channels@[j] == p0.channels@[j]
    &&& p1.flags == flags_after_delivery(
        p0.flags,
        p0.dispatched_commands@.len(),
        p1.dispatched_commands@.len(),
    )
    &&& p1 == (Peer {
        channels: p1.channels,
        dispatched_commands: p1.dispatched_commands,
        flags: p1.flags,
        ..p0
    })
}

/// Whether a fragment is ignored: it belongs to a reliable window that is not open, or,
/// for an unreliable fragment, to a packet older than the last one delivered.
pub open spec fn fragment_ignored(ch: Channel, reliable: bool, seq: u16, start: u16) -> bool {
    let inc = ch.incoming_reliable_sequence_number;
    if reliable {
        !in_free_window(start, inc)
    } else {
        !in_free_window(seq, inc) || (seq == inc && start <= ch.incoming_unreliable_sequence_number)
    }
}

/// Whether the fields of a fragment with `len` bytes do not describe a fragment of a packet
/// that the host takes.
pub open spec fn fragment_refused(
    f: FragmentFields,
    len: int,
    maximum_packet_size: int,
    reliable: bool,
) -> bool {
    ||| f.fragment_count > PROTOCOL_MAXIMUM_FRAGMENT_COUNT
    ||| f.fragment_number >= f.fragment_count
    ||| f.total_length > maximum_packet_size
    ||| (reliable && f.total_length < f.fragment_count)
    ||| f.fragment_offset >= f.total_length
    ||| len > f.total_length - f.fragment_offset
}

/// Where the command that stands for the packet of a fragment is in its list, if it is
/// there: the command numbered `start` for a reliable fragment, (`seq`, `start`) for an
/// unreliable one.
pub open spec fn fragment_start_index(ch: Channel, reliable: bool, seq: u16, start: u16) -> Option<
    int,
> {
    let inc = ch.incoming_reliable_sequence_number;
    if reliable {
        let l = ch.incoming_reliable_commands@;
        let pos = insert_position(l, reliable_le(inc, start));
        if pos > 0 && l[pos - 1].reliable_sequence_number == start {
            Some(pos - 1)
        } else {
            None
        }
    } else {
        let l = ch.incoming_unreliable_commands@;
        let pos = insert_position(l, unreliable_le(inc, seq, start));
        if pos > 0 && l[pos - 1].reliable_sequence_number == seq && l[pos
            - 1].unreliable_sequence_number == start {
            Some(pos - 1)
        } else {
            None
        }
    }
}

/// Whether `c` stands for the packet that a fragment with fields `f` belongs to.
pub open spec fn starts_packet_of(c: IncomingCommand, reliable: bool, f: FragmentFields) -> bool {
    &&& command_number(c.command) == (if reliable {
        PROTOCOL_COMMAND_SEND_FRAGMENT
    } else {
        PROTOCOL_COMMAND_SEND_UNRELIABLE_FRAGMENT
    })
    &&& c.packet.bytes().len() == f.total_length
    &&& c.fragment_count == f.fragment_count
}

/// Whether `p1` and `ok` are what handling a fragment command with fields `f` and bytes
/// `payload` on peer `p0` gives.
///
/// The fragment is refused when the peer takes no data on its channel or its length is
/// wrong, ignored when it lies outside the open windows, and refused when its fields are
/// inconsistent. Otherwise it goes to the command that stands for its packet: the one in
/// the channel, which must agree on kind, length and fragment count, or a new one queued
/// with a zeroed packet of the total length; there it is recorded.
pub open spec fn fragment_handled(
    p0: Peer,
    p1: Peer,
    command: ProtocolCommand,
    reliable: bool,
    f: FragmentFields,
    payload: Seq<u8>,
    maximum_packet_size: usize,
    maximum_waiting_data: usize,
    ok: bool,
) -> bool {
    let cid = command.channel_id as int;
    let ch = p0.channels@[cid];
    let seq = command.reliable_sequence_number;
    let start = f.start_sequence_number;
    if !p0.accepts_data_on(command.channel_id) || (reliable && payload.len() == 0) || payload.len()
        > maximum_packet_size {
        !ok && p1 == p0
    } else if fragment_ignored(ch, reliable, seq, start) {
        ok && p1 == p0
    } else if fragment_refused(f, payload.len() as int, maximum_packet_size as int, reliable) {
        !ok && p1 == p0
    } else {
        match fragment_start_index(ch, reliable, seq, start) {
            Some(i) => if starts_packet_of(fragment_list(ch, reliable)[i], reliable, f) {
                peer_fragment_recorded(
                    p0,
                    p1,
                    cid,
                    reliable,
                    i,
                    f.fragment_number,
                    f.fragment_offset,
                    payload,
                    ok,
                )
            } else {
                !ok && p1 == p0
            },
            None => exists|mid: Peer, r: QueueOutcome|
                {
                    &&& #[trigger] peer_queued_incoming(
                        p0,
                        mid,
                        cid,
                        maximum_waiting_data,
                        command.command,
                        fragment_queue_seq(reliable, seq, start),
                        fragment_queue_useq(reliable, start),
                        zero_bytes(f.total_length as nat),
                        fragment_packet_flags(reliable),
                        f.fragment_count,
                        r,
                    )
                    &&& match r {
                        QueueOutcome::Queued(i) => peer_fragment_recorded(
                            mid,
                            p1,
                            cid,
                            reliable,
                            i as int,
                            f.fragment_number,
                            f.fragment_offset,
                            payload,
                            ok,
                        ),
                        _ => !ok && p1 == mid,
                    }
                },
        }
    }
}

/// The reliable sequence number under which the command for the packet of a fragment
/// is queued.
pub open spec fn fragment_queue_seq(reliable: bool, seq: u16, start: u16) -> u16 {
    if reliable {
        start
    } else {
        seq
    }
}

/// The unreliable sequence number under which the command for the packet of a fragment
/// is queued.
pub open spec fn fragment_queue_useq(reliable: bool, start: u16) -> u16 {
    if reliable {
        0
    } else {
        start
    }
}

/// The packet flags of a packet reassembled from fragments.
pub open spec fn fragment_packet_flags(reliable: bool) -> u32 {
    if reliable {
        PACKET_FLAG_RELIABLE
    } else {
        PACKET_FLAG_UNRELIABLE_FRAGMENT
    }
}

/// `n` zero bytes.
pub open spec fn zero_bytes(n: nat) -> Seq<u8> {
    Seq::new(n, |k: int| 0u8)
}

/// A vector of `n` zero bytes.
fn zeros(n: usize) -> (v: Vec<u8>)
    ensures
        v@ == zero_bytes(n as nat),
{
    let mut v: Vec<u8> = Vec::new();
    while v.len() < n
        invariant
            v.len() <= n,
            v@ == Seq::new(v.len() as nat, |k: int| 0u8),
        decreases n - v.len(),
    {
        v.push(0u8);
    }
    v
}

impl Peer {
    /// Record a fragment in the command at index `i` of the list for the given kind of
    /// channel `cid` (see [`record_fragment`]), and mark the peer as needing dispatch when
    /// commands were delivered.
    fn record_on_channel(
        &mut self,
        cid: usize,
        reliable: bool,
        i: usize,
        number: u32,
        offset: u32,
        payload: &[u8],
    ) -> (ok: bool)
        requires
            cid < old(self).channels@.len(),
            i < fragment_list(old(self).channels@[cid as int], reliable).len(),
            offset <= fragment_list(old(self).channels@[cid as int], reliable)[i as int].packet.bytes().len(),
        ensures
            crate::control::keeps_identity(*old(self), *final(self)),
            peer_fragment_recorded(
                *old(self),
                *final(self),
                cid as int,
                reliable,
                i as int,
                number,
                offset,
                payload@,
                ok,
            ),
    {
        let ghost p0 = *self;
        let before = self.dispatched_commands.len();
        let mut ch = self.channels.remove(cid);
        let ok = record_fragment(
            &mut ch,
            &mut self.dispatched_commands,
            reliable,
            i,
            number,
            offset,
            payload,
        );
        self.channels.insert(cid, ch);
        if self.dispatched_commands.len() > before {
            self.flags = self.flags | PEER_FLAG_NEEDS_DISPATCH;
        }
        proof {
            assert(self.channels@[cid as int] == ch);
            assert forall|j: int| 0 <= j < p0.channels@.len() && j != cid implies self.channels@[j]
                == p0.channels@[j] by {
                if j < cid {
                    assert(self.channels@[j] == p0.channels@[j]);
                } else {
                    assert(self.channels@[j] == p0.channels@[j]);
                }
            }
        }
        ok
    }
}

impl Peer {
    /// Handle a fragment command of the given kind with fields `f` and bytes `payload`
    /// (see [`fragment_handled`]).
    fn handle_fragment(
        &mut self,
        reliable: bool,
        command: &ProtocolCommand,
        f: FragmentFields,
        payload: &[u8],
        maximum_packet_size: usize,
        maximum_waiting_data: usize,
    ) -> (ok: bool)
        requires
            well_formed(*command),
            command_number(command.command) == (if reliable {
                PROTOCOL_COMMAND_SEND_FRAGMENT
            } else {
                PROTOCOL_COMMAND_SEND_UNRELIABLE_FRAGMENT
            }),
            old(self).channels@.len() <= 255,
            maximum_waiting_data + maximum_packet_size <= usize::MAX,
        ensures
            crate::control::keeps_identity(*old(self), *final(self)),
            fragment_handled(
                *old(self),
                *final(self),
                *command,
                reliable,
                f,
                payload@,
                maximum_packet_size,
                maximum_waiting_data,
                ok,
            ),
    {
        let cid = command.channel_id as usize;
        if cid >= self.channels.len() || (self.state != PeerState::Connected && self.state
            != PeerState::DisconnectLater) {
            return false;
        }
        let len = payload.len();
        if (reliable && len == 0) || len > maximum_packet_size {
            return false;
        }
        let seq = command.reliable_sequence_number;
        let start = f.start_sequence_number;
        let inc = self.channels[cid].incoming_reliable_sequence_number;
        if reliable {
            if !free_window(start, inc) {
                return true;
            }
        } else if !free_window(seq, inc) || (seq == inc && start
            <= self.channels[cid].incoming_unreliable_sequence_number) {
            return true;
        }
        if f.fragment_count > PROTOCOL_MAXIMUM_FRAGMENT_COUNT || f.fragment_number
            >= f.fragment_count || f.total_length as usize > maximum_packet_size || (reliable
            && f.total_length < f.fragment_count) || f.fragment_offset >= f.total_length || len
            > (f.total_length - f.fragment_offset) as usize {
            return false;
        }
        let ghost p0 = *self;
        let ghost ch = self.channels@[cid as int];
        let pos = if reliable {
            reliable_position(&self.channels[cid].incoming_reliable_commands, inc, start)
        } else {
            unreliable_position(&self.channels[cid].incoming_unreliable_commands, inc, seq, start)
        };
        proof {
            crate::channel::lemma_insert_position_bounds(
                ch.incoming_reliable_commands@,
                reliable_le(inc, start),
            );
            crate::channel::lemma_insert_position_bounds(
                ch.incoming_unreliable_commands@,
                unreliable_le(inc, seq, start),
            );
        }
        let found = pos > 0 && if reliable {
            self.channels[cid].incoming_reliable_commands[pos - 1].reliable_sequence_number
                == start
        } else {
            self.channels[cid].incoming_unreliable_commands[pos - 1].reliable_sequence_number
                == seq
                && self.channels[cid].incoming_unreliable_commands[pos
                - 1].unreliable_sequence_number == start
        };
        let idx: usize;
        if found {
            let c = if reliable {
                &self.channels[cid].incoming_reliable_commands[pos - 1]
            } else {
                &self.channels[cid].incoming_unreliable_commands[pos - 1]
            };
            let expected = if reliable {
                PROTOCOL_COMMAND_SEND_FRAGMENT
            } else {
                PROTOCOL_COMMAND_SEND_UNRELIABLE_FRAGMENT
            };
            if c.command & 15 != expected || c.packet.data_length() != f.total_length as usize
                || c.fragment_count != f.fragment_count {
                return false;
            }
            idx = pos - 1;
            assert(fragment_start_index(ch, reliable, seq, start) == Some(idx as int));
        } else {
            assert(fragment_start_index(ch, reliable, seq, start) is None);
            let data = zeros(f.total_length as usize);
            let r = self.queue_on_channel(
                cid,
                maximum_waiting_data,
                command.command,
                if reliable {
                    start
                } else {
                    seq
                },
                if reliable {
                    0
                } else {
                    start
                },
                data,
                if reliable {
                    PACKET_FLAG_RELIABLE
                } else {
                    PACKET_FLAG_UNRELIABLE_FRAGMENT
                },
                f.fragment_count,
            );
            match r {
                QueueOutcome::Queued(i) => {
                    idx = i;
                },
                _ => {
                    assert(peer_queued_incoming(
                        p0,
                        *self,
                        cid as int,
                        maximum_waiting_data,
                        command.command,
                        fragment_queue_seq(reliable, seq, start),
                        fragment_queue_useq(reliable, start),
                        zero_bytes(f.total_length as nat),
                        fragment_packet_flags(reliable),
                        f.fragment_count,
                        r,
                    ));
                    return false;
                },
            }
        }
        let ghost mid = *self;
        let ok = self.record_on_channel(cid, reliable, idx, f.fragment_number, f.fragment_offset, payload);
        proof {
            if !found {
                assert(peer_queued_incoming(
                    p0,
                    mid,
                    cid as int,
                    maximum_waiting_data,
                    command.command,
                    fragment_queue_seq(reliable, seq, start),
                    fragment_queue_useq(reliable, start),
                    zero_bytes(f.total_length as nat),
                    fragment_packet_flags(reliable),
                    f.fragment_count,
                    QueueOutcome::Queued(idx),
                ));
            }
        }
        ok
    }

    /// Handle a reliable fragment command with its payload: reassemble the packet it
    /// belongs to on its channel, and deliver it once complete (see [`fragment_handled`]).
    /// Returns false when the fragment is refused.
    pub fn handle_send_fragment(
        &mut self,
        command: &ProtocolCommand,
        payload: &[u8],
        maximum_packet_size: usize,
        maximum_waiting_data: usize,
    ) -> (ok: bool)
        requires
            well_formed(*command),
            command.body is SendFragment,
            old(self).channels@.len() <= 255,
            maximum_waiting_data + maximum_packet_size <= usize::MAX,
        ensures
            crate::control::keeps_identity(*old(self), *final(self)),
            fragment_handled(
                *old(self),
                *final(self),
                *command,
                true,
                command.body->SendFragment_fragment,
                payload@,
                maximum_packet_size,
                maximum_waiting_data,
                ok,
            ),
    {
        let f = match &command.body {
            Command::SendFragment { fragment } => *fragment,
            Command::SendUnreliableFragment { fragment } => *fragment,
            _ => FragmentFields {
                start_sequence_number: 0,
                data_length: 0,
                fragment_count: 0,
                fragment_number: 0,
                total_length: 0,
                fragment_offset: 0,
            },
        };
        self.handle_fragment(true, command, f, payload, maximum_packet_size, maximum_waiting_data)
    }

    /// Handle an unreliable fragment command with its payload: reassemble the packet it
    /// belongs to on its channel, and deliver it once complete (see [`fragment_handled`]).
    /// Returns false when the fragment is refused.
    pub fn handle_send_unreliable_fragment(
        &mut self,
        command: &ProtocolCommand,
        payload: &[u8],
        maximum_packet_size: usize,
        maximum_waiting_data: usize,
    ) -> (ok: bool)
        requires
            well_formed(*command),
            command.body is SendUnreliableFragment,
            old(self).channels@.len() <= 255,
            maximum_waiting_data + maximum_packet_size <= usize::MAX,
        ensures
            crate::control::keeps_identity(*old(self), *final(self)),
            fragment_handled(
                *old(self),
                *final(self),
                *command,
                false,
                command.body->SendUnreliableFragment_fragment,
                payload@,
                maximum_packet_size,
                maximum_waiting_data,
                ok,
            ),
    {
        let f = match &command.body {
            Command::SendUnreliableFragment { fragment } => *fragment,
            Command::SendFragment { fragment } => *fragment,
            _ => FragmentFields {
                start_sequence_number: 0,
                data_length: 0,
                fragment_count: 0,
                fragment_number: 0,
                total_length: 0,
                fragment_offset: 0,
            },
        };
        self.handle_fragment(false, command, f, payload, maximum_packet_size, maximum_waiting_data)
    }
}

} // verus!
