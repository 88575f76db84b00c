//! Queueing commands to send to a peer: the numbering of commands in their channels, and
//! the splitting of large packets into fragments.
use vstd::prelude::*;
use crate::channel::Channel;
use crate::consts::{PROTOCOL_MAXIMUM_FRAGMENT_COUNT, PROTOCOL_MAXIMUM_MTU, PROTOCOL_MINIMUM_MTU};
use crate::error::PeerSendError;
use crate::packet::{
    Packet, PACKET_FLAG_RELIABLE, PACKET_FLAG_UNRELIABLE_FRAGMENT, PACKET_FLAG_UNSEQUENCED,
};
use crate::peer::{OutgoingCommand, Peer, PeerState};
use crate::protocol::{
    command_number, command_size_of, enet_protocol_command_size, well_formed, Command,
    FragmentFields, ProtocolCommand, PROTOCOL_COMMAND_FLAG_ACKNOWLEDGE,
    PROTOCOL_COMMAND_FLAG_UNSEQUENCED, PROTOCOL_COMMAND_MASK, PROTOCOL_COMMAND_SEND_FRAGMENT,
    PROTOCOL_COMMAND_SEND_RELIABLE, PROTOCOL_COMMAND_SEND_UNRELIABLE,
    PROTOCOL_COMMAND_SEND_UNRELIABLE_FRAGMENT, PROTOCOL_COMMAND_SEND_UNSEQUENCED,
};

verus! {

/// The command `pc` with its reliable sequence number set, and the unreliable sequence
/// number or unsequenced group of its body set when it has one.
pub open spec fn numbered(pc: ProtocolCommand, rsn: u16, usn: u16, group: u16) -> ProtocolCommand {
    ProtocolCommand {
        reliable_sequence_number: rsn,
        body: match pc.body {
            Command::SendUnreliable { data_length, .. } => Command::SendUnreliable {
                unreliable_sequence_number: usn,
                data_length,
            },
            Command::SendUnsequenced { data_length, .. } => Command::SendUnsequenced {
                unsequenced_group: group,
                data_length,
            },
            b => b,
        },
        ..pc
    }
}

/// The command `c` with the given numbering, made ready to be sent: not yet sent and
/// queued as the `queue_time`-th command of the host.
pub open spec fn prepared(
    c: OutgoingCommand,
    rsn: u16,
    usn: u16,
    group: u16,
    queue_time: u32,
) -> OutgoingCommand {
    OutgoingCommand {
        reliable_sequence_number: rsn,
        unreliable_sequence_number: usn,
        sent_time: 0,
        round_trip_timeout: 0,
        queue_time,
        send_attempts: 0,
        command: numbered(c.command, rsn, usn, group),
        ..c
    }
}

/// Whether a prepared command goes to the queue of reliable data: it must be acknowledged
/// and carries packet data.
pub open spec fn goes_to_send_reliable(c: OutgoingCommand) -> bool {
    c.command.command & PROTOCOL_COMMAND_FLAG_ACKNOWLEDGE != 0 && c.has_packet
}

/// The numbers an outgoing command gets, and the peer's and channel's sequence numbers
/// after it: `(rsn, usn, peer's reliable sequence, peer's unsequenced group, channel's
/// reliable sequence, channel's unreliable sequence)`. Commands on channel 0xff are numbered
/// by the peer; commands that are acknowledged open a new reliable sequence number of their
/// channel; unsequenced ones open a new unsequenced group; other ones follow the last
/// reliable command and open a new unreliable sequence number, once per packet.
pub open spec fn numbering(peer: Peer, c: OutgoingCommand) -> (u16, u16, u16, u16, u16, u16) {
    let cid = c.command.channel_id;
    let cmd = c.command.command;
    if cid == 0xff {
        let r = peer.outgoing_reliable_sequence_number.wrapping_add(1);
        (r, 0, r, peer.outgoing_unsequenced_group, 0, 0)
    } else {
        let ch = peer.channels@[cid as int];
        if cmd & PROTOCOL_COMMAND_FLAG_ACKNOWLEDGE != 0 {
            let r = ch.outgoing_reliable_sequence_number.wrapping_add(1);
            (r, 0, peer.outgoing_reliable_sequence_number, peer.outgoing_unsequenced_group, r, 0)
        } else if cmd & PROTOCOL_COMMAND_FLAG_UNSEQUENCED != 0 {
            (
                0,
                0,
                peer.outgoing_reliable_sequence_number,
                peer.outgoing_unsequenced_group.wrapping_add(1),
                ch.outgoing_reliable_sequence_number,
                ch.outgoing_unreliable_sequence_number,
            )
        } else {
            let u = if c.fragment_offset == 0 {
                ch.outgoing_unreliable_sequence_number.wrapping_add(1)
            } else {
                ch.outgoing_unreliable_sequence_number
            };
            (
                ch.outgoing_reliable_sequence_number,
                u,
                peer.outgoing_reliable_sequence_number,
                peer.outgoing_unsequenced_group,
                ch.outgoing_reliable_sequence_number,
                u,
            )
        }
    }
}

/// Whether `after` is `before` with the given outgoing sequence numbers in its channel.
pub open spec fn channel_numbered(before: Channel, after: Channel, rsn: u16, usn: u16) -> bool {
    &&& after.outgoing_reliable_sequence_number == rsn
    &&& after.outgoing_unreliable_sequence_number == usn
    &&& after.used_reliable_windows == before.used_reliable_windows
    &&& after.reliable_windows == before.reliable_windows
    &&& after.incoming_reliable_sequence_number == before.incoming_reliable_sequence_number
    &&& after.incoming_unreliable_sequence_number == before.incoming_unreliable_sequence_number
    &&& after.incoming_reliable_commands == before.incoming_reliable_commands
    &&& after.incoming_unreliable_commands == before.incoming_unreliable_commands
}

/// Whether `after` is `before` with command `c` numbered, prepared and queued, as the
/// `queue_time`-th command of the host.
pub open spec fn queued_outgoing(before: Peer, after: Peer, c: OutgoingCommand, queue_time: u32) -> bool {
    let n = numbering(before, c);
    let cid = c.command.channel_id;
    let p = prepared(c, n.0, n.1, n.3, queue_time);
    &&& after.outgoing_data_total == before.outgoing_data_total.wrapping_add(
        (command_size_of(command_number(c.command.command)) + c.fragment_length) as u32,
    )
    &&& after.outgoing_reliable_sequence_number == n.2
    &&& after.outgoing_unsequenced_group == n.3
    &&& after.channels@.len() == before.channels@.len()
    &&& (cid == 0xff ==> after.channels@ == before.channels@)
    &&& (cid != 0xff ==> {
        &&& channel_numbered(before.channels@[cid as int], after.channels@[cid as int], n.4, n.5)
        &&& forall|i: int|
            0 <= i < before.channels@.len() && i != cid ==> after.channels@[i]
                == before.channels@[i]
    })
    &&& if goes_to_send_reliable(c) {
        &&& after.outgoing_send_reliable_commands@ == before.outgoing_send_reliable_commands@.push(p)
        &&& after.outgoing_commands@ == before.outgoing_commands@
    } else {
        &&& after.outgoing_commands@ == before.outgoing_commands@.push(p)
        &&& after.outgoing_send_reliable_commands@ == before.outgoing_send_reliable_commands@
    }
    &&& after == (Peer {
        outgoing_data_total: after.outgoing_data_total,
        outgoing_reliable_sequence_number: after.outgoing_reliable_sequence_number,
        outgoing_unsequenced_group: after.outgoing_unsequenced_group,
        channels: after.channels,
        outgoing_send_reliable_commands: after.outgoing_send_reliable_commands,
        outgoing_commands: after.outgoing_commands,
        ..before
    })
}

/// Number a command for sending, make it ready to be sent, and queue it at the end of the
/// outgoing commands of the peer (the queue of reliable data for acknowledged commands that
/// carry packet data). `total_queued` counts the commands queued by the host.
pub fn setup_outgoing_command(peer: &mut Peer, total_queued: &mut u32, c: OutgoingCommand)
    requires
        well_formed(c.command),
        c.command.channel_id == 0xff || c.command.channel_id < old(peer).channels@.len(),
    ensures
        *final(total_queued) == old(total_queued).wrapping_add(1),
        queued_outgoing(*old(peer), *final(peer), c, *final(total_queued)),
{
    let mut c = c;
    let ghost c0 = c;
    let ghost p0 = *peer;
    let cmd = c.command.command;
    let cid = c.command.channel_id;
    let size = enet_protocol_command_size(cmd);
    peer.outgoing_data_total = peer.outgoing_data_total.wrapping_add(
        (size + c.fragment_length as usize) as u32,
    );
    if cid == 0xff {
        peer.outgoing_reliable_sequence_number = peer.outgoing_reliable_sequence_number.wrapping_add(
            1,
        );
        c.reliable_sequence_number = peer.outgoing_reliable_sequence_number;
        c.unreliable_sequence_number = 0;
    } else {
        let i = cid as usize;
        let mut ch = peer.channels.remove(i);
        let ghost ch0 = ch;
        if cmd & PROTOCOL_COMMAND_FLAG_ACKNOWLEDGE != 0 {
            ch.outgoing_reliable_sequence_number = ch.outgoing_reliable_sequence_number.wrapping_add(
                1,
            );
            ch.outgoing_unreliable_sequence_number = 0;
            c.reliable_sequence_number = ch.outgoing_reliable_sequence_number;
            c.unreliable_sequence_number = 0;
        } else if cmd & PROTOCOL_COMMAND_FLAG_UNSEQUENCED != 0 {
            peer.outgoing_unsequenced_group = peer.outgoing_unsequenced_group.wrapping_add(1);
            c.reliable_sequence_number = 0;
            c.unreliable_sequence_number = 0;
        } else {
            if c.fragment_offset == 0 {
                ch.outgoing_unreliable_sequence_number =
                    ch.outgoing_unreliable_sequence_number.wrapping_add(1);
            }
            c.reliable_sequence_number = ch.outgoing_reliable_sequence_number;
            c.unreliable_sequence_number = ch.outgoing_unreliable_sequence_number;
        }
        assert(channel_numbered(ch0, ch, ch.outgoing_reliable_sequence_number,
            ch.outgoing_unreliable_sequence_number));
        peer.channels.insert(i, ch);
        assert(peer.channels@ =~= p0.channels@.update(i as int, ch));
    }
    c.send_attempts = 0;
    c.sent_time = 0;
    c.round_trip_timeout = 0;
    c.command.reliable_sequence_number = c.reliable_sequence_number;
    *total_queued = total_queued.wrapping_add(1);
    c.queue_time = *total_queued;
    let usn = c.unreliable_sequence_number;
    let group = peer.outgoing_unsequenced_group;
    c.command.body = match c.command.body {
        Command::SendUnreliable { data_length, .. } => Command::SendUnreliable {
            unreliable_sequence_number: usn,
            data_length,
        },
        Command::SendUnsequenced { data_length, .. } => Command::SendUnsequenced {
            unsequenced_group: group,
            data_length,
        },
        b => b,
    };
    proof {
        let n = numbering(p0, c0);
        assert(c == prepared(c0, n.0, n.1, n.3, *total_queued));
    }
    if cmd & PROTOCOL_COMMAND_FLAG_ACKNOWLEDGE != 0 && c.has_packet {
        peer.outgoing_send_reliable_commands.push(c);
    } else {
        peer.outgoing_commands.push(c);
    }
}


/// The bytes of `data` from `start` to `end`, as a new vector.
pub(crate) fn copy_range(data: &[u8], start: usize, end: usize) -> (v: Vec<u8>)
    requires
        start <= end <= data@.len(),
    ensures
        v@ == data@.subrange(start as int, end as int),
{
    let mut v: Vec<u8> = Vec::new();
    let mut i = start;
    while i < end
        invariant
            start <= i <= end <= data@.len(),
            v@ == data@.subrange(start as int, i as int),
        decreases end - i,
    {
        v.push(data[i]);
        assert(data@.subrange(start as int, i + 1) =~= data@.subrange(start as int, i as int).push(
            data@[i as int],
        ));
        i = i + 1;
    }
    v
}

/// The largest fragment of a packet that fits in a datagram for a peer with MTU `mtu`: the
/// MTU less the datagram header, the fragment command and the checksum when one is used.
pub open spec fn fragment_length_for(mtu: u32, checksum: bool) -> int {
    mtu - 4 - 24 - if checksum {
        4int
    } else {
        0int
    }
}

/// The body of a fragment command with command byte `cmd`.
pub open spec fn fragment_body(cmd: u8, f: FragmentFields) -> Command {
    if command_number(cmd) == PROTOCOL_COMMAND_SEND_FRAGMENT {
        Command::SendFragment { fragment: f }
    } else {
        Command::SendUnreliableFragment { fragment: f }
    }
}

/// The length of fragment `k` of `len` bytes cut into fragments of `fl` bytes.
pub open spec fn chunk_length(k: int, fl: int, len: int) -> int {
    if len - k * fl < fl {
        len - k * fl
    } else {
        fl
    }
}

/// The number of fragments of `fl` bytes that `len` bytes make.
pub open spec fn chunk_count(len: int, fl: int) -> int {
    (len + fl - 1) / fl
}

/// Whether `c` is fragment `k` of a packet of `data` with flags `flags`, cut into fragments
/// of `fl` bytes, sent on `channel_id` with command byte `cmd`, starting at sequence number
/// `start`, out of `count` fragments, made ready to be sent with the numbers `rsn` and `usn`
/// as the `queue_time`-th command of the host.
pub open spec fn is_prepared_fragment(
    c: OutgoingCommand,
    k: int,
    data: Seq<u8>,
    flags: u32,
    fl: int,
    count: int,
    channel_id: u8,
    cmd: u8,
    start: u16,
    rsn: u16,
    usn: u16,
    queue_time: u32,
) -> bool {
    let off = k * fl;
    let len = chunk_length(k, fl, data.len() as int);
    &&& c.fragment_offset == off
    &&& c.fragment_length == len
    &&& c.has_packet
    &&& c.packet_flags == flags
    &&& c.payload@ == data.subrange(off, off + len)
    &&& c.reliable_sequence_number == rsn
    &&& c.unreliable_sequence_number == usn
    &&& c.sent_time == 0
    &&& c.round_trip_timeout == 0
    &&& c.send_attempts == 0
    &&& c.queue_time == queue_time
    &&& c.command == (ProtocolCommand {
        command: cmd,
        channel_id,
        reliable_sequence_number: rsn,
        body: fragment_body(
            cmd,
            FragmentFields {
                start_sequence_number: start,
                data_length: len as u16,
                fragment_count: count as u32,
                fragment_number: k as u32,
                total_length: data.len() as u32,
                fragment_offset: off as u32,
            },
        ),
    })
}


proof fn lemma_chunk_bound(k: int, fl: int, len: int)
    requires
        k >= 0,
        fl >= 1,
        len >= 0,
    ensures
        (k * fl < len) == (k < chunk_count(len, fl)),
{
    let q = (len + fl - 1) / fl;
    assert(q * fl <= len + fl - 1 && len + fl - 1 < q * fl + fl) by (nonlinear_arith)
        requires
            q == (len + fl - 1) / fl,
            fl >= 1,
    ;
    if k < q {
        assert(k * fl <= (q - 1) * fl) by (nonlinear_arith)
            requires
                k <= q - 1,
                fl >= 1,
        ;
        assert((q - 1) * fl == q * fl - fl) by (nonlinear_arith);
    } else {
        assert(k * fl >= q * fl) by (nonlinear_arith)
            requires
                k >= q,
                fl >= 1,
        ;
    }
}

/// Whether `after` is `before` with the channel at `cid` given the outgoing sequence numbers
/// `rsn` and `usn`, and every other channel unchanged.
pub open spec fn channels_numbered(before: Seq<Channel>, after: Seq<Channel>, cid: int, rsn: u16, usn: u16) -> bool {
    &&& after.len() == before.len()
    &&& channel_numbered(before[cid], after[cid], rsn, usn)
    &&& forall|i: int| 0 <= i < before.len() && i != cid ==> after[i] == before[i]
}

/// The state of a peer `peer` that was `p0` once the first `k` fragments of a packet were
/// queued (see [`queue_fragments`]).
#[verifier::opaque]
pub open spec fn fragments_queued(
    p0: Peer,
    peer: Peer,
    tq0: u32,
    tq: u32,
    k: int,
    data: Seq<u8>,
    flags: u32,
    fl: int,
    count: int,
    channel_id: u8,
    cmd: u8,
    start: u16,
) -> bool {
    let len = data.len() as int;
    let cid = channel_id as int;
    let ch = p0.channels@[cid];
    let reliable = cmd != PROTOCOL_COMMAND_SEND_UNRELIABLE_FRAGMENT;
    let sent = if k * fl < len {
        k * fl
    } else {
        len
    };
    &&& tq == ((tq0 + k) % 0x1_0000_0000) as u32
    &&& peer.outgoing_data_total == ((p0.outgoing_data_total + 24 * k + sent) % 0x1_0000_0000) as u32
    &&& reliable ==> {
        &&& channels_numbered(
            p0.channels@,
            peer.channels@,
            cid,
            ((ch.outgoing_reliable_sequence_number + k) % 65536) as u16,
            if k == 0 {
                ch.outgoing_unreliable_sequence_number
            } else {
                0
            },
        )
        &&& peer.outgoing_commands@ == p0.outgoing_commands@
        &&& peer.outgoing_send_reliable_commands@.len() == p0.outgoing_send_reliable_commands@.len()
            + k
        &&& peer.outgoing_send_reliable_commands@.take(
            p0.outgoing_send_reliable_commands@.len() as int,
        ) == p0.outgoing_send_reliable_commands@
        &&& forall|j: int|
            0 <= j < k ==> is_prepared_fragment(
                #[trigger] peer.outgoing_send_reliable_commands@[p0.outgoing_send_reliable_commands@.len()
                    + j],
                j,
                data,
                flags,
                fl,
                count,
                channel_id,
                cmd,
                start,
                ((ch.outgoing_reliable_sequence_number + 1 + j) % 65536) as u16,
                0,
                ((tq0 + 1 + j) % 0x1_0000_0000) as u32,
            )
    }
    &&& !reliable ==> {
        &&& channels_numbered(
            p0.channels@,
            peer.channels@,
            cid,
            ch.outgoing_reliable_sequence_number,
            if k == 0 {
                ch.outgoing_unreliable_sequence_number
            } else {
                ch.outgoing_unreliable_sequence_number.wrapping_add(1)
            },
        )
        &&& peer.outgoing_send_reliable_commands@ == p0.outgoing_send_reliable_commands@
        &&& peer.outgoing_commands@.len() == p0.outgoing_commands@.len() + k
        &&& peer.outgoing_commands@.take(p0.outgoing_commands@.len() as int)
            == p0.outgoing_commands@
        &&& forall|j: int|
            0 <= j < k ==> is_prepared_fragment(
                #[trigger] peer.outgoing_commands@[p0.outgoing_commands@.len() + j],
                j,
                data,
                flags,
                fl,
                count,
                channel_id,
                cmd,
                start,
                ch.outgoing_reliable_sequence_number,
                ch.outgoing_unreliable_sequence_number.wrapping_add(1),
                ((tq0 + 1 + j) % 0x1_0000_0000) as u32,
            )
    }
    &&& peer == (Peer {
        outgoing_data_total: peer.outgoing_data_total,
        channels: peer.channels,
        outgoing_send_reliable_commands: peer.outgoing_send_reliable_commands,
        outgoing_commands: peer.outgoing_commands,
        ..p0
    })
}

/// Whether `c` is fragment `k` of `data`, as built before it is numbered.
pub open spec fn is_fresh_fragment(
    c: OutgoingCommand,
    k: int,
    data: Seq<u8>,
    flags: u32,
    fl: int,
    count: int,
    channel_id: u8,
    cmd: u8,
    start: u16,
) -> bool {
    let off = k * fl;
    let len = chunk_length(k, fl, data.len() as int);
    &&& c.fragment_offset == off
    &&& c.fragment_length == len
    &&& c.has_packet
    &&& c.packet_flags == flags
    &&& c.payload@ == data.subrange(off, off + len)
    &&& c.command == (ProtocolCommand {
        command: cmd,
        channel_id,
        reliable_sequence_number: 0,
        body: fragment_body(
            cmd,
            FragmentFields {
                start_sequence_number: start,
                data_length: len as u16,
                fragment_count: count as u32,
                fragment_number: k as u32,
                total_length: data.len() as u32,
                fragment_offset: off as u32,
            },
        ),
    })
}

#[verifier::spinoff_prover]
#[verifier::rlimit(60)]
proof fn lemma_fragments_step(
    p0: Peer,
    before: Peer,
    after: Peer,
    c: OutgoingCommand,
    tq0: u32,
    tq: u32,
    k: int,
    data: Seq<u8>,
    flags: u32,
    fl: int,
    count: int,
    channel_id: u8,
    cmd: u8,
    start: u16,
)
    requires
        fragments_queued(p0, before, tq0, tq, k, data, flags, fl, count, channel_id, cmd, start),
        queued_outgoing(before, after, c, tq.wrapping_add(1)),
        is_fresh_fragment(c, k, data, flags, fl, count, channel_id, cmd, start),
        0 <= k,
        k * fl < data.len(),
        1 <= fl <= 65535,
        (channel_id as int) < p0.channels@.len(),
        channel_id < 0xff,
        cmd == (PROTOCOL_COMMAND_SEND_FRAGMENT | PROTOCOL_COMMAND_FLAG_ACKNOWLEDGE) || cmd
            == PROTOCOL_COMMAND_SEND_UNRELIABLE_FRAGMENT,
    ensures
        fragments_queued(
            p0,
            after,
            tq0,
            tq.wrapping_add(1),
            k + 1,
            data,
            flags,
            fl,
            count,
            channel_id,
            cmd,
            start,
        ),
{
    reveal(fragments_queued);
    let len = data.len() as int;
    let cid = channel_id as int;
    let ch = p0.channels@[cid];
    let reliable = cmd != PROTOCOL_COMMAND_SEND_UNRELIABLE_FRAGMENT;
    assert(cmd & 15 == 8 || cmd & 15 == 12) by (bit_vector)
        requires
            cmd == (8u8 | 128u8) || cmd == 12u8,
    ;
    assert(cmd & 128 != 0 <==> reliable) by (bit_vector)
        requires
            cmd == (8u8 | 128u8) || cmd == 12u8,
            reliable == (cmd != 12u8),
    ;
    assert(cmd & 64 == 0) by (bit_vector)
        requires
            cmd == (8u8 | 128u8) || cmd == 12u8,
    ;
    let n = numbering(before, c);
    let bch = before.channels@[cid];
    let l = chunk_length(k, fl, len);
    assert(command_size_of(command_number(cmd)) == 24);
    assert((k + 1) * fl == k * fl + fl) by (nonlinear_arith);
    if k >= 1 {
        assert(k * fl >= fl) by (nonlinear_arith)
            requires
                k >= 1,
                fl >= 1,
        ;
    }
    let sent = k * fl;
    let sent1 = if (k + 1) * fl < len {
        (k + 1) * fl
    } else {
        len
    };
    assert(sent1 == sent + l);
    let p = prepared(c, n.0, n.1, n.3, tq.wrapping_add(1));
    if reliable {
        assert(n.0 == bch.outgoing_reliable_sequence_number.wrapping_add(1));
        assert(is_prepared_fragment(p, k, data, flags, fl, count, channel_id, cmd, start,
            ((ch.outgoing_reliable_sequence_number + 1 + k) % 65536) as u16, 0,
            ((tq0 + 1 + k) % 0x1_0000_0000) as u32));
        let l0 = before.outgoing_send_reliable_commands@;
        let l1 = after.outgoing_send_reliable_commands@;
        assert(l1 == l0.push(p));
        assert(l1.take(p0.outgoing_send_reliable_commands@.len() as int) =~= l0.take(
            p0.outgoing_send_reliable_commands@.len() as int,
        ));
        assert forall|j: int| 0 <= j < k + 1 implies is_prepared_fragment(
            #[trigger] l1[p0.outgoing_send_reliable_commands@.len() + j],
            j,
            data,
            flags,
            fl,
            count,
            channel_id,
            cmd,
            start,
            ((ch.outgoing_reliable_sequence_number + 1 + j) % 65536) as u16,
            0,
            ((tq0 + 1 + j) % 0x1_0000_0000) as u32,
        ) by {
            if j < k {
                assert(l1[p0.outgoing_send_reliable_commands@.len() + j] == l0[p0.outgoing_send_reliable_commands@.len() + j]);
            }
        }
    } else {
        assert(n.0 == bch.outgoing_reliable_sequence_number);
        assert(is_prepared_fragment(p, k, data, flags, fl, count, channel_id, cmd, start,
            ch.outgoing_reliable_sequence_number,
            ch.outgoing_unreliable_sequence_number.wrapping_add(1),
            ((tq0 + 1 + k) % 0x1_0000_0000) as u32));
        let l0 = before.outgoing_commands@;
        let l1 = after.outgoing_commands@;
        assert(l1 == l0.push(p));
        assert(l1.take(p0.outgoing_commands@.len() as int) =~= l0.take(
            p0.outgoing_commands@.len() as int,
        ));
        assert forall|j: int| 0 <= j < k + 1 implies is_prepared_fragment(
            #[trigger] l1[p0.outgoing_commands@.len() + j],
            j,
            data,
            flags,
            fl,
            count,
            channel_id,
            cmd,
            start,
            ch.outgoing_reliable_sequence_number,
            ch.outgoing_unreliable_sequence_number.wrapping_add(1),
            ((tq0 + 1 + j) % 0x1_0000_0000) as u32,
        ) by {
            if j < k {
                assert(l1[p0.outgoing_commands@.len() + j] == l0[p0.outgoing_commands@.len() + j]);
            }
        }
    }
}

#[verifier::spinoff_prover]
#[verifier::rlimit(60)]
/// Queue the fragments of a packet of `data` for a peer: `count` fragments of `fl` bytes
/// (the last one shorter), each numbered as it is queued.
fn queue_fragments(
    peer: &mut Peer,
    total_queued: &mut u32,
    channel_id: u8,
    data: &[u8],
    flags: u32,
    fl: usize,
    count: u32,
    cmd: u8,
    start: u16,
)
    requires
        (channel_id as int) < old(peer).channels@.len(),
        channel_id < 0xff,
        1 <= fl <= 65535,
        fl < data@.len() <= u32::MAX,
        count as int == chunk_count(data@.len() as int, fl as int),
        cmd == (PROTOCOL_COMMAND_SEND_FRAGMENT | PROTOCOL_COMMAND_FLAG_ACKNOWLEDGE) || cmd
            == PROTOCOL_COMMAND_SEND_UNRELIABLE_FRAGMENT,
    ensures
        fragments_queued(
            *old(peer),
            *final(peer),
            *old(total_queued),
            *final(total_queued),
            count as int,
            data@,
            flags,
            fl as int,
            count as int,
            channel_id,
            cmd,
            start,
        ),
{
    let len = data.len();
    let ghost p0 = *peer;
    let ghost tq0 = *total_queued;
    let mut offset: usize = 0;
    let mut k: u32 = 0;
    proof {
        lemma_chunk_bound(0, fl as int, len as int);
        reveal(fragments_queued);
        assert(peer.outgoing_send_reliable_commands@.take(p0.outgoing_send_reliable_commands@.len() as int) =~= p0.outgoing_send_reliable_commands@);
        assert(peer.outgoing_commands@.take(p0.outgoing_commands@.len() as int) =~= p0.outgoing_commands@);
    }
    while offset < len
        invariant
            len == data@.len(),
            1 <= fl <= 65535,
            fl < len <= u32::MAX,
            count as int == chunk_count(len as int, fl as int),
            cmd == (PROTOCOL_COMMAND_SEND_FRAGMENT | PROTOCOL_COMMAND_FLAG_ACKNOWLEDGE) || cmd
                == PROTOCOL_COMMAND_SEND_UNRELIABLE_FRAGMENT,
            (channel_id as int) < p0.channels@.len(),
            channel_id < 0xff,
            k <= count,
            offset as int == if k * fl < len {
                k * fl
            } else {
                len as int
            },
            (k < count) == (k * fl < len),
            fragments_queued(p0, *peer, tq0, *total_queued, k as int, data@, flags, fl as int,
                count as int, channel_id, cmd, start),
        decreases len - offset,
    {
        let l = if len - offset < fl {
            len - offset
        } else {
            fl
        };
        let payload = copy_range(data, offset, offset + l);
        let fields = FragmentFields {
            start_sequence_number: start,
            data_length: l as u16,
            fragment_count: count,
            fragment_number: k,
            total_length: len as u32,
            fragment_offset: offset as u32,
        };
        let body = if cmd & PROTOCOL_COMMAND_MASK == PROTOCOL_COMMAND_SEND_FRAGMENT {
            Command::SendFragment { fragment: fields }
        } else {
            Command::SendUnreliableFragment { fragment: fields }
        };
        let c = OutgoingCommand {
            reliable_sequence_number: 0,
            unreliable_sequence_number: 0,
            sent_time: 0,
            round_trip_timeout: 0,
            queue_time: 0,
            fragment_offset: offset as u32,
            fragment_length: l as u16,
            send_attempts: 0,
            command: ProtocolCommand { command: cmd, channel_id, reliable_sequence_number: 0, body },
            has_packet: true,
            packet_flags: flags,
            payload,
        };
        let ghost before = *peer;
        let ghost tq = *total_queued;
        proof {
            assert((k + 1) * fl == k * fl + fl) by (nonlinear_arith);
            lemma_chunk_bound((k + 1) as int, fl as int, len as int);
            assert(cmd & 15 == 8 || cmd & 15 == 12) by (bit_vector)
                requires
                    cmd == (8u8 | 128u8) || cmd == 12u8,
            ;
            assert(cmd & 15 == 8 <==> cmd != 12) by (bit_vector)
                requires
                    cmd == (8u8 | 128u8) || cmd == 12u8,
            ;
            assert(is_fresh_fragment(c, k as int, data@, flags, fl as int, count as int,
                channel_id, cmd, start));
            reveal(fragments_queued);
        }
        setup_outgoing_command(peer, total_queued, c);
        proof {
            lemma_fragments_step(p0, before, *peer, c, tq0, tq, k as int, data@, flags,
                fl as int, count as int, channel_id, cmd, start);
        }
        offset = offset + l;
        k = k + 1;
    }
}


/// The command byte for a packet with flags `flags` small enough to go whole, on a channel
/// whose unreliable sequence number is `unreliable_seq`: unsequenced when the packet is
/// unsequenced and not reliable; reliable when it is reliable or the channel has used up its
/// unreliable sequence numbers; else unreliable.
pub open spec fn whole_packet_command(flags: u32, unreliable_seq: u16) -> u8 {
    if flags & (PACKET_FLAG_RELIABLE | PACKET_FLAG_UNSEQUENCED) == PACKET_FLAG_UNSEQUENCED {
        PROTOCOL_COMMAND_SEND_UNSEQUENCED | PROTOCOL_COMMAND_FLAG_UNSEQUENCED
    } else if flags & PACKET_FLAG_RELIABLE != 0 || unreliable_seq >= 0xffff {
        PROTOCOL_COMMAND_SEND_RELIABLE | PROTOCOL_COMMAND_FLAG_ACKNOWLEDGE
    } else {
        PROTOCOL_COMMAND_SEND_UNRELIABLE
    }
}

/// The body of the command that carries a whole packet of `len` bytes.
pub open spec fn whole_packet_body(cmd: u8, len: u16) -> Command {
    if command_number(cmd) == PROTOCOL_COMMAND_SEND_UNSEQUENCED {
        Command::SendUnsequenced { unsequenced_group: 0, data_length: len }
    } else if command_number(cmd) == PROTOCOL_COMMAND_SEND_RELIABLE {
        Command::SendReliable { data_length: len }
    } else {
        Command::SendUnreliable { unreliable_sequence_number: 0, data_length: len }
    }
}

/// Whether `c` is the command that carries the whole packet of `data` with flags `flags`
/// on `channel_id`, before it is numbered.
pub open spec fn is_whole_packet(c: OutgoingCommand, data: Seq<u8>, flags: u32, channel_id: u8, unreliable_seq: u16) -> bool {
    let cmd = whole_packet_command(flags, unreliable_seq);
    &&& c.fragment_offset == 0
    &&& c.fragment_length == data.len() as u16
    &&& c.has_packet
    &&& c.packet_flags == flags
    &&& c.payload@ == data
    &&& c.command == (ProtocolCommand {
        command: cmd,
        channel_id,
        reliable_sequence_number: 0,
        body: whole_packet_body(cmd, data.len() as u16),
    })
}

/// Whether a packet with flags `flags` is cut into unreliable fragments, on a channel whose
/// unreliable sequence number is `unreliable_seq`: it must ask for unreliable fragments, not
/// be reliable, and the channel must have an unreliable sequence number left.
pub open spec fn unreliable_fragments(flags: u32, unreliable_seq: u16) -> bool {
    flags & (PACKET_FLAG_RELIABLE | PACKET_FLAG_UNRELIABLE_FRAGMENT)
        == PACKET_FLAG_UNRELIABLE_FRAGMENT && unreliable_seq < 0xffff
}

/// Whether queueing `packet` on channel `channel_id` took peer `p0`, with the host's
/// count of queued commands `tq0`, to `p1` and `tq1` with result `r` (see [`Peer::send`]).
pub open spec fn packet_sent(
    p0: Peer,
    p1: Peer,
    tq0: u32,
    tq1: u32,
    channel_id: u8,
    packet: Packet,
    maximum_packet_size: usize,
    checksum: bool,
    r: Result<(), PeerSendError>,
) -> bool {
    &&& p1.index == p0.index
    &&& p1.incoming_peer_id == p0.incoming_peer_id
    &&& p1.channels@.len() == p0.channels@.len()
    &&& p1.state == p0.state
    &&& p1.incoming_bandwidth == p0.incoming_bandwidth
    &&& p1.mtu == p0.mtu
    &&& {
        let len = packet.bytes().len() as int;
        let fl = fragment_length_for(p0.mtu, checksum);
        let ch = p0.channels@[channel_id as int];
        let refused = p0.state != PeerState::Connected || channel_id
            >= p0.channels@.len() || len > maximum_packet_size || (len > fl
            && chunk_count(len, fl) > PROTOCOL_MAXIMUM_FRAGMENT_COUNT);
        &&& p0.state != PeerState::Connected ==> r == Err::<(), PeerSendError>(
            PeerSendError::NotConnected,
        )
        &&& p0.state == PeerState::Connected && channel_id
            >= p0.channels@.len() ==> r == Err::<(), PeerSendError>(
            PeerSendError::InvalidChannel,
        )
        &&& p0.state == PeerState::Connected && channel_id
            < p0.channels@.len() && len > maximum_packet_size ==> r == Err::<
            (),
            PeerSendError,
        >(PeerSendError::PacketTooLarge)
        &&& p0.state == PeerState::Connected && channel_id
            < p0.channels@.len() && len <= maximum_packet_size && len > fl
            && chunk_count(len, fl) > PROTOCOL_MAXIMUM_FRAGMENT_COUNT ==> r == Err::<
            (),
            PeerSendError,
        >(PeerSendError::FragmentsExceeded)
        &&& refused ==> p1 == p0 && tq1
            == tq0
        &&& !refused ==> r is Ok
        &&& !refused && len > fl ==> {
            let uf = unreliable_fragments(
                packet.spec_flags(),
                ch.outgoing_unreliable_sequence_number,
            );
            fragments_queued(
                p0,
                p1,
                tq0,
                tq1,
                chunk_count(len, fl),
                packet.bytes(),
                packet.spec_flags(),
                fl,
                chunk_count(len, fl),
                channel_id,
                if uf {
                    PROTOCOL_COMMAND_SEND_UNRELIABLE_FRAGMENT
                } else {
                    PROTOCOL_COMMAND_SEND_FRAGMENT | PROTOCOL_COMMAND_FLAG_ACKNOWLEDGE
                },
                if uf {
                    ch.outgoing_unreliable_sequence_number.wrapping_add(1)
                } else {
                    ch.outgoing_reliable_sequence_number.wrapping_add(1)
                },
            )
        }
        &&& !refused && len <= fl ==> tq1 == tq0.wrapping_add(1) && exists|c: OutgoingCommand|
            is_whole_packet(
                c,
                packet.bytes(),
                packet.spec_flags(),
                channel_id,
                ch.outgoing_unreliable_sequence_number,
            ) && queued_outgoing(p0, p1, c, tq1)
    }
}

impl Peer {
    /// Queue a packet to be sent to the peer on channel `channel_id`.
    ///
    /// Fails when the peer is not connected, the channel does not exist, or the packet is
    /// larger than `maximum_packet_size`. A packet larger than what fits in a datagram (see
    /// [`fragment_length_for`]) is cut into fragments, and fails when that takes more than
    /// the maximum number of fragments; otherwise each fragment is queued in turn. A
    /// smaller packet is queued whole. `total_queued` counts the commands queued by the host.
    pub fn send(
        &mut self,
        total_queued: &mut u32,
        channel_id: u8,
        packet: &Packet,
        maximum_packet_size: usize,
        checksum: bool,
    ) -> (r: Result<(), PeerSendError>)
        requires
            PROTOCOL_MINIMUM_MTU <= old(self).mtu <= PROTOCOL_MAXIMUM_MTU,
            old(self).channels@.len() <= 255,
        ensures
            packet_sent(
                *old(self),
                *final(self),
                *old(total_queued),
                *final(total_queued),
                channel_id,
                *packet,
                maximum_packet_size,
                checksum,
                r,
            ),
    {
        if self.state != PeerState::Connected {
            return Err(PeerSendError::NotConnected);
        }
        if channel_id as usize >= self.channels.len() {
            return Err(PeerSendError::InvalidChannel);
        }
        let data = packet.data();
        let len = data.len();
        if len > maximum_packet_size {
            return Err(PeerSendError::PacketTooLarge);
        }
        let flags = packet.flags();
        let fl: usize = if checksum {
            self.mtu as usize - 4 - 24 - 4
        } else {
            self.mtu as usize - 4 - 24
        };
        let ch = &self.channels[channel_id as usize];
        if len > fl {
            let count64: u64 = (len as u64 - 1) / fl as u64 + 1;
            assert(count64 == chunk_count(len as int, fl as int)) by (nonlinear_arith)
                requires
                    count64 == (len - 1) / (fl as int) + 1,
                    fl >= 1,
                    len > fl,
            ;
            if count64 > PROTOCOL_MAXIMUM_FRAGMENT_COUNT as u64 {
                return Err(PeerSendError::FragmentsExceeded);
            }
            let count = count64 as u32;
            assert(len <= u32::MAX) by (nonlinear_arith)
                requires
                    count64 == (len - 1) / (fl as int) + 1,
                    count64 <= PROTOCOL_MAXIMUM_FRAGMENT_COUNT,
                    1 <= fl <= PROTOCOL_MAXIMUM_MTU - 28,
                    len > fl,
            ;
            let uf = flags & (PACKET_FLAG_RELIABLE | PACKET_FLAG_UNRELIABLE_FRAGMENT)
                == PACKET_FLAG_UNRELIABLE_FRAGMENT && ch.outgoing_unreliable_sequence_number
                < 0xffff;
            let cmd = if uf {
                PROTOCOL_COMMAND_SEND_UNRELIABLE_FRAGMENT
            } else {
                PROTOCOL_COMMAND_SEND_FRAGMENT | PROTOCOL_COMMAND_FLAG_ACKNOWLEDGE
            };
            let start = if uf {
                ch.outgoing_unreliable_sequence_number.wrapping_add(1)
            } else {
                ch.outgoing_reliable_sequence_number.wrapping_add(1)
            };
            queue_fragments(self, total_queued, channel_id, data, flags, fl, count, cmd, start);
            proof {
                reveal(fragments_queued);
            }
            return Ok(());
        }
        let cmd = if flags & (PACKET_FLAG_RELIABLE | PACKET_FLAG_UNSEQUENCED)
            == PACKET_FLAG_UNSEQUENCED {
            PROTOCOL_COMMAND_SEND_UNSEQUENCED | PROTOCOL_COMMAND_FLAG_UNSEQUENCED
        } else if flags & PACKET_FLAG_RELIABLE != 0 || ch.outgoing_unreliable_sequence_number
            >= 0xffff {
            PROTOCOL_COMMAND_SEND_RELIABLE | PROTOCOL_COMMAND_FLAG_ACKNOWLEDGE
        } else {
            PROTOCOL_COMMAND_SEND_UNRELIABLE
        };
        let dl = len as u16;
        let body = if cmd & PROTOCOL_COMMAND_MASK == PROTOCOL_COMMAND_SEND_UNSEQUENCED {
            Command::SendUnsequenced { unsequenced_group: 0, data_length: dl }
        } else if cmd & PROTOCOL_COMMAND_MASK == PROTOCOL_COMMAND_SEND_RELIABLE {
            Command::SendReliable { data_length: dl }
        } else {
            Command::SendUnreliable { unreliable_sequence_number: 0, data_length: dl }
        };
        let payload = copy_range(data, 0, len);
        assert(data@.subrange(0, len as int) =~= data@);
        let c = OutgoingCommand {
            reliable_sequence_number: 0,
            unreliable_sequence_number: 0,
            sent_time: 0,
            round_trip_timeout: 0,
            queue_time: 0,
            fragment_offset: 0,
            fragment_length: dl,
            send_attempts: 0,
            command: ProtocolCommand { command: cmd, channel_id, reliable_sequence_number: 0, body },
            has_packet: true,
            packet_flags: flags,
            payload,
        };
        assert((cmd == (9u8 | 64u8) || cmd == (6u8 | 128u8) || cmd == 7u8) ==> ((cmd & 15 == 9
            <==> cmd == (9u8 | 64u8)) && (cmd & 15 == 6 <==> cmd == (6u8 | 128u8)) && (cmd & 15
            == 7 <==> cmd == 7u8))) by (bit_vector);
        assert(is_whole_packet(c, packet.bytes(), flags, channel_id,
            ch.outgoing_unreliable_sequence_number));
        assert(well_formed(c.command));
        setup_outgoing_command(self, total_queued, c);
        Ok(())
    }
}


/// The payloads of the commands `cs`, one after the other.
pub open spec fn payloads(cs: Seq<OutgoingCommand>) -> Seq<u8>
    decreases cs.len(),
{
    if cs.len() == 0 {
        Seq::empty()
    } else {
        payloads(cs.drop_last()) + cs.last().payload@
    }
}

/// A packet sent whole goes out as the command of its kind: a reliable packet as a reliable
/// send that asks for acknowledgement, an unsequenced unreliable packet as an unsequenced
/// send, and a sequenced unreliable packet as an unreliable send (while the channel has
/// unreliable sequence numbers left); the command carries the packet's bytes and flags.
pub proof fn law_whole_packet_keeps_its_kind(
    p0: Peer,
    p1: Peer,
    tq0: u32,
    tq1: u32,
    channel_id: u8,
    packet: Packet,
    maximum_packet_size: usize,
    checksum: bool,
    r: Result<(), PeerSendError>,
)
    requires
        packet_sent(p0, p1, tq0, tq1, channel_id, packet, maximum_packet_size, checksum, r),
        p0.state == PeerState::Connected,
        channel_id < p0.channels@.len(),
        packet.bytes().len() <= maximum_packet_size,
        packet.bytes().len() <= fragment_length_for(p0.mtu, checksum),
    ensures
        r is Ok,
        exists|c: OutgoingCommand|
            #[trigger] queued_outgoing(p0, p1, c, tq1) && c.payload@ == packet.bytes() && c.packet_flags
                == packet.spec_flags() && ({
                let flags = packet.spec_flags();
                let cmd = c.command.command;
                &&& flags & PACKET_FLAG_RELIABLE != 0 ==> command_number(cmd) == PROTOCOL_COMMAND_SEND_RELIABLE
                    && cmd & PROTOCOL_COMMAND_FLAG_ACKNOWLEDGE != 0
                &&& flags & PACKET_FLAG_RELIABLE == 0 && flags & PACKET_FLAG_UNSEQUENCED != 0 ==> command_number(cmd)
                    == PROTOCOL_COMMAND_SEND_UNSEQUENCED && cmd & PROTOCOL_COMMAND_FLAG_UNSEQUENCED != 0
                &&& flags & PACKET_FLAG_RELIABLE == 0 && flags & PACKET_FLAG_UNSEQUENCED == 0
                    && p0.channels@[channel_id as int].outgoing_unreliable_sequence_number < 0xffff
                    ==> command_number(cmd) == PROTOCOL_COMMAND_SEND_UNRELIABLE
            }),
{
    let flags = packet.spec_flags();
    let useq = p0.channels@[channel_id as int].outgoing_unreliable_sequence_number;
    let c = choose|c: OutgoingCommand|
        is_whole_packet(c, packet.bytes(), flags, channel_id, useq) && queued_outgoing(p0, p1, c, tq1);
    assert(flags & 3u32 == 2u32 <==> (flags & 1u32 == 0u32 && flags & 2u32 != 0u32)) by (bit_vector);
    assert((PACKET_FLAG_RELIABLE | PACKET_FLAG_UNSEQUENCED) == 3u32) by (bit_vector);
    assert(((9u8 | 64u8) & 15u8) == 9u8 && ((9u8 | 64u8) & 64u8) != 0u8) by (bit_vector);
    assert(((6u8 | 128u8) & 15u8) == 6u8 && ((6u8 | 128u8) & 128u8) != 0u8) by (bit_vector);
    assert((7u8 & 15u8) == 7u8) by (bit_vector);
    assert(queued_outgoing(p0, p1, c, tq1));
    let cmd = whole_packet_command(flags, useq);
    assert(c.command.command == cmd);
    if flags & PACKET_FLAG_RELIABLE != 0 {
        assert(cmd == (PROTOCOL_COMMAND_SEND_RELIABLE | PROTOCOL_COMMAND_FLAG_ACKNOWLEDGE));
    } else if flags & PACKET_FLAG_UNSEQUENCED != 0 {
        assert(cmd == (PROTOCOL_COMMAND_SEND_UNSEQUENCED | PROTOCOL_COMMAND_FLAG_UNSEQUENCED));
    } else if useq < 0xffff {
        assert(flags & 3u32 != 2u32);
        assert(cmd == PROTOCOL_COMMAND_SEND_UNRELIABLE);
    }
}

/// A packet too large for one datagram goes out in fragments: as reliable fragments, on the
/// queue of reliable data, unless it asks for unreliable fragments, is not reliable and the
/// channel has unreliable sequence numbers left, in which case its fragments join the
/// ordinary queue; either way one command per fragment is added, after those already
/// queued, and the other queue stays as it was.
pub proof fn law_large_packet_goes_in_fragments(
    p0: Peer,
    p1: Peer,
    tq0: u32,
    tq1: u32,
    channel_id: u8,
    packet: Packet,
    maximum_packet_size: usize,
    checksum: bool,
    r: Result<(), PeerSendError>,
)
    requires
        packet_sent(p0, p1, tq0, tq1, channel_id, packet, maximum_packet_size, checksum, r),
        p0.state == PeerState::Connected,
        channel_id < p0.channels@.len(),
        packet.bytes().len() <= maximum_packet_size,
        packet.bytes().len() > fragment_length_for(p0.mtu, checksum),
        chunk_count(packet.bytes().len() as int, fragment_length_for(p0.mtu, checksum) as int)
            <= PROTOCOL_MAXIMUM_FRAGMENT_COUNT,
    ensures
        r is Ok,
        ({
            let flags = packet.spec_flags();
            let n = chunk_count(packet.bytes().len() as int, fragment_length_for(p0.mtu, checksum) as int);
            let unreliable = flags & PACKET_FLAG_RELIABLE == 0 && flags & PACKET_FLAG_UNRELIABLE_FRAGMENT != 0
                && p0.channels@[channel_id as int].outgoing_unreliable_sequence_number < 0xffff;
            &&& !unreliable ==> {
                &&& p1.outgoing_commands@ == p0.outgoing_commands@
                &&& p1.outgoing_send_reliable_commands@.len() == p0.outgoing_send_reliable_commands@.len() + n
                &&& p1.outgoing_send_reliable_commands@.take(p0.outgoing_send_reliable_commands@.len() as int)
                    == p0.outgoing_send_reliable_commands@
            }
            &&& unreliable ==> {
                &&& p1.outgoing_send_reliable_commands@ == p0.outgoing_send_reliable_commands@
                &&& p1.outgoing_commands@.len() == p0.outgoing_commands@.len() + n
                &&& p1.outgoing_commands@.take(p0.outgoing_commands@.len() as int) == p0.outgoing_commands@
            }
        }),
{
    reveal(fragments_queued);
    let flags = packet.spec_flags();
    assert((PACKET_FLAG_RELIABLE | PACKET_FLAG_UNRELIABLE_FRAGMENT) == 9u32) by (bit_vector);
    assert(flags & 9u32 == 8u32 <==> (flags & 1u32 == 0u32 && flags & 8u32 != 0u32)) by (bit_vector);
    assert(((8u8 | 128u8) != 12u8)) by (bit_vector);
}

/// Fragmentation loses nothing: when the commands `cs` are the `chunk_count` fragments of
/// `data` cut into fragments of `fl` bytes, each carrying the bytes at its offset, their
/// payloads taken in order are `data`.
pub proof fn law_fragments_cover_data(cs: Seq<OutgoingCommand>, data: Seq<u8>, fl: int)
    requires
        fl >= 1,
        data.len() > 0,
        cs.len() == chunk_count(data.len() as int, fl),
        forall|k: int|
            0 <= k < cs.len() ==> (#[trigger] cs[k]).payload@ == data.subrange(
                k * fl,
                k * fl + chunk_length(k, fl, data.len() as int),
            ),
    ensures
        payloads(cs) == data,
{
    let len = data.len() as int;
    let n = cs.len() as int;
    lemma_chunk_bound(0, fl, len);
    lemma_payloads_prefix(cs, data, fl, n);
    lemma_chunk_bound(n, fl, len);
    lemma_chunk_bound(n - 1, fl, len);
    assert(cs.take(n) =~= cs);
    assert((n - 1) * fl + fl == n * fl) by (nonlinear_arith);
    assert(data.subrange(0, len) =~= data);
}

proof fn lemma_payloads_prefix(cs: Seq<OutgoingCommand>, data: Seq<u8>, fl: int, m: int)
    requires
        fl >= 1,
        0 <= m <= cs.len(),
        cs.len() == chunk_count(data.len() as int, fl),
        forall|k: int|
            0 <= k < cs.len() ==> (#[trigger] cs[k]).payload@ == data.subrange(
                k * fl,
                k * fl + chunk_length(k, fl, data.len() as int),
            ),
    ensures
        payloads(cs.take(m)) == data.subrange(
            0,
            if m * fl < data.len() {
                m * fl
            } else {
                data.len() as int
            },
        ),
    decreases m,
{
    let len = data.len() as int;
    if m == 0 {
        assert(payloads(cs.take(0)) =~= Seq::<u8>::empty());
        assert(data.subrange(0, 0) =~= Seq::<u8>::empty());
    } else {
        lemma_payloads_prefix(cs, data, fl, m - 1);
        assert(cs.take(m).drop_last() =~= cs.take(m - 1));
        assert(cs.take(m).last() == cs[m - 1]);
        lemma_chunk_bound(m - 1, fl, len);
        assert((m - 1) * fl + fl == m * fl) by (nonlinear_arith);
        let a = (m - 1) * fl;
        let b = a + chunk_length(m - 1, fl, len);
        assert(data.subrange(0, a) + data.subrange(a, b) =~= data.subrange(0, b));
    }
}

} // verus!
