//! Channels and the sequencing of incoming commands.
//!
//! Each channel of a peer keeps the reliable commands that arrived ahead of their turn,
//! and the unreliable ones, in the order in which they must be delivered. A command is
//! delivered (moved to the peer's dispatched commands) only when every reliable command
//! before it has been delivered.
use vstd::prelude::*;
use crate::consts::{
    PEER_FREE_RELIABLE_WINDOWS, PEER_RELIABLE_WINDOWS, PEER_RELIABLE_WINDOW_SIZE,
    PROTOCOL_MAXIMUM_FRAGMENT_COUNT,
};
use crate::packet::Packet;
use crate::protocol::{
    command_number, PROTOCOL_COMMAND_MASK, PROTOCOL_COMMAND_SEND_FRAGMENT,
    PROTOCOL_COMMAND_SEND_RELIABLE, PROTOCOL_COMMAND_SEND_UNRELIABLE,
    PROTOCOL_COMMAND_SEND_UNRELIABLE_FRAGMENT, PROTOCOL_COMMAND_SEND_UNSEQUENCED,
};

verus! {

/// A command received from a peer, waiting in a channel to be delivered.
pub struct IncomingCommand {
    pub reliable_sequence_number: u16,
    pub unreliable_sequence_number: u16,
    /// The command byte: the command number and its flags.
    pub command: u8,
    pub channel_id: u8,
    pub fragment_count: u32,
    pub fragments_remaining: u32,
    /// One bit per fragment: whether that fragment has arrived.
    pub fragments: Vec<u32>,
    pub packet: Packet,
}

/// A channel of a peer: its sequence numbers, and the incoming commands that wait on it.
pub struct Channel {
    pub outgoing_reliable_sequence_number: u16,
    pub outgoing_unreliable_sequence_number: u16,
    pub used_reliable_windows: u16,
    pub reliable_windows: [u16; 16],
    pub incoming_reliable_sequence_number: u16,
    pub incoming_unreliable_sequence_number: u16,
    pub incoming_reliable_commands: Vec<IncomingCommand>,
    pub incoming_unreliable_commands: Vec<IncomingCommand>,
}

/// What became of an incoming command handed to a channel.
#[derive(Debug, PartialEq, Eq, Structural)]
pub enum QueueOutcome {
    /// The command was queued, and now stands at this index of the channel's list
    /// (reliable or unreliable) that it went to.
    Queued(usize),
    /// The command was a duplicate, out of the window, or otherwise not wanted: it was
    /// dropped, and the peer carries on.
    Discarded,
    /// The command could not be queued: the peer should stop handling the datagram.
    Failed,
}

/// Whether a command is an unsequenced send.
pub open spec fn is_unsequenced(c: IncomingCommand) -> bool {
    command_number(c.command) == PROTOCOL_COMMAND_SEND_UNSEQUENCED
}

/// How far sequence number `s` lies after `base`, counting modulo 2^16.
pub open spec fn seq_distance(s: u16, base: u16) -> int {
    if s >= base {
        s - base
    } else {
        s - base + 65536
    }
}

/// The reliable window that sequence number `seq` falls into, relative to the
/// window of the channel's incoming sequence number `incoming` (windows wrap around).
pub open spec fn reliable_window_of(seq: u16, incoming: u16) -> int {
    (seq as int) / (PEER_RELIABLE_WINDOW_SIZE as int) + if seq < incoming {
        PEER_RELIABLE_WINDOWS as int
    } else {
        0
    }
}

/// Whether `seq` falls into one of the reliable windows that are open for commands:
/// the current window of `incoming` and the ones that follow it, short of the last free one.
pub open spec fn in_free_window(seq: u16, incoming: u16) -> bool {
    let rw = reliable_window_of(seq, incoming);
    let cw = (incoming as int) / (PEER_RELIABLE_WINDOW_SIZE as int);
    cw <= rw && rw < cw + PEER_FREE_RELIABLE_WINDOWS - 1
}

/// Scanning `l` from the back, the position just after the last command for which `le`
/// holds (0 when there is none): where a new command goes to keep the list ordered.
pub open spec fn insert_position(l: Seq<IncomingCommand>, le: spec_fn(IncomingCommand) -> bool) -> int
    decreases l.len(),
{
    if l.len() == 0 {
        0
    } else if le(l.last()) {
        l.len() as int
    } else {
        insert_position(l.drop_last(), le)
    }
}

/// The order of reliable commands: by distance of their sequence number from `incoming`.
pub open spec fn reliable_le(incoming: u16, seq: u16) -> spec_fn(IncomingCommand) -> bool {
    |c: IncomingCommand|
        seq_distance(c.reliable_sequence_number, incoming) <= seq_distance(seq, incoming)
}

/// The order of unreliable commands: by the distance of their reliable sequence number
/// from `incoming`, then by their unreliable sequence number.
pub open spec fn unreliable_le(incoming: u16, seq: u16, useq: u16) -> spec_fn(
    IncomingCommand,
) -> bool {
    |c: IncomingCommand|
        seq_distance(c.reliable_sequence_number, incoming) < seq_distance(seq, incoming) || (
        c.reliable_sequence_number == seq && c.unreliable_sequence_number <= useq)
}

/// The number of fragment bitmap words for `fragment_count` fragments.
pub open spec fn fragment_words(fragment_count: u32) -> nat {
    ((fragment_count + 31) / 32) as nat
}

/// The sequence number of the last reliable command that a command stands for:
/// a fragmented packet uses one sequence number per fragment.
pub open spec fn last_sequence_of(c: IncomingCommand) -> u16 {
    if c.fragment_count > 0 {
        ((c.reliable_sequence_number + c.fragment_count - 1) % 65536) as u16
    } else {
        c.reliable_sequence_number
    }
}

/// The next sequence number after `s`, modulo 2^16.
pub open spec fn next_seq(s: u16) -> u16 {
    ((s + 1) % 65536) as u16
}

/// The leading reliable commands that can be delivered, given the channel's incoming
/// sequence number: each must be complete and carry the sequence number that follows
/// the previous one. Returns how many there are and the incoming sequence number after them.
pub open spec fn reliable_run(l: Seq<IncomingCommand>, incoming: u16) -> (nat, u16)
    decreases l.len(),
{
    if l.len() == 0 {
        (0, incoming)
    } else if l[0].fragments_remaining > 0 || l[0].reliable_sequence_number != next_seq(
        incoming,
    ) {
        (0, incoming)
    } else {
        let r = reliable_run(l.skip(1), last_sequence_of(l[0]));
        (r.0 + 1, r.1)
    }
}

/// Whether an unreliable command can be delivered once the reliable command it follows
/// has been: it is unsequenced, or complete and attached to the current reliable sequence.
pub open spec fn unreliable_deliverable(c: IncomingCommand, incoming: u16) -> bool {
    is_unsequenced(c) || (c.reliable_sequence_number == incoming && c.fragments_remaining == 0)
}

/// The scan over the unreliable commands of a channel, from index `cur`: where it stops
/// (at a command that belongs to a coming reliable window), the start of the pending run
/// of deliverable commands, the index up to which stale commands are dropped, and the
/// unreliable sequence number of the last command delivered.
pub open spec fn unreliable_scan(
    l: Seq<IncomingCommand>,
    incoming: u16,
    cur: int,
    start: int,
    dropped: int,
    unrel: u16,
) -> (int, int, int, u16)
    decreases l.len() - cur,
{
    if cur < 0 || cur >= l.len() {
        (cur, start, dropped, unrel)
    } else {
        let c = l[cur];
        if is_unsequenced(c) {
            unreliable_scan(l, incoming, cur + 1, start, dropped, unrel)
        } else if c.reliable_sequence_number == incoming {
            if c.fragments_remaining == 0 {
                unreliable_scan(l, incoming, cur + 1, start, dropped, c.unreliable_sequence_number)
            } else {
                let d = if start != cur {
                    cur
                } else if dropped != cur {
                    cur - 1
                } else {
                    dropped
                };
                unreliable_scan(l, incoming, cur + 1, cur + 1, d, unrel)
            }
        } else if in_free_window(c.reliable_sequence_number, incoming) {
            (cur, start, dropped, unrel)
        } else {
            unreliable_scan(l, incoming, cur + 1, cur + 1, cur + 1, unrel)
        }
    }
}

/// The commands of `l` among its first `n` whose index and value satisfy `p`, in order.
pub open spec fn filter_indexed(
    l: Seq<IncomingCommand>,
    n: int,
    p: spec_fn(int, IncomingCommand) -> bool,
) -> Seq<IncomingCommand>
    decreases n,
{
    if n <= 0 {
        Seq::empty()
    } else {
        let r = filter_indexed(l, n - 1, p);
        if p(n - 1, l[n - 1]) {
            r.push(l[n - 1])
        } else {
            r
        }
    }
}

/// What delivering the unreliable commands `l` of a channel at incoming reliable sequence
/// number `incoming` gives: the commands that stay, the commands delivered (in order), and
/// the channel's new incoming unreliable sequence number. Every deliverable command before
/// the first one of a coming reliable window is delivered; of the rest before that point,
/// those before the last delivered run are dropped, except the command just queued.
pub open spec fn unreliable_dispatch(
    l: Seq<IncomingCommand>,
    incoming: u16,
    unrel: u16,
    queued: Option<int>,
) -> (Seq<IncomingCommand>, Seq<IncomingCommand>, u16) {
    let s = unreliable_scan(l, incoming, 0, 0, 0, unrel);
    let b = s.0;
    let dropped = if s.1 != b {
        b
    } else {
        s.2
    };
    (
        filter_indexed(l, l.len() as int, unreliable_kept(b, dropped, incoming, queued)),
        filter_indexed(l, l.len() as int, unreliable_moved(b, incoming)),
        s.3,
    )
}

/// The unreliable commands that are delivered: the deliverable ones before index `b`.
pub open spec fn unreliable_moved(b: int, incoming: u16) -> spec_fn(int, IncomingCommand) -> bool {
    |j: int, c: IncomingCommand| j < b && unreliable_deliverable(c, incoming)
}

/// The unreliable commands that stay: those not delivered, at or after `dropped`, or queued.
pub open spec fn unreliable_kept(b: int, dropped: int, incoming: u16, queued: Option<int>) -> spec_fn(
    int,
    IncomingCommand,
) -> bool {
    |j: int, c: IncomingCommand|
        !(j < b && unreliable_deliverable(c, incoming)) && (j >= dropped || queued == Some(j))
}

pub(crate) proof fn lemma_insert_position_bounds(l: Seq<IncomingCommand>, le: spec_fn(IncomingCommand) -> bool)
    ensures
        0 <= insert_position(l, le) <= l.len(),
        insert_position(l, le) > 0 ==> le(l[insert_position(l, le) - 1]),
        forall|j: int| insert_position(l, le) <= j < l.len() ==> !le(#[trigger] l[j]),
    decreases l.len(),
{
    if l.len() > 0 && !le(l.last()) {
        lemma_insert_position_bounds(l.drop_last(), le);
        assert forall|j: int| insert_position(l, le) <= j < l.len() implies !le(#[trigger] l[j]) by {
            if j < l.len() - 1 {
                assert(l.drop_last()[j] == l[j]);
            }
        }
    }
}

proof fn lemma_filter_indexed_len(
    l: Seq<IncomingCommand>,
    n: int,
    p: spec_fn(int, IncomingCommand) -> bool,
)
    ensures
        filter_indexed(l, n, p).len() <= if n < 0 {
            0
        } else {
            n
        },
    decreases n,
{
    if n > 0 {
        lemma_filter_indexed_len(l, n - 1, p);
    }
}

fn distance(s: u16, base: u16) -> (d: u32)
    ensures
        d == seq_distance(s, base),
{
    if s >= base {
        (s - base) as u32
    } else {
        (s as u32 + 65536) - base as u32
    }
}

pub(crate) fn free_window(seq: u16, incoming: u16) -> (b: bool)
    ensures
        b == in_free_window(seq, incoming),
{
    let mut rw: u16 = seq / 4096;
    let cw: u16 = incoming / 4096;
    if seq < incoming {
        rw = rw + 16;
    }
    cw <= rw && rw < cw + 7
}

impl Channel {
    /// A channel with all sequence numbers at zero and no waiting commands.
    pub fn new() -> (c: Channel)
        ensures
            c.outgoing_reliable_sequence_number == 0,
            c.outgoing_unreliable_sequence_number == 0,
            c.used_reliable_windows == 0,
            forall|i: int| 0 <= i < 16 ==> c.reliable_windows[i] == 0,
            c.incoming_reliable_sequence_number == 0,
            c.incoming_unreliable_sequence_number == 0,
            c.incoming_reliable_commands@.len() == 0,
            c.incoming_unreliable_commands@.len() == 0,
    {
        Channel {
            outgoing_reliable_sequence_number: 0,
            outgoing_unreliable_sequence_number: 0,
            used_reliable_windows: 0,
            reliable_windows: [0u16; 16],
            incoming_reliable_sequence_number: 0,
            incoming_unreliable_sequence_number: 0,
            incoming_reliable_commands: Vec::new(),
            incoming_unreliable_commands: Vec::new(),
        }
    }
}

/// Scan from the back of `l` for the position where a reliable command numbered `seq` goes.
pub(crate) fn reliable_position(l: &Vec<IncomingCommand>, incoming: u16, seq: u16) -> (pos: usize)
    ensures
        pos == insert_position(l@, reliable_le(incoming, seq)),
{
    let key = distance(seq, incoming);
    let mut pos = l.len();
    assert(l@.take(l.len() as int) =~= l@);
    while pos > 0
        invariant
            pos <= l.len(),
            key == seq_distance(seq, incoming),
            insert_position(l@, reliable_le(incoming, seq)) == insert_position(
                l@.take(pos as int),
                reliable_le(incoming, seq),
            ),
            l@.take(0) =~= Seq::<IncomingCommand>::empty(),
        ensures
            pos == insert_position(l@, reliable_le(incoming, seq)),
        decreases pos,
    {
        let d = distance(l[pos - 1].reliable_sequence_number, incoming);
        assert(l@.take(pos as int).drop_last() =~= l@.take(pos - 1));
        assert(l@.take(pos as int).last() == l@[pos - 1]);
        if d <= key {
            assert(reliable_le(incoming, seq)(l@[pos - 1]));
            assert(insert_position(l@.take(pos as int), reliable_le(incoming, seq)) == pos);
            break;
        }
        pos = pos - 1;
    }
    pos
}

/// Scan from the back of `l` for the position where an unreliable command numbered
/// (`seq`, `useq`) goes.
pub(crate) fn unreliable_position(l: &Vec<IncomingCommand>, incoming: u16, seq: u16, useq: u16) -> (pos:
    usize)
    ensures
        pos == insert_position(l@, unreliable_le(incoming, seq, useq)),
{
    let key = distance(seq, incoming);
    let mut pos = l.len();
    assert(l@.take(l.len() as int) =~= l@);
    while pos > 0
        invariant
            pos <= l.len(),
            key == seq_distance(seq, incoming),
            insert_position(l@, unreliable_le(incoming, seq, useq)) == insert_position(
                l@.take(pos as int),
                unreliable_le(incoming, seq, useq),
            ),
            l@.take(0) =~= Seq::<IncomingCommand>::empty(),
        ensures
            pos == insert_position(l@, unreliable_le(incoming, seq, useq)),
        decreases pos,
    {
        let c = &l[pos - 1];
        let d = distance(c.reliable_sequence_number, incoming);
        assert(l@.take(pos as int).drop_last() =~= l@.take(pos - 1));
        assert(l@.take(pos as int).last() == l@[pos - 1]);
        if d < key || (c.reliable_sequence_number == seq && c.unreliable_sequence_number <= useq) {
            assert(unreliable_le(incoming, seq, useq)(l@[pos - 1]));
            assert(insert_position(l@.take(pos as int), unreliable_le(incoming, seq, useq)) == pos);
            break;
        }
        pos = pos - 1;
    }
    pos
}


/// Whether two channels agree on their outgoing state (sequence numbers and windows).
pub open spec fn same_outgoing(a: Channel, b: Channel) -> bool {
    &&& a.outgoing_reliable_sequence_number == b.outgoing_reliable_sequence_number
    &&& a.outgoing_unreliable_sequence_number == b.outgoing_unreliable_sequence_number
    &&& a.used_reliable_windows == b.used_reliable_windows
    &&& a.reliable_windows == b.reliable_windows
}

/// An optional index as a mathematical integer.
pub open spec fn opt_index(o: Option<usize>) -> Option<int> {
    match o {
        Some(i) => Some(i as int),
        None => None,
    }
}

proof fn lemma_filter_indexed_index(
    l: Seq<IncomingCommand>,
    n: int,
    p: spec_fn(int, IncomingCommand) -> bool,
    q: int,
)
    requires
        0 <= q < n <= l.len(),
        p(q, l[q]),
    ensures
        filter_indexed(l, q, p).len() < filter_indexed(l, n, p).len(),
        filter_indexed(l, n, p)[filter_indexed(l, q, p).len() as int] == l[q],
    decreases n,
{
    if n - 1 > q {
        lemma_filter_indexed_index(l, n - 1, p, q);
    }
}

/// Deliver the unreliable commands of `channel` that can be delivered now, in order,
/// to the end of `dispatched`, and drop those that can no longer be delivered, sparing
/// the command at index `queued` (the one just queued). Returns whether any was delivered,
/// and where the command at `queued` stands afterwards.
pub fn dispatch_incoming_unreliable_commands(
    channel: &mut Channel,
    dispatched: &mut Vec<IncomingCommand>,
    queued: Option<usize>,
) -> (r: (bool, usize))
    ensures
        ({
            let u = unreliable_dispatch(
                old(channel).incoming_unreliable_commands@,
                old(channel).incoming_reliable_sequence_number,
                old(channel).incoming_unreliable_sequence_number,
                opt_index(queued),
            );
            &&& final(channel).incoming_unreliable_commands@ == u.0
            &&& final(dispatched)@ == old(dispatched)@ + u.1
            &&& final(channel).incoming_unreliable_sequence_number == u.2
            &&& r.0 == (u.1.len() > 0)
        }),
        final(channel).incoming_reliable_commands@ == old(channel).incoming_reliable_commands@,
        final(channel).incoming_reliable_sequence_number
            == old(channel).incoming_reliable_sequence_number,
        same_outgoing(*final(channel), *old(channel)),
        match queued {
            Some(q) => q < old(channel).incoming_unreliable_commands@.len()
                && !unreliable_deliverable(
                old(channel).incoming_unreliable_commands@[q as int],
                old(channel).incoming_reliable_sequence_number,
            ) ==> r.1 < final(channel).incoming_unreliable_commands@.len()
                && final(channel).incoming_unreliable_commands@[r.1 as int]
                == old(channel).incoming_unreliable_commands@[q as int],
            None => true,
        },
{
    let ghost l0 = channel.incoming_unreliable_commands@;
    let ghost d0 = dispatched@;
    let inc = channel.incoming_reliable_sequence_number;
    let ghost unrel0 = channel.incoming_unreliable_sequence_number;
    let n = channel.incoming_unreliable_commands.len();
    let mut cur: usize = 0;
    let mut start: usize = 0;
    let mut dropped: usize = 0;
    let mut unrel = channel.incoming_unreliable_sequence_number;
    while cur < n
        invariant
            n == l0.len(),
            l0 == channel.incoming_unreliable_commands@,
            inc == channel.incoming_reliable_sequence_number,
            0 <= cur <= n,
            start <= cur,
            dropped <= cur,
            unreliable_scan(l0, inc, cur as int, start as int, dropped as int, unrel)
                == unreliable_scan(l0, inc, 0, 0, 0, unrel0),
        ensures
            unreliable_scan(l0, inc, 0, 0, 0, unrel0) == (
                cur as int,
                start as int,
                dropped as int,
                unrel,
            ),
            start <= cur <= n,
            dropped <= cur,
        decreases n - cur,
    {
        let c = &channel.incoming_unreliable_commands[cur];
        if c.command & PROTOCOL_COMMAND_MASK == PROTOCOL_COMMAND_SEND_UNSEQUENCED {
        } else if c.reliable_sequence_number == inc {
            if c.fragments_remaining == 0 {
                unrel = c.unreliable_sequence_number;
            } else {
                if start != cur {
                    dropped = cur;
                } else if dropped != cur {
                    dropped = cur - 1;
                }
                start = cur + 1;
            }
        } else if free_window(c.reliable_sequence_number, inc) {
            break;
        } else {
            start = cur + 1;
            dropped = cur + 1;
        }
        cur = cur + 1;
    }
    let b = cur;
    let final_dropped = if start != b {
        b
    } else {
        dropped
    };
    let ghost moved_p = unreliable_moved(b as int, inc);
    let ghost kept_p = unreliable_kept(b as int, final_dropped as int, inc, opt_index(queued));
    let mut rest: Vec<IncomingCommand> = Vec::new();
    core::mem::swap(&mut rest, &mut channel.incoming_unreliable_commands);
    let mut kept: Vec<IncomingCommand> = Vec::new();
    let mut any = false;
    let mut queued_at: usize = 0;
    let mut j: usize = 0;
    assert(rest@.skip(0) =~= rest@);
    while j < n
        invariant
            n == l0.len(),
            j <= n,
            moved_p == unreliable_moved(b as int, inc),
            kept_p == unreliable_kept(b as int, final_dropped as int, inc, opt_index(queued)),
            unreliable_scan(l0, inc, 0, 0, 0, unrel0) == (
                b as int,
                start as int,
                dropped as int,
                unrel,
            ),
            final_dropped == if start != b {
                b
            } else {
                dropped
            },
            l0 == old(channel).incoming_unreliable_commands@,
            inc == old(channel).incoming_reliable_sequence_number,
            unrel0 == old(channel).incoming_unreliable_sequence_number,
            d0 == old(dispatched)@,
            channel.incoming_reliable_commands@ == old(channel).incoming_reliable_commands@,
            channel.incoming_reliable_sequence_number == inc,
            channel.incoming_unreliable_sequence_number == unrel0,
            same_outgoing(*channel, *old(channel)),
            rest@ == l0.skip(j as int),
            kept@ == filter_indexed(l0, j as int, kept_p),
            dispatched@ == d0 + filter_indexed(l0, j as int, moved_p),
            any == (filter_indexed(l0, j as int, moved_p).len() > 0),
            match queued {
                Some(q) => q < j && kept_p(q as int, l0[q as int]) ==> queued_at
                    == filter_indexed(l0, q as int, kept_p).len(),
                None => true,
            },
        decreases n - j,
    {
        assert(rest@[0] == l0[j as int]);
        let c = rest.remove(0);
        assert(rest@ =~= l0.skip(j + 1));
        let deliverable = c.command & PROTOCOL_COMMAND_MASK == PROTOCOL_COMMAND_SEND_UNSEQUENCED
            || (c.reliable_sequence_number == inc && c.fragments_remaining == 0);
        assert(deliverable == unreliable_deliverable(l0[j as int], inc));
        let ghost cg = l0[j as int];
        assert(filter_indexed(l0, j + 1, moved_p) == if moved_p(j as int, cg) {
            filter_indexed(l0, j as int, moved_p).push(cg)
        } else {
            filter_indexed(l0, j as int, moved_p)
        });
        assert(filter_indexed(l0, j + 1, kept_p) == if kept_p(j as int, cg) {
            filter_indexed(l0, j as int, kept_p).push(cg)
        } else {
            filter_indexed(l0, j as int, kept_p)
        });
        assert(moved_p(j as int, cg) == (j < b && deliverable));
        assert(kept_p(j as int, cg) == (!(j < b && deliverable) && (j >= final_dropped || queued
            == Some(j))));
        if j < b && deliverable {
            dispatched.push(c);
            any = true;
        } else if j >= final_dropped || queued == Some(j) {
            if queued == Some(j) {
                queued_at = kept.len();
            }
            kept.push(c);
        }
        proof {
            lemma_filter_indexed_len(l0, j as int, kept_p);
        }
        j = j + 1;
    }
    channel.incoming_unreliable_commands = kept;
    channel.incoming_unreliable_sequence_number = unrel;
    proof {
        if let Some(q) = queued {
            if q < n && !unreliable_deliverable(l0[q as int], inc) {
                assert(kept_p(q as int, l0[q as int]));
                lemma_filter_indexed_index(l0, n as int, kept_p, q as int);
            }
        }
    }
    (any, queued_at)
}


/// The effect of delivering the reliable commands of a channel: the reliable commands
/// that stay, the new incoming reliable sequence number, the unreliable commands that stay,
/// the new incoming unreliable sequence number, and the commands delivered, in order.
/// When a run of reliable commands is delivered, the unreliable commands are delivered
/// in turn against the new reliable sequence number.
pub open spec fn reliable_dispatch(
    reliable: Seq<IncomingCommand>,
    incoming: u16,
    unreliable: Seq<IncomingCommand>,
    unreliable_seq: u16,
) -> (Seq<IncomingCommand>, u16, Seq<IncomingCommand>, u16, Seq<IncomingCommand>) {
    let r = reliable_run(reliable, incoming);
    if r.0 == 0 {
        (reliable, incoming, unreliable, unreliable_seq, Seq::empty())
    } else {
        let u = unreliable_dispatch(unreliable, r.1, 0, None);
        (reliable.skip(r.0 as int), r.1, u.0, u.2, reliable.take(r.0 as int) + u.1)
    }
}

proof fn lemma_reliable_run_stops(l: Seq<IncomingCommand>, incoming: u16, j: int)
    requires
        0 <= j < l.len(),
        l[j].fragments_remaining > 0,
    ensures
        reliable_run(l, incoming).0 <= j,
    decreases l.len(),
{
    if j > 0 && !(l[0].fragments_remaining > 0 || l[0].reliable_sequence_number != next_seq(
        incoming,
    )) {
        assert(l.skip(1)[j - 1] == l[j]);
        lemma_reliable_run_stops(l.skip(1), last_sequence_of(l[0]), j - 1);
    }
}

proof fn lemma_reliable_run_len(l: Seq<IncomingCommand>, incoming: u16)
    ensures
        reliable_run(l, incoming).0 <= l.len(),
    decreases l.len(),
{
    if l.len() > 0 && !(l[0].fragments_remaining > 0 || l[0].reliable_sequence_number
        != next_seq(incoming)) {
        lemma_reliable_run_len(l.skip(1), last_sequence_of(l[0]));
    }
}

fn last_sequence(c: &IncomingCommand) -> (s: u16)
    ensures
        s == last_sequence_of(*c),
{
    if c.fragment_count > 0 {
        ((c.reliable_sequence_number as u64 + c.fragment_count as u64 - 1) % 65536) as u16
    } else {
        c.reliable_sequence_number
    }
}

/// Deliver, in order, the reliable commands of `channel` that carry the sequence numbers
/// following its incoming one, to the end of `dispatched`; then deliver the unreliable
/// commands that this makes deliverable. Returns how many reliable commands were delivered.
pub fn dispatch_incoming_reliable_commands(
    channel: &mut Channel,
    dispatched: &mut Vec<IncomingCommand>,
) -> (k: usize)
    ensures
        ({
            let r = reliable_dispatch(
                old(channel).incoming_reliable_commands@,
                old(channel).incoming_reliable_sequence_number,
                old(channel).incoming_unreliable_commands@,
                old(channel).incoming_unreliable_sequence_number,
            );
            &&& final(channel).incoming_reliable_commands@ == r.0
            &&& final(channel).incoming_reliable_sequence_number == r.1
            &&& final(channel).incoming_unreliable_commands@ == r.2
            &&& final(channel).incoming_unreliable_sequence_number == r.3
            &&& final(dispatched)@ == old(dispatched)@ + r.4
        }),
        k == reliable_run(
            old(channel).incoming_reliable_commands@,
            old(channel).incoming_reliable_sequence_number,
        ).0,
        same_outgoing(*final(channel), *old(channel)),
{
    let ghost l0 = channel.incoming_reliable_commands@;
    let ghost d0 = dispatched@;
    let ghost inc0 = channel.incoming_reliable_sequence_number;
    let n = channel.incoming_reliable_commands.len();
    let mut k: usize = 0;
    let mut inc = channel.incoming_reliable_sequence_number;
    assert(l0.skip(0) =~= l0);
    while k < n
        invariant
            n == l0.len(),
            l0 == channel.incoming_reliable_commands@,
            k <= n,
            reliable_run(l0, inc0).0 == k + reliable_run(l0.skip(k as int), inc).0,
            reliable_run(l0, inc0).1 == reliable_run(l0.skip(k as int), inc).1,
        ensures
            reliable_run(l0, inc0) == (k as nat, inc),
            k <= n,
        decreases n - k,
    {
        let c = &channel.incoming_reliable_commands[k as usize];
        let next = if inc == 65535 {
            0
        } else {
            inc + 1
        };
        assert(l0.skip(k as int)[0] == l0[k as int]);
        if c.fragments_remaining > 0 || c.reliable_sequence_number != next {
            break;
        }
        inc = last_sequence(c);
        assert(l0.skip(k as int).skip(1) =~= l0.skip(k + 1));
        k = k + 1;
    }
    proof {
        if k == n {
            assert(l0.skip(k as int).len() == 0);
        }
    }
    if k == 0 {
        return 0;
    }
    let mut i: usize = 0;
    assert(l0.take(0) =~= Seq::<IncomingCommand>::empty());
    while i < k
        invariant
            i <= k <= n,
            n == l0.len(),
            channel.incoming_reliable_commands@ == l0.skip(i as int),
            dispatched@ == d0 + l0.take(i as int),
            channel.incoming_unreliable_commands@ == old(channel).incoming_unreliable_commands@,
            channel.incoming_unreliable_sequence_number
                == old(channel).incoming_unreliable_sequence_number,
            channel.incoming_reliable_sequence_number == inc0,
            same_outgoing(*channel, *old(channel)),
        decreases k - i,
    {
        assert(channel.incoming_reliable_commands@[0] == l0[i as int]);
        let c = channel.incoming_reliable_commands.remove(0);
        dispatched.push(c);
        assert(channel.incoming_reliable_commands@ =~= l0.skip(i + 1));
        assert(l0.take(i + 1) =~= l0.take(i as int).push(l0[i as int]));
        i = i + 1;
    }
    channel.incoming_reliable_sequence_number = inc;
    channel.incoming_unreliable_sequence_number = 0;
    if channel.incoming_unreliable_commands.len() > 0 {
        let _ = dispatch_incoming_unreliable_commands(channel, dispatched, None);
    } else {
        proof {
            let e = channel.incoming_unreliable_commands@;
            assert(unreliable_scan(e, inc, 0, 0, 0, 0) == (0int, 0int, 0int, 0u16));
            assert(filter_indexed(e, 0, unreliable_moved(0, inc)) =~= Seq::<IncomingCommand>::empty());
            assert(filter_indexed(e, 0, unreliable_kept(0, 0, inc, None)) =~= e);
        }
    }
    k
}


/// Whether a command byte is a reliable send (a reliable packet or one of its fragments).
pub open spec fn is_reliable_send(command: u8) -> bool {
    command_number(command) == PROTOCOL_COMMAND_SEND_RELIABLE || command_number(command)
        == PROTOCOL_COMMAND_SEND_FRAGMENT
}

/// Whether a command byte is a sequenced unreliable send (a packet or one of its fragments).
pub open spec fn is_unreliable_send(command: u8) -> bool {
    command_number(command) == PROTOCOL_COMMAND_SEND_UNRELIABLE || command_number(command)
        == PROTOCOL_COMMAND_SEND_UNRELIABLE_FRAGMENT
}

/// The unreliable sequence number that an incoming command keeps: its own for an
/// unreliable send, zero otherwise.
pub open spec fn kept_unreliable_seq(command: u8, useq: u16) -> u16 {
    if is_unreliable_send(command) {
        useq
    } else {
        0
    }
}

/// Where a new command goes in the channel list that it belongs to.
pub open spec fn queue_position(ch: Channel, command: u8, seq: u16, useq: u16) -> int {
    if is_reliable_send(command) {
        insert_position(
            ch.incoming_reliable_commands@,
            reliable_le(ch.incoming_reliable_sequence_number, seq),
        )
    } else if is_unreliable_send(command) {
        insert_position(
            ch.incoming_unreliable_commands@,
            unreliable_le(ch.incoming_reliable_sequence_number, seq, useq),
        )
    } else {
        0
    }
}

/// Whether a channel does not take a new command: the peer is about to disconnect, the
/// command lies outside the open reliable windows, it was already delivered or is already
/// waiting, or it is not a send at all.
pub open spec fn queue_rejected(
    ch: Channel,
    disconnect_later: bool,
    command: u8,
    seq: u16,
    useq: u16,
) -> bool {
    let inc = ch.incoming_reliable_sequence_number;
    let pos = queue_position(ch, command, seq, useq);
    let unseq = command_number(command) == PROTOCOL_COMMAND_SEND_UNSEQUENCED;
    ||| disconnect_later
    ||| (!unseq && !in_free_window(seq, inc))
    ||| (is_reliable_send(command) && (seq == inc || (pos > 0
        && ch.incoming_reliable_commands@[pos - 1].reliable_sequence_number == seq)))
    ||| (is_unreliable_send(command) && ((seq == inc && useq
        <= ch.incoming_unreliable_sequence_number) || (pos > 0
        && ch.incoming_unreliable_commands@[pos - 1].reliable_sequence_number == seq
        && ch.incoming_unreliable_commands@[pos - 1].unreliable_sequence_number == useq)))
    ||| (!is_reliable_send(command) && !is_unreliable_send(command) && !unseq)
}

/// Whether `c` is the incoming command made of the given fields, with no fragment arrived yet.
pub open spec fn is_new_command(
    c: IncomingCommand,
    command: u8,
    channel_id: u8,
    seq: u16,
    useq: u16,
    data: Seq<u8>,
    flags: u32,
    fragment_count: u32,
) -> bool {
    &&& c.reliable_sequence_number == seq
    &&& c.unreliable_sequence_number == kept_unreliable_seq(command, useq)
    &&& c.command == command
    &&& c.channel_id == channel_id
    &&& c.fragment_count == fragment_count
    &&& c.fragments_remaining == fragment_count
    &&& c.fragments@ == Seq::new(fragment_words(fragment_count), |i: int| 0u32)
    &&& c.packet.bytes() == data
    &&& c.packet.spec_flags() == flags
}

/// Whether the channel and delivered commands `(ch1, d1)` are what queueing command `c`
/// at position `pos` of its list in `(ch0, d0)` and then delivering gives.
pub open spec fn queued_then_dispatched(
    ch0: Channel,
    d0: Seq<IncomingCommand>,
    c: IncomingCommand,
    pos: int,
    ch1: Channel,
    d1: Seq<IncomingCommand>,
) -> bool {
    if is_reliable_send(c.command) {
        let r = reliable_dispatch(
            ch0.incoming_reliable_commands@.insert(pos, c),
            ch0.incoming_reliable_sequence_number,
            ch0.incoming_unreliable_commands@,
            ch0.incoming_unreliable_sequence_number,
        );
        &&& ch1.incoming_reliable_commands@ == r.0
        &&& ch1.incoming_reliable_sequence_number == r.1
        &&& ch1.incoming_unreliable_commands@ == r.2
        &&& ch1.incoming_unreliable_sequence_number == r.3
        &&& d1 == d0 + r.4
    } else {
        let u = unreliable_dispatch(
            ch0.incoming_unreliable_commands@.insert(pos, c),
            ch0.incoming_reliable_sequence_number,
            ch0.incoming_unreliable_sequence_number,
            Some(pos),
        );
        &&& ch1.incoming_reliable_commands@ == ch0.incoming_reliable_commands@
        &&& ch1.incoming_reliable_sequence_number == ch0.incoming_reliable_sequence_number
        &&& ch1.incoming_unreliable_commands@ == u.0
        &&& ch1.incoming_unreliable_sequence_number == u.2
        &&& d1 == d0 + u.1
    }
}

/// Whether `(ch1, d1, tw1)` and the outcome `r` are what handing the command made of the
/// given fields to channel `ch0`, with delivered commands `d0` and `tw0` bytes waiting,
/// gives (see [`queue_incoming_command`]).
pub open spec fn queued_incoming(
    ch0: Channel,
    d0: Seq<IncomingCommand>,
    tw0: usize,
    maximum_waiting_data: usize,
    disconnect_later: bool,
    command: u8,
    channel_id: u8,
    reliable_sequence_number: u16,
    unreliable_sequence_number: u16,
    data: Seq<u8>,
    flags: u32,
    fragment_count: u32,
    r: QueueOutcome,
    ch1: Channel,
    d1: Seq<IncomingCommand>,
    tw1: usize,
) -> bool {
    &&& same_outgoing(ch1, ch0)
    &&& ({
            let rejected = queue_rejected(
                ch0,
                disconnect_later,
                command,
                reliable_sequence_number,
                unreliable_sequence_number,
            );
            let fails = rejected && fragment_count > 0 || !rejected && (tw0
                >= maximum_waiting_data || fragment_count > PROTOCOL_MAXIMUM_FRAGMENT_COUNT);
            &&& rejected && fragment_count == 0 ==> r == QueueOutcome::Discarded
            &&& fails ==> r == QueueOutcome::Failed
            &&& (rejected || fails) ==> {
                &&& ch1.incoming_reliable_commands@
                    == ch0.incoming_reliable_commands@
                &&& ch1.incoming_unreliable_commands@
                    == ch0.incoming_unreliable_commands@
                &&& ch1.incoming_reliable_sequence_number
                    == ch0.incoming_reliable_sequence_number
                &&& ch1.incoming_unreliable_sequence_number
                    == ch0.incoming_unreliable_sequence_number
                &&& d1 == d0
                &&& tw1 == tw0
            }
            &&& !(rejected || fails) ==> {
                &&& r is Queued
                &&& tw1 == tw0 + data.len()
                &&& exists|c: IncomingCommand|
                    {
                        &&& is_new_command(
                            c,
                            command,
                            channel_id,
                            reliable_sequence_number,
                            unreliable_sequence_number,
                            data,
                            flags,
                            fragment_count,
                        )
                        &&& queued_then_dispatched(
                            ch0,
                            d0,
                            c,
                            queue_position(
                                ch0,
                                command,
                                reliable_sequence_number,
                                unreliable_sequence_number,
                            ),
                            ch1,
                            d1,
                        )
                        &&& (fragment_count > 0 && command_number(command)
                            != PROTOCOL_COMMAND_SEND_UNSEQUENCED ==> match r {
                            QueueOutcome::Queued(i) => if is_reliable_send(command) {
                                i < ch1.incoming_reliable_commands@.len()
                                    && ch1.incoming_reliable_commands@[i as int]
                                    == c
                            } else {
                                i < ch1.incoming_unreliable_commands@.len()
                                    && ch1.incoming_unreliable_commands@[i as int]
                                    == c
                            },
                            _ => true,
                        })
                    }
            }
        })
}

/// Hand an incoming send command to its channel.
///
/// A command that the channel does not take (see [`queue_rejected`]) is discarded, or
/// fails when it starts a fragmented packet. Otherwise the command fails when the peer
/// already holds `maximum_waiting_data` bytes of undelivered data or when it has more
/// than the maximum number of fragments; else it is queued in order, and the commands
/// that this makes deliverable are delivered to `dispatched`. The result of a queued
/// fragmented packet tells where it stands in its list.
pub fn queue_incoming_command(
    channel: &mut Channel,
    dispatched: &mut Vec<IncomingCommand>,
    total_waiting_data: &mut usize,
    maximum_waiting_data: usize,
    disconnect_later: bool,
    command: u8,
    channel_id: u8,
    reliable_sequence_number: u16,
    unreliable_sequence_number: u16,
    data: Vec<u8>,
    flags: u32,
    fragment_count: u32,
) -> (r: QueueOutcome)
    requires
        maximum_waiting_data + data@.len() <= usize::MAX,
    ensures
        queued_incoming(
            *old(channel),
            old(dispatched)@,
            *old(total_waiting_data),
            maximum_waiting_data,
            disconnect_later,
            command,
            channel_id,
            reliable_sequence_number,
            unreliable_sequence_number,
            data@,
            flags,
            fragment_count,
            r,
            *final(channel),
            final(dispatched)@,
            *final(total_waiting_data),
        ),
{
    let kind = command & PROTOCOL_COMMAND_MASK;
    let inc = channel.incoming_reliable_sequence_number;
    let seq = reliable_sequence_number;
    let is_rel = kind == PROTOCOL_COMMAND_SEND_RELIABLE || kind == PROTOCOL_COMMAND_SEND_FRAGMENT;
    let is_unrel = kind == PROTOCOL_COMMAND_SEND_UNRELIABLE || kind
        == PROTOCOL_COMMAND_SEND_UNRELIABLE_FRAGMENT;
    let is_unseq = kind == PROTOCOL_COMMAND_SEND_UNSEQUENCED;
    let useq = if is_unrel {
        unreliable_sequence_number
    } else {
        0
    };
    let ghost pos_spec = queue_position(
        *channel,
        command,
        reliable_sequence_number,
        unreliable_sequence_number,
    );
    let mut pos: usize = 0;
    let rejected = if disconnect_later {
        true
    } else if !is_unseq && !free_window(seq, inc) {
        true
    } else if is_rel {
        if seq == inc {
            true
        } else {
            pos = reliable_position(&channel.incoming_reliable_commands, inc, seq);
            proof {
                lemma_insert_position_bounds(
                    channel.incoming_reliable_commands@,
                    reliable_le(inc, seq),
                );
            }
            pos > 0 && channel.incoming_reliable_commands[pos - 1].reliable_sequence_number == seq
        }
    } else if is_unrel {
        if seq == inc && useq <= channel.incoming_unreliable_sequence_number {
            true
        } else {
            pos = unreliable_position(&channel.incoming_unreliable_commands, inc, seq, useq);
            proof {
                lemma_insert_position_bounds(
                    channel.incoming_unreliable_commands@,
                    unreliable_le(inc, seq, useq),
                );
            }
            pos > 0 && channel.incoming_unreliable_commands[pos - 1].reliable_sequence_number == seq
                && channel.incoming_unreliable_commands[pos - 1].unreliable_sequence_number
                == useq
        }
    } else {
        !is_unseq
    };
    assert(rejected == queue_rejected(
        *old(channel),
        disconnect_later,
        command,
        reliable_sequence_number,
        unreliable_sequence_number,
    ));
    if rejected {
        if fragment_count > 0 {
            return QueueOutcome::Failed;
        }
        return QueueOutcome::Discarded;
    }
    assert(pos == pos_spec);
    if *total_waiting_data >= maximum_waiting_data {
        return QueueOutcome::Failed;
    }
    if fragment_count > PROTOCOL_MAXIMUM_FRAGMENT_COUNT {
        return QueueOutcome::Failed;
    }
    let data_length = data.len();
    let words = ((fragment_count + 31) / 32) as usize;
    let fragments = vec![0u32; words];
    assert(fragments@ =~= Seq::new(fragment_words(fragment_count), |i: int| 0u32));
    let incoming_command = IncomingCommand {
        reliable_sequence_number: seq,
        unreliable_sequence_number: useq,
        command,
        channel_id,
        fragment_count,
        fragments_remaining: fragment_count,
        fragments,
        packet: Packet::from_raw(data, flags),
    };
    let ghost c = incoming_command;
    *total_waiting_data = *total_waiting_data + data_length;
    let ghost ch0 = *channel;
    let ghost d0 = dispatched@;
    if is_rel {
        channel.incoming_reliable_commands.insert(pos, incoming_command);
        let ghost ins = channel.incoming_reliable_commands@;
        assert(ins == ch0.incoming_reliable_commands@.insert(pos as int, c));
        let k = dispatch_incoming_reliable_commands(channel, dispatched);
        proof {
            lemma_reliable_run_len(ins, inc);
            if fragment_count > 0 {
                lemma_reliable_run_stops(ins, inc, pos as int);
                assert(ins.skip(k as int)[pos - k] == ins[pos as int]);
            }
            assert(is_new_command(c, command, channel_id, seq, unreliable_sequence_number,
                data@, flags, fragment_count));
            assert(queued_then_dispatched(ch0, d0, c, pos as int, *channel, dispatched@));
        }
        if fragment_count > 0 {
            QueueOutcome::Queued(pos - k)
        } else {
            QueueOutcome::Queued(pos)
        }
    } else {
        channel.incoming_unreliable_commands.insert(pos, incoming_command);
        let ghost ins = channel.incoming_unreliable_commands@;
        assert(ins == ch0.incoming_unreliable_commands@.insert(pos as int, c));
        let (_, at) = dispatch_incoming_unreliable_commands(channel, dispatched, Some(pos));
        proof {
            assert(is_new_command(c, command, channel_id, seq, unreliable_sequence_number,
                data@, flags, fragment_count));
            assert(queued_then_dispatched(ch0, d0, c, pos as int, *channel, dispatched@));
        }
        QueueOutcome::Queued(at)
    }
}


/// Whether the reliable commands `l` are strictly ordered by how far their sequence
/// numbers lie after `incoming`.
pub open spec fn ordered_after(l: Seq<IncomingCommand>, incoming: u16) -> bool {
    forall|i: int, j: int|
        0 <= i < j < l.len() ==> seq_distance(#[trigger] l[i].reliable_sequence_number, incoming)
            < seq_distance(#[trigger] l[j].reliable_sequence_number, incoming)
}

/// Reliable delivery is in order: the reliable commands that a dispatch delivers are all
/// complete, the first carries the sequence number that follows the channel's incoming one,
/// each next one the sequence number that follows the last one used by the previous
/// (fragments use one each), and the channel's incoming sequence number ends at the last
/// one delivered. The first command left behind, if any, could not follow on.
pub proof fn law_reliable_delivery_in_order(l: Seq<IncomingCommand>, incoming: u16)
    ensures
        ({
            let r = reliable_run(l, incoming);
            &&& r.0 <= l.len()
            &&& forall|i: int| 0 <= i < r.0 ==> (#[trigger] l[i]).fragments_remaining == 0
            &&& r.0 > 0 ==> l[0].reliable_sequence_number == next_seq(incoming)
            &&& forall|i: int|
                0 < i < r.0 ==> (#[trigger] l[i]).reliable_sequence_number == next_seq(
                    last_sequence_of(l[i - 1]),
                )
            &&& r.0 > 0 ==> r.1 == last_sequence_of(l[r.0 - 1])
            &&& r.0 == 0 ==> r.1 == incoming
            &&& r.0 < l.len() ==> (l[r.0 as int].fragments_remaining > 0
                || l[r.0 as int].reliable_sequence_number != next_seq(r.1))
        }),
    decreases l.len(),
{
    if l.len() > 0 && !(l[0].fragments_remaining > 0 || l[0].reliable_sequence_number
        != next_seq(incoming)) {
        let t = l.skip(1);
        law_reliable_delivery_in_order(t, last_sequence_of(l[0]));
        let r = reliable_run(l, incoming);
        let rt = reliable_run(t, last_sequence_of(l[0]));
        assert(r.0 == rt.0 + 1);
        assert forall|i: int| 0 <= i < r.0 implies (#[trigger] l[i]).fragments_remaining == 0 by {
            if i > 0 {
                assert(t[i - 1] == l[i]);
            }
        }
        assert forall|i: int| 0 < i < r.0 implies (#[trigger] l[i]).reliable_sequence_number
            == next_seq(last_sequence_of(l[i - 1])) by {
            if i > 1 {
                assert(t[i - 1] == l[i]);
                assert(t[i - 2] == l[i - 1]);
            } else {
                assert(t[0] == l[1]);
            }
        }
        if rt.0 > 0 {
            assert(t[rt.0 - 1] == l[r.0 - 1]);
        }
        if r.0 < l.len() {
            assert(t[rt.0 as int] == l[r.0 as int]);
        }
    }
}

/// A reliable command that the channel has already delivered (its sequence number is the
/// channel's incoming reliable sequence number) is never queued again: it is dropped, and
/// the channel's queues, its sequence numbers, the dispatched commands and the waiting data
/// stay as they were.
pub proof fn law_delivered_reliable_command_is_dropped(
    ch0: Channel,
    d0: Seq<IncomingCommand>,
    tw0: usize,
    maximum_waiting_data: usize,
    disconnect_later: bool,
    command: u8,
    channel_id: u8,
    reliable_sequence_number: u16,
    unreliable_sequence_number: u16,
    data: Seq<u8>,
    flags: u32,
    fragment_count: u32,
    r: QueueOutcome,
    ch1: Channel,
    d1: Seq<IncomingCommand>,
    tw1: usize,
)
    requires
        queued_incoming(
            ch0,
            d0,
            tw0,
            maximum_waiting_data,
            disconnect_later,
            command,
            channel_id,
            reliable_sequence_number,
            unreliable_sequence_number,
            data,
            flags,
            fragment_count,
            r,
            ch1,
            d1,
            tw1,
        ),
        is_reliable_send(command),
        reliable_sequence_number == ch0.incoming_reliable_sequence_number,
    ensures
        !(r is Queued),
        fragment_count == 0 ==> r == QueueOutcome::Discarded,
        ch1.incoming_reliable_commands@ == ch0.incoming_reliable_commands@,
        ch1.incoming_unreliable_commands@ == ch0.incoming_unreliable_commands@,
        ch1.incoming_reliable_sequence_number == ch0.incoming_reliable_sequence_number,
        ch1.incoming_unreliable_sequence_number == ch0.incoming_unreliable_sequence_number,
        d1 == d0,
        tw1 == tw0,
{
}

/// A reliable command that already waits in the channel (a command with its sequence
/// number is in the incoming reliable list, which is kept in order) is not queued twice: it
/// is dropped, and the channel and the dispatched commands stay as they were.
pub proof fn law_waiting_reliable_command_is_dropped(
    ch0: Channel,
    d0: Seq<IncomingCommand>,
    tw0: usize,
    maximum_waiting_data: usize,
    disconnect_later: bool,
    command: u8,
    channel_id: u8,
    reliable_sequence_number: u16,
    unreliable_sequence_number: u16,
    data: Seq<u8>,
    flags: u32,
    fragment_count: u32,
    r: QueueOutcome,
    ch1: Channel,
    d1: Seq<IncomingCommand>,
    tw1: usize,
    k: int,
)
    requires
        queued_incoming(
            ch0,
            d0,
            tw0,
            maximum_waiting_data,
            disconnect_later,
            command,
            channel_id,
            reliable_sequence_number,
            unreliable_sequence_number,
            data,
            flags,
            fragment_count,
            r,
            ch1,
            d1,
            tw1,
        ),
        is_reliable_send(command),
        ordered_after(ch0.incoming_reliable_commands@, ch0.incoming_reliable_sequence_number),
        0 <= k < ch0.incoming_reliable_commands@.len(),
        ch0.incoming_reliable_commands@[k].reliable_sequence_number == reliable_sequence_number,
    ensures
        !(r is Queued),
        fragment_count == 0 ==> r == QueueOutcome::Discarded,
        ch1.incoming_reliable_commands@ == ch0.incoming_reliable_commands@,
        ch1.incoming_unreliable_commands@ == ch0.incoming_unreliable_commands@,
        ch1.incoming_reliable_sequence_number == ch0.incoming_reliable_sequence_number,
        d1 == d0,
        tw1 == tw0,
{
    let l = ch0.incoming_reliable_commands@;
    let inc = ch0.incoming_reliable_sequence_number;
    let seq = reliable_sequence_number;
    let le = reliable_le(inc, seq);
    let pos = insert_position(l, le);
    lemma_insert_position_bounds(l, le);
    assert(le(l[k]));
    assert(k < pos);
    let last = l[pos - 1].reliable_sequence_number;
    if k < pos - 1 {
        assert(seq_distance(l[k].reliable_sequence_number, inc) < seq_distance(l[pos - 1].reliable_sequence_number, inc));
    }
    assert(seq_distance(last, inc) == seq_distance(seq, inc));
    assert(last == seq);
    assert(queue_position(ch0, command, seq, unreliable_sequence_number) == pos);
}

/// Queueing keeps the waiting reliable commands of a channel in order: when they are
/// ordered by distance from the incoming sequence number and a new reliable command is
/// taken, the list with the command inserted where the channel puts it is still ordered.
pub proof fn law_reliable_queue_keeps_order(ch: Channel, c: IncomingCommand, seq: u16)
    requires
        ordered_after(ch.incoming_reliable_commands@, ch.incoming_reliable_sequence_number),
        c.reliable_sequence_number == seq,
        is_reliable_send(c.command),
        !queue_rejected(ch, false, c.command, seq, 0),
    ensures
        ordered_after(
            ch.incoming_reliable_commands@.insert(queue_position(ch, c.command, seq, 0), c),
            ch.incoming_reliable_sequence_number,
        ),
{
    let l = ch.incoming_reliable_commands@;
    let inc = ch.incoming_reliable_sequence_number;
    let le = reliable_le(inc, seq);
    let pos = insert_position(l, le);
    lemma_insert_position_bounds(l, le);
    let m = l.insert(pos, c);
    assert forall|i: int, j: int| 0 <= i < j < m.len() implies seq_distance(
        #[trigger] m[i].reliable_sequence_number,
        inc,
    ) < seq_distance(#[trigger] m[j].reliable_sequence_number, inc) by {
        if j < pos {
            assert(m[i] == l[i] && m[j] == l[j]);
        } else if i > pos {
            assert(m[i] == l[i - 1] && m[j] == l[j - 1]);
        } else if i == pos {
            assert(m[j] == l[j - 1]);
            assert(!le(l[j - 1]));
        } else if j == pos {
            assert(m[i] == l[i]);
            assert(le(l[pos - 1]));
            assert(l[pos - 1].reliable_sequence_number != seq);
            if i < pos - 1 {
                assert(seq_distance(l[i].reliable_sequence_number, inc) < seq_distance(
                    l[pos - 1].reliable_sequence_number,
                    inc,
                ));
            }
        } else {
            assert(m[i] == l[i] && m[j] == l[j - 1]);
            assert(le(l[pos - 1]));
            assert(!le(l[j - 1]));
            if i < pos - 1 {
                assert(seq_distance(l[i].reliable_sequence_number, inc) < seq_distance(
                    l[pos - 1].reliable_sequence_number,
                    inc,
                ));
            }
        }
    }
}

} // verus!
