//! Acknowledgements: taking a reliable command off the queues of a peer once the remote
//! host has acknowledged it, and releasing the reliable window it held.
use vstd::prelude::*;
use crate::channel::Channel;
use crate::channel::reliable_window_of;
use crate::peer::{Acknowledgement, OutgoingCommand, Peer};
use crate::protocol::ProtocolCommand;
use crate::protocol::{command_number, PROTOCOL_COMMAND_FLAG_ACKNOWLEDGE};

verus! {

/// The index of the first command of `l`, from index `i` on, that is numbered `seq` on
/// channel `channel_id`; the length of `l` when there is none.
pub open spec fn first_sent(l: Seq<OutgoingCommand>, seq: u16, channel_id: u8, i: int) -> int
    decreases l.len() - i,
{
    if i < 0 || i >= l.len() {
        l.len() as int
    } else if l[i].reliable_sequence_number == seq && l[i].command.channel_id == channel_id {
        i
    } else {
        first_sent(l, seq, channel_id, i + 1)
    }
}

/// Among the commands of `l` that ask for an acknowledgement, from index `i` on, the index
/// of the first one numbered `seq` on channel `channel_id`; the search stops at the first
/// such command that was never sent.
pub open spec fn first_unsent(l: Seq<OutgoingCommand>, seq: u16, channel_id: u8, i: int) -> Option<
    int,
>
    decreases l.len() - i,
{
    if i < 0 || i >= l.len() {
        None
    } else if l[i].command.command & PROTOCOL_COMMAND_FLAG_ACKNOWLEDGE != 0 {
        if l[i].send_attempts < 1 {
            None
        } else if l[i].reliable_sequence_number == seq && l[i].command.channel_id == channel_id {
            Some(i)
        } else {
            first_unsent(l, seq, channel_id, i + 1)
        }
    } else {
        first_unsent(l, seq, channel_id, i + 1)
    }
}

proof fn lemma_first_bounds(l: Seq<OutgoingCommand>, seq: u16, channel_id: u8, i: int)
    requires
        0 <= i,
    ensures
        i <= first_sent(l, seq, channel_id, i) <= l.len() || i > l.len(),
        first_unsent(l, seq, channel_id, i) matches Some(k) ==> i <= k < l.len(),
    decreases l.len() - i,
{
    if i < l.len() {
        lemma_first_bounds(l, seq, channel_id, i + 1);
    }
}

/// The queue of a peer that an acknowledgement refers to: 0 for the sent reliable
/// commands, 1 for the outgoing commands, 2 for the outgoing reliable sends.
pub open spec fn queue_of(p: Peer, which: int) -> Seq<OutgoingCommand> {
    if which == 0 {
        p.sent_reliable_commands@
    } else if which == 1 {
        p.outgoing_commands@
    } else {
        p.outgoing_send_reliable_commands@
    }
}

/// The command that an acknowledgement of `seq` on channel `channel_id` refers to, as its
/// queue and index: the first sent reliable command with that number, or else the first
/// matching one that went out but waits in an outgoing queue.
pub open spec fn acknowledged_command(p: Peer, seq: u16, channel_id: u8) -> Option<(int, int)> {
    let s = first_sent(p.sent_reliable_commands@, seq, channel_id, 0);
    if s < p.sent_reliable_commands@.len() {
        Some((0, s))
    } else {
        match first_unsent(p.outgoing_commands@, seq, channel_id, 0) {
            Some(k) => Some((1, k)),
            None => match first_unsent(p.outgoing_send_reliable_commands@, seq, channel_id, 0) {
                Some(k) => Some((2, k)),
                None => None,
            },
        }
    }
}

/// Whether `ch1` is `ch0` once the reliable window of `seq` holds one command fewer: the
/// window's count goes down, and the window is marked unused when it reaches zero.
pub open spec fn window_released(ch0: Channel, ch1: Channel, seq: u16) -> bool {
    let w = seq as int / 4096;
    let n = ch0.reliable_windows[w];
    &&& forall|k: int|
        0 <= k < 16 ==> #[trigger] ch1.reliable_windows[k] == if k == w && n > 0 {
            (n - 1) as u16
        } else {
            ch0.reliable_windows[k]
        }
    &&& ch1.used_reliable_windows == if n == 1 {
        ch0.used_reliable_windows & !(1u16 << (w as u16))
    } else {
        ch0.used_reliable_windows
    }
    &&& ch1 == (Channel {
        reliable_windows: ch1.reliable_windows,
        used_reliable_windows: ch1.used_reliable_windows,
        ..ch0
    })
}

/// Whether `p1` is `p0` once the acknowledged command at index `j` of queue `which` is
/// taken off: the window it held on its channel is released, the reliable data in transit
/// no longer counts its data when it was sent, and the next time out follows the first
/// sent reliable command that remains.
pub open spec fn command_acknowledged(p0: Peer, p1: Peer, which: int, j: int, seq: u16, channel_id: u8) -> bool {
    let c = queue_of(p0, which)[j];
    &&& queue_of(p1, which) == queue_of(p0, which).remove(j)
    &&& forall|k: int| 0 <= k < 3 && k != which ==> queue_of(p1, k) == queue_of(p0, k)
    &&& p1.channels@.len() == p0.channels@.len()
    &&& forall|i: int|
        0 <= i < p0.channels@.len() && i != channel_id ==> p1.channels@[i] == p0.channels@[i]
    &&& (channel_id < p0.channels@.len() ==> window_released(
        p0.channels@[channel_id as int],
        p1.channels@[channel_id as int],
        seq,
    ))
    &&& p1.reliable_data_in_transit == if which == 0 && c.has_packet {
        p0.reliable_data_in_transit.wrapping_sub(c.fragment_length as u32)
    } else {
        p0.reliable_data_in_transit
    }
    &&& p1.next_timeout == if p1.sent_reliable_commands@.len() > 0 {
        p1.sent_reliable_commands@[0].sent_time.wrapping_add(
            p1.sent_reliable_commands@[0].round_trip_timeout,
        )
    } else {
        p0.next_timeout
    }
    &&& p1 == (Peer {
        sent_reliable_commands: p1.sent_reliable_commands,
        outgoing_commands: p1.outgoing_commands,
        outgoing_send_reliable_commands: p1.outgoing_send_reliable_commands,
        channels: p1.channels,
        reliable_data_in_transit: p1.reliable_data_in_transit,
        next_timeout: p1.next_timeout,
        ..p0
    })
}

/// Whether `p1` and the command number `r` are what taking the command that an
/// acknowledgement of `seq` on channel `channel_id` refers to off peer `p0` gives: nothing
/// changes and `r` is 0 when there is none.
pub open spec fn ack_removed(p0: Peer, p1: Peer, seq: u16, channel_id: u8, r: u8) -> bool {
    match acknowledged_command(p0, seq, channel_id) {
        None => r == 0 && p1 == p0,
        Some((which, j)) => {
            &&& r == command_number(queue_of(p0, which)[j].command.command)
            &&& command_acknowledged(p0, p1, which, j, seq, channel_id)
        },
    }
}

/// The index in `l` of the first command numbered `seq` on channel `channel_id`.
fn find_sent(l: &Vec<OutgoingCommand>, seq: u16, channel_id: u8) -> (i: usize)
    ensures
        i == first_sent(l@, seq, channel_id, 0),
{
    let mut i: usize = 0;
    while i < l.len()
        invariant
            i <= l@.len(),
            first_sent(l@, seq, channel_id, i as int) == first_sent(l@, seq, channel_id, 0),
        ensures
            i == first_sent(l@, seq, channel_id, 0),
        decreases l@.len() - i,
    {
        if l[i].reliable_sequence_number == seq && l[i].command.channel_id == channel_id {
            break;
        }
        i = i + 1;
    }
    i
}

/// The index in `l` of the first command that went out and waits for the acknowledgement
/// of `seq` on channel `channel_id` (see [`first_unsent`]).
fn find_unsent(l: &Vec<OutgoingCommand>, seq: u16, channel_id: u8) -> (r: Option<usize>)
    ensures
        r is None <==> first_unsent(l@, seq, channel_id, 0) is None,
        r matches Some(k) ==> k < l@.len() && first_unsent(l@, seq, channel_id, 0) == Some(k as int),
{
    let mut i: usize = 0;
    while i < l.len()
        invariant
            i <= l@.len(),
            first_unsent(l@, seq, channel_id, i as int) == first_unsent(l@, seq, channel_id, 0),
        decreases l@.len() - i,
    {
        let c = &l[i];
        if c.command.command & PROTOCOL_COMMAND_FLAG_ACKNOWLEDGE != 0 {
            if c.send_attempts < 1 {
                return None;
            }
            if c.reliable_sequence_number == seq && c.command.channel_id == channel_id {
                return Some(i);
            }
        }
        i = i + 1;
    }
    None
}

impl Channel {
    /// Release one command's hold on the reliable window of `seq` (see [`window_released`]).
    pub fn release_window(&mut self, seq: u16)
        ensures
            window_released(*old(self), *final(self), seq),
    {
        let w = (seq / 4096) as usize;
        if self.reliable_windows[w] > 0 {
            self.reliable_windows[w] = self.reliable_windows[w] - 1;
            if self.reliable_windows[w] == 0 {
                self.used_reliable_windows = self.used_reliable_windows & !(1u16 << (w as u16));
            }
        }
    }
}

impl Peer {
    /// Take the command that an acknowledgement of `seq` on channel `channel_id` refers to
    /// off its queue (see [`acknowledged_command`] and [`command_acknowledged`]), and return
    /// its command number; return 0, changing nothing, when there is none.
    pub fn remove_sent_reliable_command(&mut self, seq: u16, channel_id: u8) -> (r: u8)
        ensures
            crate::control::keeps_identity(*old(self), *final(self)),
            ack_removed(*old(self), *final(self), seq, channel_id, r),
    {
        let ghost p0 = *self;
        proof {
            lemma_first_bounds(self.sent_reliable_commands@, seq, channel_id, 0);
            lemma_first_bounds(self.outgoing_commands@, seq, channel_id, 0);
            lemma_first_bounds(self.outgoing_send_reliable_commands@, seq, channel_id, 0);
        }
        let s = find_sent(&self.sent_reliable_commands, seq, channel_id);
        let which: u8;
        let j: usize;
        if s < self.sent_reliable_commands.len() {
            which = 0;
            j = s;
            assert(acknowledged_command(p0, seq, channel_id) == Some((0int, s as int)));
        } else {
            match find_unsent(&self.outgoing_commands, seq, channel_id) {
                Some(k) => {
                    which = 1;
                    j = k;
                    assert(first_unsent(p0.outgoing_commands@, seq, channel_id, 0) == Some(k as int));
                    assert(acknowledged_command(p0, seq, channel_id) == Some((1int, k as int)));
                },
                None => match find_unsent(&self.outgoing_send_reliable_commands, seq, channel_id) {
                    Some(k) => {
                        which = 2;
                        j = k;
                    },
                    None => {
                        return 0;
                    },
                },
            }
        }
        assert(acknowledged_command(p0, seq, channel_id) == Some((which as int, j as int)));
        let cid = channel_id as usize;
        if cid < self.channels.len() {
            let mut ch = self.channels.remove(cid);
            ch.release_window(seq);
            self.channels.insert(cid, ch);
            proof {
                assert forall|i: int| 0 <= i < p0.channels@.len() && i != cid implies
                    self.channels@[i] == p0.channels@[i] by {
                    if i < cid {
                        assert(self.channels@[i] == p0.channels@[i]);
                    } else {
                        assert(self.channels@[i] == p0.channels@[i]);
                    }
                }
            }
        }
        let c = if which == 0 {
            self.sent_reliable_commands.remove(j)
        } else if which == 1 {
            self.outgoing_commands.remove(j)
        } else {
            self.outgoing_send_reliable_commands.remove(j)
        };
        let number = c.command.command & 15;
        if which == 0 && c.has_packet {
            self.reliable_data_in_transit = self.reliable_data_in_transit.wrapping_sub(
                c.fragment_length as u32,
            );
        }
        if self.sent_reliable_commands.len() > 0 {
            let first = &self.sent_reliable_commands[0];
            self.next_timeout = first.sent_time.wrapping_add(first.round_trip_timeout);
        }
        assert(command_acknowledged(p0, *self, which as int, j as int, seq, channel_id));
        number
    }
}

/// Whether an acknowledgement of `seq` would fall into the last free reliable windows of a
/// channel whose incoming sequence number is `incoming`: there the remote host cannot take
/// acknowledgements, and none is sent.
pub open spec fn acknowledgement_held_back(seq: u16, incoming: u16) -> bool {
    let rw = reliable_window_of(seq, incoming);
    let cw = incoming as int / 4096;
    cw + 7 <= rw <= cw + 8
}

impl Peer {
    /// Queue an acknowledgement of `command`, received in a datagram sent at `sent_time`.
    /// Returns false, changing nothing, when the acknowledgement is held back (see
    /// [`acknowledgement_held_back`]).
    pub fn queue_acknowledgement(&mut self, command: &ProtocolCommand, sent_time: u16) -> (ok: bool)
        ensures
            crate::control::keeps_identity(*old(self), *final(self)),
            ({
                let cid = command.channel_id as int;
                let held = cid < old(self).channels@.len() && acknowledgement_held_back(
                    command.reliable_sequence_number,
                    old(self).channels@[cid].incoming_reliable_sequence_number,
                );
                &&& ok == !held
                &&& held ==> *final(self) == *old(self)
                &&& !held ==> final(self).acknowledgements@ == old(self).acknowledgements@.push(
                    Acknowledgement { sent_time: sent_time as u32, command: *command },
                ) && *final(self) == (Peer {
                    outgoing_data_total: old(self).outgoing_data_total.wrapping_add(8),
                    acknowledgements: final(self).acknowledgements,
                    ..*old(self)
                })
            }),
    {
        let cid = command.channel_id as usize;
        if cid < self.channels.len() {
            let seq = command.reliable_sequence_number;
            let inc = self.channels[cid].incoming_reliable_sequence_number;
            let mut rw: u32 = (seq / 4096) as u32;
            let cw: u32 = (inc / 4096) as u32;
            if seq < inc {
                rw = rw + 16;
            }
            if rw >= cw + 7 && rw <= cw + 8 {
                return false;
            }
        }
        self.outgoing_data_total = self.outgoing_data_total.wrapping_add(8);
        self.acknowledgements.push(Acknowledgement { sent_time: sent_time as u32, command: *command });
        true
    }
}

} // verus!
