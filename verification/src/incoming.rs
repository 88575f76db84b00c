//! Handling the send commands that a peer receives: queueing their packets on the right
//! channel, filtering duplicate unsequenced packets, and reassembling fragmented packets.
use vstd::prelude::*;
use crate::channel::{
    queue_incoming_command, queued_incoming, Channel, IncomingCommand, QueueOutcome,
};
use crate::packet::{PACKET_FLAG_RELIABLE, PACKET_FLAG_UNSEQUENCED};
use crate::peer::{counts_as_connected, Peer, PeerState, PEER_FLAG_NEEDS_DISPATCH};
use crate::protocol::{Command, ProtocolCommand};

verus! {

/// The flags of a peer after handling a command: marked as needing dispatch when commands
/// were delivered.
pub open spec fn flags_after_delivery(flags: u16, before: nat, after: nat) -> u16 {
    if after > before {
        flags | PEER_FLAG_NEEDS_DISPATCH
    } else {
        flags
    }
}

/// Whether `p1` is `p0` after handing a command to channel `cid` (see [`queued_incoming`]).
pub open spec fn peer_queued_incoming(
    p0: Peer,
    p1: Peer,
    cid: int,
    maximum_waiting_data: usize,
    command: u8,
    seq: u16,
    useq: u16,
    data: Seq<u8>,
    flags: u32,
    fragment_count: u32,
    r: QueueOutcome,
) -> bool {
    &&& p1.channels@.len() == p0.channels@.len()
    &&& queued_incoming(
        p0.channels@[cid],
        p0.dispatched_commands@,
        p0.total_waiting_data,
        maximum_waiting_data,
        p0.state == PeerState::DisconnectLater,
        command,
        cid as u8,
        seq,
        useq,
        data,
        flags,
        fragment_count,
        r,
        p1.channels@[cid],
        p1.dispatched_commands@,
        p1.total_waiting_data,
    )
    &&& forall|i: int| 0 <= i < p0.channels@.len() && i != cid ==> p1.channels@[i] == p0.channels@[i]
    &&& p1.flags == flags_after_delivery(
        p0.flags,
        p0.dispatched_commands@.len(),
        p1.dispatched_commands@.len(),
    )
    &&& p1 == (Peer {
        channels: p1.channels,
        dispatched_commands: p1.dispatched_commands,
        total_waiting_data: p1.total_waiting_data,
        flags: p1.flags,
        ..p0
    })
}

/// The bytes of `data`, as a new vector.
fn to_vec(data: &[u8]) -> (v: Vec<u8>)
    ensures
        v@ == data@,
{
    let mut v: Vec<u8> = Vec::new();
    let mut i: usize = 0;
    while i < data.len()
        invariant
            i <= data@.len(),
            v@ == data@.take(i as int),
        decreases data@.len() - i,
    {
        v.push(data[i]);
        assert(data@.take(i + 1) =~= data@.take(i as int).push(data@[i as int]));
        i = i + 1;
    }
    assert(data@.take(data@.len() as int) =~= data@);
    v
}

impl Peer {
    /// Hand an incoming command to channel `cid` of the peer, and mark the peer as needing
    /// dispatch when commands were delivered.
    pub fn queue_on_channel(
        &mut self,
        cid: usize,
        maximum_waiting_data: usize,
        command: u8,
        seq: u16,
        useq: u16,
        data: Vec<u8>,
        flags: u32,
        fragment_count: u32,
    ) -> (r: QueueOutcome)
        requires
            cid < old(self).channels@.len(),
            cid < 256,
            maximum_waiting_data + data@.len() <= usize::MAX,
        ensures
            crate::control::keeps_identity(*old(self), *final(self)),
            peer_queued_incoming(
                *old(self),
                *final(self),
                cid as int,
                maximum_waiting_data,
                command,
                seq,
                useq,
                data@,
                flags,
                fragment_count,
                r,
            ),
    {
        let ghost p0 = *self;
        let ghost data0 = data@;
        let before = self.dispatched_commands.len();
        let disconnect_later = self.state == PeerState::DisconnectLater;
        let mut ch = self.channels.remove(cid);
        let r = queue_incoming_command(
            &mut ch,
            &mut self.dispatched_commands,
            &mut self.total_waiting_data,
            maximum_waiting_data,
            disconnect_later,
            command,
            cid as u8,
            seq,
            useq,
            data,
            flags,
            fragment_count,
        );
        self.channels.insert(cid, ch);
        if self.dispatched_commands.len() > before {
            self.flags = self.flags | PEER_FLAG_NEEDS_DISPATCH;
        }
        proof {
            assert(self.channels@[cid as int] == ch);
            assert forall|i: int| 0 <= i < p0.channels@.len() && i != cid implies self.channels@[i]
                == p0.channels@[i] by {
                if i < cid {
                    assert(self.channels@[i] == p0.channels@[i]);
                } else {
                    assert(self.channels@[i] == p0.channels@[i]);
                }
            }
        }
        r
    }

    /// Whether the peer takes commands that carry data on channel `channel_id`: the channel
    /// exists and the peer is connected (or about to disconnect).
    pub open spec fn accepts_data_on(&self, channel_id: u8) -> bool {
        channel_id < self.channels@.len() && counts_as_connected(self.state)
    }

    /// Handle a reliable send command with its payload: queue the packet reliably on its
    /// channel. Returns false when the peer does not take data on that channel or the
    /// command failed to queue.
    pub fn handle_send_reliable(
        &mut self,
        command: &ProtocolCommand,
        payload: &[u8],
        maximum_waiting_data: usize,
    ) -> (ok: bool)
        requires
            command.body is SendReliable,
            old(self).channels@.len() <= 255,
            maximum_waiting_data + payload@.len() <= usize::MAX,
        ensures
            crate::control::keeps_identity(*old(self), *final(self)),
            !old(self).accepts_data_on(command.channel_id) ==> !ok && *final(self) == *old(self),
            old(self).accepts_data_on(command.channel_id) ==> exists|r: QueueOutcome|
                peer_queued_incoming(
                    *old(self),
                    *final(self),
                    command.channel_id as int,
                    maximum_waiting_data,
                    command.command,
                    command.reliable_sequence_number,
                    0,
                    payload@,
                    PACKET_FLAG_RELIABLE,
                    0,
                    r,
                ) && ok == (r != QueueOutcome::Failed),
    {
        if command.channel_id as usize >= self.channels.len() || (self.state
            != PeerState::Connected && self.state != PeerState::DisconnectLater) {
            return false;
        }
        let r = self.queue_on_channel(
            command.channel_id as usize,
            maximum_waiting_data,
            command.command,
            command.reliable_sequence_number,
            0,
            to_vec(payload),
            PACKET_FLAG_RELIABLE,
            0,
        );
        r != QueueOutcome::Failed
    }

    /// Handle a sequenced unreliable send command with its payload: queue the packet on its
    /// channel, ordered by its unreliable sequence number. Returns false when the peer does
    /// not take data on that channel or the command failed to queue.
    pub fn handle_send_unreliable(
        &mut self,
        command: &ProtocolCommand,
        payload: &[u8],
        maximum_waiting_data: usize,
    ) -> (ok: bool)
        requires
            command.body is SendUnreliable,
            old(self).channels@.len() <= 255,
            maximum_waiting_data + payload@.len() <= usize::MAX,
        ensures
            crate::control::keeps_identity(*old(self), *final(self)),
            !old(self).accepts_data_on(command.channel_id) ==> !ok && *final(self) == *old(self),
            old(self).accepts_data_on(command.channel_id) ==> exists|r: QueueOutcome|
                peer_queued_incoming(
                    *old(self),
                    *final(self),
                    command.channel_id as int,
                    maximum_waiting_data,
                    command.command,
                    command.reliable_sequence_number,
                    command.body->SendUnreliable_unreliable_sequence_number,
                    payload@,
                    0,
                    0,
                    r,
                ) && ok == (r != QueueOutcome::Failed),
    {
        if command.channel_id as usize >= self.channels.len() || (self.state
            != PeerState::Connected && self.state != PeerState::DisconnectLater) {
            return false;
        }
        let useq = match &command.body {
            Command::SendUnreliable { unreliable_sequence_number, .. } => *unreliable_sequence_number,
            _ => 0,
        };
        let r = self.queue_on_channel(
            command.channel_id as usize,
            maximum_waiting_data,
            command.command,
            command.reliable_sequence_number,
            useq,
            to_vec(payload),
            0,
            0,
        );
        r != QueueOutcome::Failed
    }
}


/// The fate of an unsequenced command of group `group` at a peer whose unsequenced window
/// starts at `incoming_group`: whether it is taken, the start of the window after it, and
/// whether the window is cleared. A group more than the free unsequenced windows ahead is
/// dropped; one in a new window moves the window there and clears it; one already seen
/// in the window is dropped as a duplicate.
pub open spec fn unsequenced_fate(group: u16, incoming_group: u16, window: [u32; 32]) -> (bool, u16, bool) {
    let idx = group as int % 1024;
    let g = if group < incoming_group {
        group + 65536
    } else {
        group as int
    };
    if g >= incoming_group + 32 * 1024 {
        (false, incoming_group, false)
    } else {
        let base = group - idx;
        if base != incoming_group {
            (true, base as u16, true)
        } else if window[idx / 32] & (1u32 << ((idx % 32) as u32)) != 0 {
            (false, incoming_group, false)
        } else {
            (true, incoming_group, false)
        }
    }
}

/// Whether `p1` and `ok` are what queueing the unsequenced `command` with its payload on
/// peer `p0` gives, once the unsequenced window has taken it, with queue outcome `r`.
pub open spec fn unsequenced_queued(
    p0: Peer,
    p1: Peer,
    command: &ProtocolCommand,
    payload: Seq<u8>,
    maximum_waiting_data: usize,
    r: QueueOutcome,
    ok: bool,
) -> bool {
    let group = command.body->SendUnsequenced_unsequenced_group;
    let f = unsequenced_fate(group, p0.incoming_unsequenced_group, p0.unsequenced_window);
    let idx = group as int % 1024;
    &&& peer_queued_incoming(
        Peer {
            incoming_unsequenced_group: f.1,
            unsequenced_window: p1.unsequenced_window,
            ..p0
        },
        p1,
        command.channel_id as int,
        maximum_waiting_data,
        command.command,
        command.reliable_sequence_number,
        0,
        payload,
        PACKET_FLAG_UNSEQUENCED,
        0,
        r,
    )
    &&& ok == (r != QueueOutcome::Failed)
    &&& forall|i: int|
        0 <= i < 32 ==> #[trigger] p1.unsequenced_window[i] == ((if f.2 {
            0u32
        } else {
            p0.unsequenced_window[i]
        }) | (if ok && i == idx / 32 {
            1u32 << ((idx % 32) as u32)
        } else {
            0u32
        }))
}

impl Peer {
    /// Handle an unsequenced send command with its payload. Returns false when the peer does
    /// not take data on that channel or the command failed to queue. A command that the
    /// unsequenced window does not take (see [`unsequenced_fate`]) is dropped; otherwise it
    /// is queued without sequencing, and, unless that failed, marked as seen in the window.
    pub fn handle_send_unsequenced(
        &mut self,
        command: &ProtocolCommand,
        payload: &[u8],
        maximum_waiting_data: usize,
    ) -> (ok: bool)
        requires
            command.body is SendUnsequenced,
            old(self).channels@.len() <= 255,
            maximum_waiting_data + payload@.len() <= usize::MAX,
        ensures
            crate::control::keeps_identity(*old(self), *final(self)),
            ({
                let group = command.body->SendUnsequenced_unsequenced_group;
                let f = unsequenced_fate(
                    group,
                    old(self).incoming_unsequenced_group,
                    old(self).unsequenced_window,
                );
                let idx = group as int % 1024;
                &&& !old(self).accepts_data_on(command.channel_id) ==> !ok && *final(self) == *old(
                    self,
                )
                &&& old(self).accepts_data_on(command.channel_id) && !f.0 ==> ok && *final(self)
                    == *old(self)
                &&& old(self).accepts_data_on(command.channel_id) && f.0 ==> exists|r: QueueOutcome|
                    #[trigger] unsequenced_queued(
                        *old(self),
                        *final(self),
                        command,
                        payload@,
                        maximum_waiting_data,
                        r,
                        ok,
                    )
            }),
    {
        if command.channel_id as usize >= self.channels.len() || (self.state
            != PeerState::Connected && self.state != PeerState::DisconnectLater) {
            return false;
        }
        let ghost p0 = *self;
        let group: u16 = match &command.body {
            Command::SendUnsequenced { unsequenced_group, .. } => *unsequenced_group,
            _ => 0,
        };
        let index: u32 = group as u32 % 1024;
        let mut g: u32 = group as u32;
        if g < self.incoming_unsequenced_group as u32 {
            g = g + 0x10000;
        }
        if g >= self.incoming_unsequenced_group as u32 + 32 * 1024 {
            return true;
        }
        let base = group as u32 - index;
        let word = (index / 32) as usize;
        let bit: u32 = 1u32 << (index % 32);
        if base != self.incoming_unsequenced_group as u32 {
            self.incoming_unsequenced_group = base as u16;
            self.unsequenced_window = [0u32; 32];
        } else if self.unsequenced_window[word] & bit != 0 {
            return true;
        }
        let ghost mid = *self;
        let r = self.queue_on_channel(
            command.channel_id as usize,
            maximum_waiting_data,
            command.command,
            command.reliable_sequence_number,
            0,
            to_vec(payload),
            PACKET_FLAG_UNSEQUENCED,
            0,
        );
        if r == QueueOutcome::Failed {
            proof {
                assert forall|i: int| 0 <= i < 32 implies #[trigger] self.unsequenced_window[i]
                    == (mid.unsequenced_window[i] | 0u32) by {
                    let w = self.unsequenced_window[i];
                    assert(w | 0u32 == w) by (bit_vector);
                }
            }
            assert(unsequenced_queued(p0, *self, command, payload@, maximum_waiting_data, r,
                false));
            return false;
        }
        let ghost wq = self.unsequenced_window;
        self.unsequenced_window[word] = self.unsequenced_window[word] | bit;
        proof {
            assert forall|i: int| 0 <= i < 32 implies #[trigger] self.unsequenced_window[i]
                == (wq[i] | (if i == word as int {
                bit
            } else {
                0u32
            })) by {
                let w = wq[i];
                assert(w | 0u32 == w) by (bit_vector);
            }
            assert(unsequenced_queued(p0, *self, command, payload@, maximum_waiting_data, r,
                true));
        }
        true
    }
}

} // verus!
