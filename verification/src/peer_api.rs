//! Operations on one peer of a host, named by its id: sending a packet, pinging,
//! disconnecting and resetting. Each keeps the host's counters and dispatch queue in step
//! with the peer.
use vstd::prelude::*;
use crate::compressor::Compressor;
use crate::address::Address;
use crate::consts::{PROTOCOL_MAXIMUM_MTU, PROTOCOL_MINIMUM_MTU};
use crate::control::{control_queued, disconnect_quiet, disconnected, ping_command, Finish};
use crate::error::PeerSendError;
use crate::host::{lemma_count_bounds, lemma_peer_step, Host};
use crate::packet::Packet;
use crate::outgoing::packet_sent;
use crate::peer::{counts_as_connected, Peer, PeerID, PeerState};
use crate::socket::Socket;

verus! {

/// Whether host `h1` is `h0` as seen through the views of its peers: the same peers and
/// every other field the same.
pub open spec fn same_host_view<A, Z: Compressor>(h0: Host<A, Z>, h1: Host<A, Z>) -> bool {
    &&& h1.peers@ == h0.peers@
    &&& h1 == (Host { peers: h1.peers, ..h0 })
}

/// The state a peer in `s` is left in by [`Host::disconnect`]: a peer that is already
/// disconnecting, or gone, keeps it; a connected one waits for the acknowledgement; any
/// other is reset.
pub open spec fn state_after_disconnect(s: PeerState) -> PeerState {
    if disconnect_quiet(s) {
        s
    } else if s == PeerState::Connected || s == PeerState::DisconnectLater {
        PeerState::Disconnecting
    } else {
        PeerState::Disconnected
    }
}

/// The state peer `p` is left in by [`Host::disconnect_later`]: a connected peer with
/// commands still queued waits for them to go; any other is disconnected as by
/// [`Host::disconnect`].
pub open spec fn state_after_disconnect_later(p: Peer) -> PeerState {
    if counts_as_connected(p.state) && p.spec_has_outgoing_commands() {
        PeerState::DisconnectLater
    } else if disconnect_quiet(p.state) {
        p.state
    } else if counts_as_connected(p.state) {
        PeerState::Disconnecting
    } else {
        PeerState::Disconnected
    }
}

/// The ids of the connected peers among `peers`, in order.
pub open spec fn connected_ids(peers: Seq<Peer>) -> Seq<PeerID>
    decreases peers.len(),
{
    if peers.len() == 0 {
        Seq::empty()
    } else if peers.last().state == PeerState::Connected {
        connected_ids(peers.drop_last()).push(PeerID((peers.len() - 1) as usize))
    } else {
        connected_ids(peers.drop_last())
    }
}

impl<A: Address, Z: Compressor> Host<A, Z> {
    /// The ids of the connected peers, in order.
    pub fn connected_peers(&self) -> (r: Vec<PeerID>)
        ensures
            r@ == connected_ids(self.peers@),
    {
        let mut r: Vec<PeerID> = Vec::new();
        let mut j: usize = 0;
        while j < self.peers.len()
            invariant
                j <= self.peers@.len(),
                r@ == connected_ids(self.peers@.take(j as int)),
            decreases self.peers@.len() - j,
        {
            proof {
                assert(self.peers@.take(j + 1).drop_last() =~= self.peers@.take(j as int));
            }
            if self.peers[j].state == PeerState::Connected {
                r.push(PeerID(j));
            }
            j = j + 1;
        }
        proof {
            assert(self.peers@.take(j as int) =~= self.peers@);
        }
        r
    }

    /// Reset peer `peer` to a disconnected peer without telling the remote host.
    pub fn reset_peer(&mut self, peer: PeerID)
        requires
            old(self).wf(),
            peer.0 < old(self).peers@.len(),
        ensures
            final(self).wf(),
            final(self).peers@.len() == old(self).peers@.len(),
            final(self).peers@[peer.0 as int].is_reset(old(self).mtu),
            forall|j: int|
                0 <= j < old(self).peers@.len() && j != peer.0 ==> #[trigger] final(self).peers@[j]
                    == old(self).peers@[j],
            final(self).maximum_packet_size == old(self).maximum_packet_size,
            final(self).checksum == old(self).checksum,
            final(self).mtu == old(self).mtu,
            final(self).service_time == old(self).service_time,
    {
        let i = peer.0;
        let ghost h0 = *self;
        proof {
            lemma_count_bounds(self.peers@);
        }
        let before = self.peers[i].flags;
        let host_mtu = self.mtu;
        {
            let p = &mut self.peers[i];
            p.reset(host_mtu, &mut self.connected_peers, &mut self.bandwidth_limited_peers);
        }
        self.sync_dispatch(i, before);
        proof {
            lemma_peer_step(h0, *self, i as int);
        }
    }

    /// Queue `packet` to be sent to peer `peer` on channel `channel_id` (see
    /// [`Peer::send`]), and refused as there.
    pub fn send(&mut self, peer: PeerID, channel_id: u8, packet: &Packet) -> (r: Result<(), PeerSendError>)
        requires
            old(self).wf(),
            peer.0 < old(self).peers@.len(),
        ensures
            final(self).wf(),
            final(self).peers@.len() == old(self).peers@.len(),
            forall|j: int|
                0 <= j < old(self).peers@.len() && j != peer.0 ==> #[trigger] final(self).peers@[j]
                    == old(self).peers@[j],
            *final(self) == (Host { peers: final(self).peers, total_queued: final(self).total_queued, ..*old(self) }),
            old(self).peers@[peer.0 as int].state != PeerState::Connected ==> r == Err::<(), PeerSendError>(
                PeerSendError::NotConnected,
            ) && *final(self) == *old(self),
            old(self).peers@[peer.0 as int].state == PeerState::Connected && channel_id
                >= old(self).peers@[peer.0 as int].channels@.len() ==> r == Err::<(), PeerSendError>(
                PeerSendError::InvalidChannel,
            ) && *final(self) == *old(self),
            packet_sent(
                old(self).peers@[peer.0 as int],
                final(self).peers@[peer.0 as int],
                old(self).total_queued,
                final(self).total_queued,
                channel_id,
                *packet,
                old(self).maximum_packet_size,
                old(self).checksum,
                r,
            ),
    {
        let i = peer.0;
        if self.peers[i].state != PeerState::Connected {
            return Err(PeerSendError::NotConnected);
        }
        if channel_id as usize >= self.peers[i].channels.len() {
            return Err(PeerSendError::InvalidChannel);
        }
        let mps = self.maximum_packet_size;
        let ghost h0 = *self;
        let checksum = self.checksum;
        let r;
        {
            let p = &mut self.peers[i];
            r = p.send(&mut self.total_queued, channel_id, packet, mps, checksum);
        }
        proof {
            lemma_peer_step(h0, *self, i as int);
        }
        r
    }

    /// Queue a ping for peer `peer` when it is connected (see [`Peer::ping`]).
    pub fn ping(&mut self, peer: PeerID)
        requires
            old(self).wf(),
            peer.0 < old(self).peers@.len(),
        ensures
            final(self).wf(),
            final(self).peers@.len() == old(self).peers@.len(),
            forall|j: int|
                0 <= j < old(self).peers@.len() && j != peer.0 ==> #[trigger] final(self).peers@[j]
                    == old(self).peers@[j],
            *final(self) == (Host { peers: final(self).peers, total_queued: final(self).total_queued, ..*old(self) }),
            old(self).peers@[peer.0 as int].state != PeerState::Connected ==> same_host_view(*old(self), *final(self)),
            old(self).peers@[peer.0 as int].state == PeerState::Connected ==> final(self).total_queued
                == old(self).total_queued.wrapping_add(1) && control_queued(
                old(self).peers@[peer.0 as int],
                final(self).peers@[peer.0 as int],
                ping_command(),
                final(self).total_queued,
            ),
    {
        let i = peer.0;
        let ghost h0 = *self;
        {
            let p = &mut self.peers[i];
            p.ping(&mut self.total_queued);
        }
        proof {
            lemma_peer_step(h0, *self, i as int);
            assert(h0.peers@[i as int].state != PeerState::Connected ==> self.peers@ =~= h0.peers@);
        }
    }
}

impl<A: Address + Clone, Z: Compressor> Host<A, Z> {
    /// Complete a disconnection of peer `i` that asked for `f`: a reset, or sending what is
    /// queued at time `time` and then a reset.
    fn finish_disconnect<S: Socket<PeerAddress = A>>(&mut self, socket: &mut S, time: u32, i: usize, f: Finish)
        requires
            old(self).wf(),
            i < old(self).peers@.len(),
        ensures
            final(self).wf(),
            final(self).peers@.len() == old(self).peers@.len(),
            f == Finish::Nothing ==> *final(self) == *old(self),
            f != Finish::Nothing ==> final(self).peers@[i as int].state == PeerState::Disconnected,
            f != Finish::Nothing ==> final(self).peers@[i as int].is_reset(final(self).mtu),
            f == Finish::FlushThenReset ==> final(self).service_time == time,
    {
        match f {
            Finish::Nothing => {},
            Finish::Reset => {
                self.reset_peer(PeerID(i));
            },
            Finish::FlushThenReset => {
                self.flush(socket, time);
                self.reset_peer(PeerID(i));
            },
        }
    }

    /// Disconnect peer `peer`, sending `data` to the remote host (see [`Peer::disconnect`]):
    /// a connected peer waits for the disconnection to be acknowledged; any other peer
    /// is reset at once, after what is queued, the disconnection among it, is sent at
    /// time `time`.
    pub fn disconnect<S: Socket<PeerAddress = A>>(&mut self, socket: &mut S, time: u32, peer: PeerID, data: u32)
        requires
            old(self).wf(),
            peer.0 < old(self).peers@.len(),
        ensures
            final(self).wf(),
            final(self).peers@.len() == old(self).peers@.len(),
            disconnect_quiet(old(self).peers@[peer.0 as int].state) ==> same_host_view(*old(self), *final(self)),
            !disconnect_quiet(old(self).peers@[peer.0 as int].state) && (old(self).peers@[peer.0 as int].state
                == PeerState::Connected || old(self).peers@[peer.0 as int].state
                == PeerState::DisconnectLater) ==> final(self).peers@[peer.0 as int].state
                == PeerState::Disconnecting,
            !disconnect_quiet(old(self).peers@[peer.0 as int].state) && !(old(self).peers@[peer.0 as int].state
                == PeerState::Connected || old(self).peers@[peer.0 as int].state
                == PeerState::DisconnectLater) ==> final(self).peers@[peer.0 as int].state
                == PeerState::Disconnected,
            counts_as_connected(old(self).peers@[peer.0 as int].state) ==> disconnected(
                old(self).peers@[peer.0 as int],
                final(self).peers@[peer.0 as int],
                data,
                old(self).total_queued,
                final(self).total_queued,
                Finish::Nothing,
            ),
            !disconnect_quiet(old(self).peers@[peer.0 as int].state) && !counts_as_connected(
                old(self).peers@[peer.0 as int].state,
            ) ==> final(self).peers@[peer.0 as int].is_reset(final(self).mtu) && final(self).service_time
                == time,
    {
        let i = peer.0;
        let ghost h0 = *self;
        proof {
            lemma_count_bounds(self.peers@);
        }
        let before = self.peers[i].flags;
        let f;
        {
            let p = &mut self.peers[i];
            f = p.disconnect(&mut self.total_queued, data, &mut self.connected_peers, &mut self.bandwidth_limited_peers);
        }
        self.sync_dispatch(i, before);
        proof {
            lemma_peer_step(h0, *self, i as int);
            assert(disconnect_quiet(h0.peers@[i as int].state) ==> self.peers@ =~= h0.peers@);
        }
        self.finish_disconnect(socket, time, i, f);
    }

    /// Disconnect peer `peer` once its queued commands are sent (see
    /// [`Peer::disconnect_later`]); a peer that has none, or is not connected, is
    /// disconnected at once as by [`Host::disconnect`].
    pub fn disconnect_later<S: Socket<PeerAddress = A>>(&mut self, socket: &mut S, time: u32, peer: PeerID, data: u32)
        requires
            old(self).wf(),
            peer.0 < old(self).peers@.len(),
        ensures
            final(self).wf(),
            final(self).peers@.len() == old(self).peers@.len(),
            ({
                let p = old(self).peers@[peer.0 as int];
                let later = counts_as_connected(p.state) && p.spec_has_outgoing_commands();
                &&& later ==> final(self).peers@[peer.0 as int] == (Peer {
                    state: PeerState::DisconnectLater,
                    event_data: data,
                    ..p
                })
                &&& !later && disconnect_quiet(p.state) ==> same_host_view(*old(self), *final(self))
                &&& !later && !disconnect_quiet(p.state) && counts_as_connected(p.state)
                    ==> final(self).peers@[peer.0 as int].state == PeerState::Disconnecting
                &&& !later && !disconnect_quiet(p.state) && !counts_as_connected(p.state)
                    ==> final(self).peers@[peer.0 as int].state == PeerState::Disconnected
            }),
    {
        let i = peer.0;
        let ghost h0 = *self;
        proof {
            lemma_count_bounds(self.peers@);
        }
        let before = self.peers[i].flags;
        let f;
        {
            let p = &mut self.peers[i];
            f = p.disconnect_later(&mut self.total_queued, data, &mut self.connected_peers, &mut self.bandwidth_limited_peers);
        }
        self.sync_dispatch(i, before);
        proof {
            lemma_peer_step(h0, *self, i as int);
            assert(disconnect_quiet(h0.peers@[i as int].state) && !(counts_as_connected(h0.peers@[i as int].state)
                && h0.peers@[i as int].spec_has_outgoing_commands()) ==> self.peers@ =~= h0.peers@);
        }
        self.finish_disconnect(socket, time, i, f);
    }

    /// Disconnect peer `peer` at once (see [`Peer::disconnect_now`]): unless it is
    /// disconnected already, what is queued, the disconnection among it, is sent at time
    /// `time`, and the peer is reset without waiting for an acknowledgement.
    pub fn disconnect_now<S: Socket<PeerAddress = A>>(&mut self, socket: &mut S, time: u32, peer: PeerID, data: u32)
        requires
            old(self).wf(),
            peer.0 < old(self).peers@.len(),
        ensures
            final(self).wf(),
            final(self).peers@.len() == old(self).peers@.len(),
            old(self).peers@[peer.0 as int].state == PeerState::Disconnected ==> same_host_view(*old(self), *final(self)),
            final(self).peers@[peer.0 as int].state == PeerState::Disconnected,
    {
        let i = peer.0;
        let ghost h0 = *self;
        let f;
        {
            let p = &mut self.peers[i];
            f = p.disconnect_now(&mut self.total_queued, data);
        }
        proof {
            lemma_peer_step(h0, *self, i as int);
            assert(h0.peers@[i as int].state == PeerState::Disconnected ==> self.peers@ =~= h0.peers@);
        }
        self.finish_disconnect(socket, time, i, f);
    }
}

} // verus!
