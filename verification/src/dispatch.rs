//! Dispatching events to the user: the connections, disconnections and packets of the
//! peers in the host's dispatch queue, in queue order.
use vstd::prelude::*;
use crate::compressor::Compressor;
use crate::address::Address;
use crate::channel::IncomingCommand;
use crate::control::{counted, counters_room, limited};
use crate::event::Event;
use crate::handlers::peer_reset;
use crate::host::{count_connected, count_limited, lemma_count_bounds, lemma_count_update, Host};
use crate::packet::Packet;
use crate::peer::{Peer, PeerID, PeerState, PEER_FLAG_NEEDS_DISPATCH};

verus! {

impl Peer {
    /// Take the first delivered packet of the peer, with the channel it came on; `None`,
    /// changing nothing, when there is none. The packet no longer counts as waiting data.
    pub fn receive(&mut self) -> (r: Option<(u8, Packet)>)
        ensures
            old(self).dispatched_commands@.len() == 0 ==> r is None && *final(self) == *old(self),
            old(self).dispatched_commands@.len() > 0 ==> {
                let c = old(self).dispatched_commands@[0];
                &&& r == Some((c.channel_id, c.packet))
                &&& final(self).dispatched_commands@ == old(self).dispatched_commands@.skip(1)
                &&& *final(self) == (Peer {
                    dispatched_commands: final(self).dispatched_commands,
                    total_waiting_data: old(self).total_waiting_data.wrapping_sub(
                        c.packet.bytes().len() as usize,
                    ),
                    ..*old(self)
                })
            },
    {
        if self.dispatched_commands.len() == 0 {
            return None;
        }
        let ghost d0 = self.dispatched_commands@;
        let c = self.dispatched_commands.remove(0);
        assert(self.dispatched_commands@ =~= d0.skip(1));
        let length = c.packet.data_length();
        self.total_waiting_data = self.total_waiting_data.wrapping_sub(length);
        Some((c.channel_id, c.packet))
    }
}

/// Whether dispatching peer `p` gives no event: it is neither newly connected, nor a
/// zombie, nor connected with a packet delivered.
pub open spec fn dispatch_quiet(p: Peer) -> bool {
    !(p.state == PeerState::ConnectionPending || p.state == PeerState::ConnectionSucceeded
        || p.state == PeerState::Zombie || (p.state == PeerState::Connected
        && p.dispatched_commands@.len() > 0))
}

/// Peer `p` no longer marked as needing dispatch.
pub open spec fn undispatched(p: Peer) -> Peer {
    Peer { flags: p.flags & !PEER_FLAG_NEEDS_DISPATCH, ..p }
}

/// Whether `(h1, r)` is what dispatching the first peer in the dispatch queue of host `h0`
/// gives. The peer leaves the queue and loses its dispatch mark; then a peer whose
/// connection is pending or succeeded is connected and reported, a zombie is reset and
/// its disconnection reported (the host recalculates its bandwidth limits), and a
/// connected peer with a delivered packet hands it over, staying in the queue (at its end)
/// while more packets wait; any other peer gives no event.
pub open spec fn dispatched_one<A: Address, Z: Compressor>(h0: Host<A, Z>, h1: Host<A, Z>, r: Option<Event>) -> bool {
    let i = h0.dispatch_queue@[0] as int;
    let p = undispatched(h0.peers@[i]);
    let rest = h0.dispatch_queue@.skip(1);
    &&& h1.peers@.len() == h0.peers@.len()
    &&& forall|j: int| 0 <= j < h0.peers@.len() && j != i ==> h1.peers@[j] == h0.peers@[j]
    &&& h1.connected_peers == h0.connected_peers + counted(h1.peers@[i]) - counted(h0.peers@[i])
    &&& h1.bandwidth_limited_peers == h0.bandwidth_limited_peers + limited(h1.peers@[i]) - limited(
        h0.peers@[i],
    )
    &&& if p.state == PeerState::ConnectionPending || p.state == PeerState::ConnectionSucceeded {
        &&& h1.peers@[i] == (Peer { state: PeerState::Connected, ..p })
        &&& r == Some(Event::Connect { peer: PeerID(i as usize), data: p.event_data })
        &&& h1.dispatch_queue@ == rest
        &&& h1 == (Host {
            peers: h1.peers,
            dispatch_queue: h1.dispatch_queue,
            connected_peers: h1.connected_peers,
            bandwidth_limited_peers: h1.bandwidth_limited_peers,
            ..h0
        })
    } else if p.state == PeerState::Zombie {
        &&& peer_reset(p, h1.peers@[i], h0.mtu)
        &&& r == Some(Event::Disconnect { peer: PeerID(i as usize), data: p.event_data })
        &&& h1.dispatch_queue@ == rest
        &&& h1 == (Host {
            peers: h1.peers,
            dispatch_queue: h1.dispatch_queue,
            connected_peers: h1.connected_peers,
            bandwidth_limited_peers: h1.bandwidth_limited_peers,
            recalculate_bandwidth_limits: true,
            ..h0
        })
    } else if p.state == PeerState::Connected && p.dispatched_commands@.len() > 0 {
        let c = p.dispatched_commands@[0];
        let more = p.dispatched_commands@.len() > 1;
        &&& h1.peers@[i].dispatched_commands@ == p.dispatched_commands@.skip(1)
        &&& h1.peers@[i] == (Peer {
            dispatched_commands: h1.peers@[i].dispatched_commands,
            total_waiting_data: p.total_waiting_data.wrapping_sub(c.packet.bytes().len() as usize),
            flags: if more {
                p.flags | PEER_FLAG_NEEDS_DISPATCH
            } else {
                p.flags
            },
            ..p
        })
        &&& r == Some(
            Event::Receive { peer: PeerID(i as usize), channel_id: c.channel_id, packet: c.packet },
        )
        &&& h1.dispatch_queue@ == if more {
            rest.push(i as usize)
        } else {
            rest
        }
        &&& h1 == (Host {
            peers: h1.peers,
            dispatch_queue: h1.dispatch_queue,
            connected_peers: h1.connected_peers,
            bandwidth_limited_peers: h1.bandwidth_limited_peers,
            ..h0
        })
    } else {
        &&& h1.peers@[i] == p
        &&& r is None
        &&& h1.dispatch_queue@ == rest
        &&& h1 == (Host {
            peers: h1.peers,
            dispatch_queue: h1.dispatch_queue,
            connected_peers: h1.connected_peers,
            bandwidth_limited_peers: h1.bandwidth_limited_peers,
            ..h0
        })
    }
}

impl<A: Address, Z: Compressor> Host<A, Z> {
    /// Dispatch the first peer in the dispatch queue (see [`dispatched_one`]).
    pub fn dispatch_one(&mut self) -> (r: Option<Event>)
        requires
            old(self).wf(),
            old(self).dispatch_queue@.len() > 0,
        ensures
            final(self).wf(),
            dispatched_one(*old(self), *final(self), r),
    {
        let ghost h0 = *self;
        let ghost q0 = self.dispatch_queue@;
        let i = self.dispatch_queue.remove(0);
        assert(self.dispatch_queue@ =~= q0.skip(1));
        proof {
            lemma_count_bounds(h0.peers@);
            assert(counted(h0.peers@[i as int]) <= h0.connected_peers);
        }
        let host_mtu = self.mtu;
        let peer = &mut self.peers[i];
        peer.flags = peer.flags & !PEER_FLAG_NEEDS_DISPATCH;
        let ghost p = *peer;
        assert(p == undispatched(h0.peers@[i as int]));
        let state = peer.state;
        let r = if state == PeerState::ConnectionPending || state == PeerState::ConnectionSucceeded {
            peer.change_state(
                PeerState::Connected,
                &mut self.connected_peers,
                &mut self.bandwidth_limited_peers,
            );
            Some(Event::Connect { peer: PeerID(i), data: peer.event_data })
        } else if state == PeerState::Zombie {
            self.recalculate_bandwidth_limits = true;
            let data = peer.event_data;
            peer.reset(host_mtu, &mut self.connected_peers, &mut self.bandwidth_limited_peers);
            Some(Event::Disconnect { peer: PeerID(i), data })
        } else if state == PeerState::Connected && peer.dispatched_commands.len() > 0 {
            match peer.receive() {
                Some((channel_id, packet)) => {
                    if peer.dispatched_commands.len() > 0 {
                        peer.flags = peer.flags | PEER_FLAG_NEEDS_DISPATCH;
                        self.dispatch_queue.push(i);
                    }
                    Some(Event::Receive { peer: PeerID(i), channel_id, packet })
                },
                None => None,
            }
        } else {
            None
        };
        proof {
            lemma_count_update(h0.peers@, i as int, self.peers@[i as int]);
            assert(self.peers@ =~= h0.peers@.update(i as int, self.peers@[i as int]));
            assert forall|k: int| 0 <= k < self.peers@.len() implies (#[trigger] self.peers@[k]).index
                == PeerID(k as usize) && self.peers@[k].incoming_peer_id == k as u16
                && self.peers@[k].channels@.len() <= crate::consts::PROTOCOL_MAXIMUM_CHANNEL_COUNT by {
                if k != i {
                    assert(self.peers@[k] == h0.peers@[k]);
                }
            }
            assert forall|j: int| 0 <= j < self.dispatch_queue@.len() implies #[trigger] self.dispatch_queue@[j]
                < self.peers@.len() by {
                if j < q0.len() - 1 {
                    assert(self.dispatch_queue@[j] == q0[j + 1]);
                }
            }
        }
        r
    }
}

/// Whether host `h1` is host `h0` once the first `k` peers of its dispatch queue, all
/// quiet (see [`dispatch_quiet`]), have been dispatched: they have left the queue and lost
/// their dispatch mark, and nothing else has changed.
pub open spec fn quiet_prefix<A: Address, Z: Compressor>(h0: Host<A, Z>, h1: Host<A, Z>, k: int) -> bool {
    let q = h0.dispatch_queue@;
    &&& 0 <= k <= q.len()
    &&& forall|j: int| 0 <= j < k ==> dispatch_quiet(#[trigger] h0.peers@[q[j] as int])
    &&& h1.dispatch_queue@ == q.skip(k)
    &&& h1.peers@.len() == h0.peers@.len()
    &&& forall|i: int|
        0 <= i < h0.peers@.len() ==> #[trigger] h1.peers@[i] == if q.take(k).contains(
            i as usize,
        ) {
            undispatched(h0.peers@[i])
        } else {
            h0.peers@[i]
        }
    &&& h1 == (Host { peers: h1.peers, dispatch_queue: h1.dispatch_queue, ..h0 })
}

/// Whether `h1` and `r` are what dispatching events gives in `h0` (see
/// [`Host::check_events`]): the quiet peers at the front of the queue are passed over, and
/// the next one, if any, gives the event.
pub open spec fn events_checked<A: Address, Z: Compressor>(h0: Host<A, Z>, h1: Host<A, Z>, r: Option<Event>) -> bool {
    exists|k: int, hm: Host<A, Z>|
        #[trigger] quiet_prefix(h0, hm, k) && if k == h0.dispatch_queue@.len() {
            r is None && h1 == hm
        } else {
            !dispatch_quiet(h0.peers@[h0.dispatch_queue@[k] as int]) && dispatched_one(hm, h1, r) && r is Some
        }
}

impl<A: Address, Z: Compressor> Host<A, Z> {
    /// Dispatch the peers of the dispatch queue in order until one gives an event, and
    /// return it; `None` once the queue is empty. The peers passed over are quiet ones
    /// (see [`quiet_prefix`]); the event comes from dispatching the next one (see
    /// [`dispatched_one`]).
    pub fn check_events(&mut self) -> (r: Option<Event>)
        requires
            old(self).wf(),
        ensures
            final(self).wf(),
            final(self).service_time == old(self).service_time,
            final(self).bandwidth_throttle_epoch == old(self).bandwidth_throttle_epoch,
            final(self).total_received_packets == old(self).total_received_packets,
            final(self).total_received_data == old(self).total_received_data,
            final(self).sent == old(self).sent,
            events_checked(*old(self), *final(self), r),
    {
        let ghost h0 = *self;
        let ghost mut k: int = 0;
        assert(h0.dispatch_queue@.skip(0) =~= h0.dispatch_queue@);
        assert(h0.peers@ =~= h0.peers@);
        assert forall|i: int| 0 <= i < h0.peers@.len() implies #[trigger] self.peers@[i] == if h0.dispatch_queue@.take(0).contains(i as usize) {
            undispatched(h0.peers@[i])
        } else {
            h0.peers@[i]
        } by {
            assert(!h0.dispatch_queue@.take(0).contains(i as usize));
        }
        while self.dispatch_queue.len() > 0
            invariant
                self.wf(),
                quiet_prefix(h0, *self, k),
                h0 == *old(self),
            ensures
                self.wf(),
                quiet_prefix(h0, *self, k),
                self.dispatch_queue@.len() == 0,
            decreases self.dispatch_queue@.len(),
        {
            let ghost hm = *self;
            let i = self.dispatch_queue[0];
            assert(hm.dispatch_queue@[0] == h0.dispatch_queue@[k]);
            assert(hm.peers@[i as int] == h0.peers@[i as int] || hm.peers@[i as int] == undispatched(h0.peers@[i as int]));
            let r = self.dispatch_one();
            if r.is_some() {
                assert(!dispatch_quiet(h0.peers@[h0.dispatch_queue@[k] as int]));
                assert(quiet_prefix(*old(self), hm, k));
                return r;
            }
            proof {
                assert(dispatch_quiet(h0.peers@[h0.dispatch_queue@[k] as int]));
                let q = h0.dispatch_queue@;
                assert(q.take(k + 1) =~= q.take(k).push(q[k]));
                assert(self.dispatch_queue@ =~= q.skip(k + 1));
                assert forall|j: int| 0 <= j < h0.peers@.len() implies #[trigger] self.peers@[j] == if q.take(k + 1).contains(j as usize) {
                    undispatched(h0.peers@[j])
                } else {
                    h0.peers@[j]
                } by {
                    if j == i as int {
                        assert(q.take(k + 1).contains(j as usize)) by {
                            assert(q.take(k + 1)[k] == i);
                        }
                        let f = h0.peers@[j].flags;
                        assert((f & !1u16) & !1u16 == f & !1u16) by (bit_vector);
                        assert(undispatched(undispatched(h0.peers@[j])) == undispatched(h0.peers@[j]));
                    } else {
                        assert(self.peers@[j] == hm.peers@[j]);
                        if q.take(k + 1).contains(j as usize) {
                            let w = choose|w: int| 0 <= w < k + 1 && #[trigger] q.take(k + 1)[w] == j as usize;
                            assert(w != k);
                            assert(q.take(k)[w] == j as usize);
                        } else {
                            if q.take(k).contains(j as usize) {
                                let w = choose|w: int| 0 <= w < k && #[trigger] q.take(k)[w] == j as usize;
                                assert(q.take(k + 1)[w] == j as usize);
                            }
                        }
                    }
                }
                k = k + 1;
            }
        }
        None
    }
}

} // verus!
