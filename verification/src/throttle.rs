//! Bandwidth throttling: at most once a throttle interval, a host shares its outgoing
//! bandwidth among its connected peers by lowering their packet throttles, and, when its
//! bandwidth limits changed, tells each connected peer the bandwidth it may use.
use vstd::prelude::*;
use crate::compressor::Compressor;
use crate::address::Address;
use crate::consts::{HOST_BANDWIDTH_THROTTLE_INTERVAL, PEER_PACKET_THROTTLE_SCALE};
use crate::control::{control_queued, keeps_identity};
use crate::host::{count_connected, lemma_count_bounds, lemma_peer_step, Host};
use crate::peer::{counts_as_connected, Peer, PeerState};
use crate::protocol::{
    Command, ProtocolCommand, PROTOCOL_COMMAND_BANDWIDTH_LIMIT, PROTOCOL_COMMAND_FLAG_ACKNOWLEDGE,
};

verus! {

/// How many of `peers` satisfy `f`.
pub open spec fn count_where(peers: Seq<Peer>, f: spec_fn(Peer) -> bool) -> int
    decreases peers.len(),
{
    if peers.len() == 0 {
        0
    } else {
        count_where(peers.drop_last(), f) + if f(peers.last()) {
            1int
        } else {
            0int
        }
    }
}

/// The count lies between 0 and the number of peers, and is 0 only when no peer satisfies
/// `f`.
pub proof fn lemma_count_where(peers: Seq<Peer>, f: spec_fn(Peer) -> bool)
    ensures
        0 <= count_where(peers, f) <= peers.len(),
        count_where(peers, f) == 0 ==> forall|i: int| 0 <= i < peers.len() ==> !f(#[trigger] peers[i]),
    decreases peers.len(),
{
    if peers.len() > 0 {
        lemma_count_where(peers.drop_last(), f);
        if count_where(peers, f) == 0 {
            assert forall|i: int| 0 <= i < peers.len() implies !f(#[trigger] peers[i]) by {
                if i < peers.len() - 1 {
                    assert(peers.drop_last()[i] == peers[i]);
                }
            }
        }
    }
}

/// Replacing the peer at `i` changes the count by the difference of the two peers' shares.
pub proof fn lemma_count_where_update(peers: Seq<Peer>, i: int, p: Peer, f: spec_fn(Peer) -> bool)
    requires
        0 <= i < peers.len(),
    ensures
        count_where(peers.update(i, p), f) == count_where(peers, f) - (if f(peers[i]) {
            1int
        } else {
            0int
        }) + (if f(p) {
            1int
        } else {
            0int
        }),
    decreases peers.len(),
{
    let u = peers.update(i, p);
    if i < peers.len() - 1 {
        assert(u.drop_last() =~= peers.drop_last().update(i, p));
        lemma_count_where_update(peers.drop_last(), i, p, f);
    } else {
        assert(u.drop_last() =~= peers.drop_last());
    }
}

/// The connected peers whose packet throttle has not been set at time `t`.
pub open spec fn awaiting_throttle(t: u32) -> spec_fn(Peer) -> bool {
    |p: Peer| counts_as_connected(p.state) && p.outgoing_bandwidth_throttle_epoch != t
}

/// The connected peers whose incoming bandwidth limit has not been fixed at time `t`.
pub open spec fn awaiting_limit(t: u32) -> spec_fn(Peer) -> bool {
    |p: Peer| counts_as_connected(p.state) && p.incoming_bandwidth_throttle_epoch != t
}

/// Whether throttling took peer `p0` to `p1`: the same peer in the same state with the
/// same bandwidths, its packet throttle no higher, and untouched unless it is connected.
pub open spec fn throttle_frame(p0: Peer, p1: Peer) -> bool {
    &&& keeps_identity(p0, p1)
    &&& p1.state == p0.state
    &&& p1.incoming_bandwidth == p0.incoming_bandwidth
    &&& p1.outgoing_bandwidth == p0.outgoing_bandwidth
    &&& p1.packet_throttle <= p0.packet_throttle
    &&& (!counts_as_connected(p0.state) ==> p1 == p0)
}

/// Whether throttling took host `h0` to `h1`: each peer as [`throttle_frame`] says, and
/// nothing else but the count of queued commands changed.
pub open spec fn host_throttle_frame<A, Z: Compressor>(h0: Host<A, Z>, h1: Host<A, Z>) -> bool {
    &&& h1.peers@.len() == h0.peers@.len()
    &&& forall|j: int| 0 <= j < h0.peers@.len() ==> throttle_frame(#[trigger] h0.peers@[j], h1.peers@[j])
    &&& h1 == (Host { peers: h1.peers, total_queued: h1.total_queued, ..h0 })
}

/// Whether a round of throttling at time `t`, `elapsed` after the last, under packet
/// throttle `throttle`, throttles peer `p`: it is connected, has an incoming bandwidth, is
/// not yet throttled at `t`, and would send more than its bandwidth over `elapsed` takes in.
pub open spec fn throttle_taken(p: Peer, t: u32, elapsed: u32, throttle: u32) -> bool {
    &&& counts_as_connected(p.state)
    &&& p.incoming_bandwidth != 0
    &&& p.outgoing_bandwidth_throttle_epoch != t
    &&& throttle.wrapping_mul(p.outgoing_data_total) / PEER_PACKET_THROTTLE_SCALE
        > p.incoming_bandwidth.wrapping_mul(elapsed) / 1000
}

/// Peer `p` after such a round: a throttled peer gets a packet throttle limit in proportion
/// to what it takes in over what it would send (at least 1), its packet throttle lowered
/// to it, the time of throttling, and its data totals cleared; any other is unchanged.
pub open spec fn throttle_step(p: Peer, t: u32, elapsed: u32, throttle: u32) -> Peer {
    if throttle_taken(p, t, elapsed, throttle) {
        let share = p.incoming_bandwidth.wrapping_mul(elapsed) / 1000;
        let computed = (share.wrapping_mul(PEER_PACKET_THROTTLE_SCALE) / p.outgoing_data_total) as u32;
        let limit = if computed == 0 {
            1u32
        } else {
            computed
        };
        Peer {
            packet_throttle_limit: limit,
            packet_throttle: if p.packet_throttle > limit {
                limit
            } else {
                p.packet_throttle
            },
            outgoing_bandwidth_throttle_epoch: t,
            incoming_data_total: 0,
            outgoing_data_total: 0,
            ..p
        }
    } else {
        p
    }
}

/// The bandwidth peer `p` keeps in a round of throttling at time `t`, `elapsed` after the
/// last, under packet throttle `throttle`: what its incoming bandwidth takes in over
/// `elapsed` when the round throttles it, else nothing.
pub open spec fn share_taken(p: Peer, t: u32, elapsed: u32, throttle: u32) -> u32 {
    if throttle_taken(p, t, elapsed, throttle) {
        p.incoming_bandwidth.wrapping_mul(elapsed) / 1000
    } else {
        0
    }
}

/// What the peers of `peers` keep in such a round, summed with wrapping.
pub open spec fn shares_taken(peers: Seq<Peer>, t: u32, elapsed: u32, throttle: u32) -> u32
    decreases peers.len(),
{
    if peers.len() == 0 {
        0
    } else {
        shares_taken(peers.drop_last(), t, elapsed, throttle).wrapping_add(
            share_taken(peers.last(), t, elapsed, throttle),
        )
    }
}

/// Peer `p` given the packet throttle limit `throttle` at time `t`, when it is connected and
/// was not throttled at `t` by a round: its packet throttle lowered to the limit and its
/// data totals cleared; any other peer is unchanged.
pub open spec fn limit_step(p: Peer, t: u32, throttle: u32) -> Peer {
    if counts_as_connected(p.state) && p.outgoing_bandwidth_throttle_epoch != t {
        Peer {
            packet_throttle_limit: throttle,
            packet_throttle: if p.packet_throttle > throttle {
                throttle
            } else {
                p.packet_throttle
            },
            incoming_data_total: 0,
            outgoing_data_total: 0,
            ..p
        }
    } else {
        p
    }
}

/// Where throttling at time `t`, `elapsed` after the last, starts for host `h`: its peers,
/// its connected peers left to share, the bandwidth it sends over `elapsed` and the data
/// its connected peers would send (both unlimited when it has no outgoing bandwidth), and
/// whether a round is due (some peer has a bandwidth limit).
pub open spec fn throttle_start<A, Z: Compressor>(h: Host<A, Z>, elapsed: u32) -> (Seq<Peer>, u32, u32, u32, bool) {
    (
        h.peers@,
        h.connected_peers as u32,
        if h.outgoing_bandwidth != 0 {
            h.outgoing_bandwidth.wrapping_mul(elapsed) / 1000
        } else {
            0xffff_ffffu32
        },
        if h.outgoing_bandwidth != 0 {
            connected_data(h.peers@)
        } else {
            0xffff_ffffu32
        },
        h.bandwidth_limited_peers > 0,
    )
}

/// Whether another round of throttling follows state `s`: connected peers are left to
/// share, and the last round (or the start) asks for one.
pub open spec fn throttle_running(s: (Seq<Peer>, u32, u32, u32, bool)) -> bool {
    s.1 > 0 && s.4
}

/// The state after a round of throttling at time `t`, `elapsed` after the last, from state
/// `s`: under the packet throttle that shares the bandwidth among the data total, each peer
/// stepped (see [`throttle_step`]), the peers it throttled no longer left to share and their
/// bandwidth taken off both the bandwidth and the data total, and whether it throttled any.
pub open spec fn throttle_next(s: (Seq<Peer>, u32, u32, u32, bool), t: u32, elapsed: u32) -> (
    Seq<Peer>,
    u32,
    u32,
    u32,
    bool,
) {
    let throttle = throttle_for(s.2, s.3);
    let peers = Seq::new(s.0.len(), |j: int| throttle_step(s.0[j], t, elapsed, throttle));
    let taken = shares_taken(s.0, t, elapsed, throttle);
    (
        peers,
        (s.1 - count_where(s.0, awaiting_throttle(t)) + count_where(peers, awaiting_throttle(t))) as u32,
        s.2.wrapping_sub(taken),
        s.3.wrapping_sub(taken),
        exists|j: int| 0 <= j < s.0.len() && #[trigger] throttle_taken(s.0[j], t, elapsed, throttle),
    )
}

/// Whether `trace` lists the rounds of throttling at time `t`, `elapsed` after the last,
/// from `start` until no further round follows.
pub open spec fn throttle_trace(
    trace: Seq<(Seq<Peer>, u32, u32, u32, bool)>,
    start: (Seq<Peer>, u32, u32, u32, bool),
    t: u32,
    elapsed: u32,
) -> bool {
    &&& trace.len() >= 1
    &&& trace[0] == start
    &&& forall|i: int|
        0 <= i < trace.len() - 1 ==> throttle_running(#[trigger] trace[i]) && trace[i + 1] == throttle_next(
            trace[i],
            t,
            elapsed,
        )
    &&& !throttle_running(trace.last())
}

/// The peers once the rounds of throttling at time `t` ended in state `s`: when connected
/// peers are left to share, each of them gets the packet throttle that shares what is left
/// (see [`limit_step`]).
pub open spec fn throttle_end(s: (Seq<Peer>, u32, u32, u32, bool), t: u32) -> Seq<Peer> {
    if s.1 > 0 {
        Seq::new(s.0.len(), |j: int| limit_step(s.0[j], t, throttle_for(s.2, s.3)))
    } else {
        s.0
    }
}

/// Peer `p` after a round of fixing limits at time `t` under the shared limit
/// `bandwidth_limit`: marked as fixed at `t` when the round fixes it (see [`limit_taken`]).
pub open spec fn limit_fixed(p: Peer, t: u32, bandwidth_limit: u32) -> Peer {
    if limit_taken(p, t, bandwidth_limit) {
        Peer { incoming_bandwidth_throttle_epoch: t, ..p }
    } else {
        p
    }
}

/// The outgoing bandwidths of the peers of `peers` that such a round fixes, summed with
/// wrapping: what they keep of the host's incoming bandwidth.
pub open spec fn limit_shares(peers: Seq<Peer>, t: u32, bandwidth_limit: u32) -> u32
    decreases peers.len(),
{
    if peers.len() == 0 {
        0
    } else {
        limit_shares(peers.drop_last(), t, bandwidth_limit).wrapping_add(
            if limit_taken(peers.last(), t, bandwidth_limit) {
                peers.last().outgoing_bandwidth
            } else {
                0
            },
        )
    }
}

/// Where fixing the incoming bandwidth limits at time `t` starts: the peers, the number
/// `connected` of connected peers left to share the host's incoming bandwidth `incoming`,
/// whether a round is due (the host has an incoming bandwidth), and no shared limit yet.
pub open spec fn limit_start(peers: Seq<Peer>, connected: usize, incoming: u32) -> (Seq<Peer>, u32, u32, bool, u32) {
    (peers, connected as u32, incoming, incoming != 0, 0)
}

/// Whether another round of fixing limits follows state `s`.
pub open spec fn limit_running(s: (Seq<Peer>, u32, u32, bool, u32)) -> bool {
    s.1 > 0 && s.3
}

/// The state after a round of fixing limits at time `t` from state `s`: the shared limit
/// is the bandwidth left over the peers left; the peers it fixes keep their own outgoing
/// bandwidth, are no longer left to share, and leave the rest of the bandwidth.
pub open spec fn limit_next(s: (Seq<Peer>, u32, u32, bool, u32), t: u32) -> (Seq<Peer>, u32, u32, bool, u32) {
    let bandwidth_limit = s.2 / s.1;
    let peers = Seq::new(s.0.len(), |j: int| limit_fixed(s.0[j], t, bandwidth_limit));
    (
        peers,
        (s.1 - count_where(s.0, awaiting_limit(t)) + count_where(peers, awaiting_limit(t))) as u32,
        s.2.wrapping_sub(limit_shares(s.0, t, bandwidth_limit)),
        exists|j: int| 0 <= j < s.0.len() && #[trigger] limit_taken(s.0[j], t, bandwidth_limit),
        bandwidth_limit,
    )
}

/// Whether `trace` lists the rounds of fixing limits at time `t` from `start` until no
/// further round follows.
pub open spec fn limit_trace(trace: Seq<(Seq<Peer>, u32, u32, bool, u32)>, start: (Seq<Peer>, u32, u32, bool, u32), t: u32) -> bool {
    &&& trace.len() >= 1
    &&& trace[0] == start
    &&& forall|i: int|
        0 <= i < trace.len() - 1 ==> limit_running(#[trigger] trace[i]) && trace[i + 1] == limit_next(trace[i], t)
    &&& !limit_running(trace.last())
}

/// A trace of rounds of fixing limits that ends in a state from which a round follows
/// stays one with that round added.
proof fn lemma_limit_trace_push(trace: Seq<(Seq<Peer>, u32, u32, bool, u32)>, t: u32)
    requires
        trace.len() >= 1,
        forall|i: int|
            0 <= i < trace.len() - 1 ==> limit_running(#[trigger] trace[i]) && trace[i + 1] == limit_next(trace[i], t),
        limit_running(trace.last()),
    ensures
        ({
            let t1 = trace.push(limit_next(trace.last(), t));
            &&& t1.len() >= 1
            &&& t1[0] == trace[0]
            &&& forall|i: int|
                0 <= i < t1.len() - 1 ==> limit_running(#[trigger] t1[i]) && t1[i + 1] == limit_next(t1[i], t)
        }),
{
    let t1 = trace.push(limit_next(trace.last(), t));
    assert forall|i: int| 0 <= i < t1.len() - 1 implies limit_running(#[trigger] t1[i]) && t1[i + 1]
        == limit_next(t1[i], t) by {
        if i < trace.len() - 1 {
            assert(t1[i] == trace[i] && t1[i + 1] == trace[i + 1]);
        } else {
            assert(t1[i] == trace.last());
        }
    }
}

/// A trace of rounds that ends in a state from which a round follows stays one with that
/// round added.
proof fn lemma_trace_push(trace: Seq<(Seq<Peer>, u32, u32, u32, bool)>, t: u32, elapsed: u32)
    requires
        trace.len() >= 1,
        forall|i: int|
            0 <= i < trace.len() - 1 ==> throttle_running(#[trigger] trace[i]) && trace[i + 1] == throttle_next(
                trace[i],
                t,
                elapsed,
            ),
        throttle_running(trace.last()),
    ensures
        ({
            let t1 = trace.push(throttle_next(trace.last(), t, elapsed));
            &&& t1.len() >= 1
            &&& t1[0] == trace[0]
            &&& forall|i: int|
                0 <= i < t1.len() - 1 ==> throttle_running(#[trigger] t1[i]) && t1[i + 1] == throttle_next(
                    t1[i],
                    t,
                    elapsed,
                )
        }),
{
    let t1 = trace.push(throttle_next(trace.last(), t, elapsed));
    assert forall|i: int| 0 <= i < t1.len() - 1 implies throttle_running(#[trigger] t1[i]) && t1[i + 1]
        == throttle_next(t1[i], t, elapsed) by {
        if i < trace.len() - 1 {
            assert(t1[i] == trace[i] && t1[i + 1] == trace[i + 1]);
        } else {
            assert(t1[i] == trace.last());
        }
    }
}

/// Taking `s` and then `x` off `b`, with wrapping, takes their wrapping sum off it.
proof fn lemma_wrapping_sub_twice(b: u32, s: u32, x: u32)
    ensures
        b.wrapping_sub(s).wrapping_sub(x) == b.wrapping_sub(s.wrapping_add(x)),
{
}

/// Whether a round of fixing limits at time `t` fixes peer `p`: it is connected, not yet
/// fixed at `t`, and its outgoing bandwidth is unlimited or below `bandwidth_limit`.
pub open spec fn limit_taken(p: Peer, t: u32, bandwidth_limit: u32) -> bool {
    &&& p.incoming_bandwidth_throttle_epoch != t
    &&& counts_as_connected(p.state)
    &&& !(p.outgoing_bandwidth > 0 && p.outgoing_bandwidth >= bandwidth_limit)
}

/// The outgoing data of the connected peers among `peers`, summed with wrapping.
pub open spec fn connected_data(peers: Seq<Peer>) -> u32
    decreases peers.len(),
{
    if peers.len() == 0 {
        0
    } else if counts_as_connected(peers.last().state) {
        connected_data(peers.drop_last()).wrapping_add(peers.last().outgoing_data_total)
    } else {
        connected_data(peers.drop_last())
    }
}

/// The bandwidth limit command that tells a peer it may send `incoming` bytes per second
/// and that the host sends `outgoing`.
pub open spec fn bandwidth_limit_command(incoming: u32, outgoing: u32) -> ProtocolCommand {
    ProtocolCommand {
        command: PROTOCOL_COMMAND_BANDWIDTH_LIMIT | PROTOCOL_COMMAND_FLAG_ACKNOWLEDGE,
        channel_id: 0xff,
        reliable_sequence_number: 0,
        body: Command::BandwidthLimit { incoming_bandwidth: incoming, outgoing_bandwidth: outgoing },
    }
}

/// The incoming bandwidth peer `p0`, which became `p1`, is told at time `t`: its own
/// outgoing bandwidth when its limit was fixed at `t`, else the shared `limit`.
pub open spec fn told_incoming(p0: Peer, p1: Peer, t: u32, limit: u32) -> u32 {
    if p1.incoming_bandwidth_throttle_epoch == t {
        p0.outgoing_bandwidth
    } else {
        limit
    }
}

/// Whether each of `peers0` became the peer at its place in `peers1` by being told its
/// bandwidth limits (see [`limits_told`]).
pub open spec fn all_limits_told(peers0: Seq<Peer>, peers1: Seq<Peer>, t: u32, limit: u32, outgoing: u32) -> bool {
    &&& peers1.len() == peers0.len()
    &&& forall|j: int| 0 <= j < peers0.len() ==> limits_told(peers0[j], #[trigger] peers1[j], t, limit, outgoing)
}

/// Whether peer `p1` is `p0` told its bandwidth limits at time `t`: a connected peer gets
/// the bandwidth limit command with the host's outgoing bandwidth `outgoing`, and as its
/// incoming bandwidth its own outgoing bandwidth when its limit was fixed at `t`, else the
/// shared `limit`; any other peer is unchanged.
pub open spec fn limits_told(p0: Peer, p1: Peer, t: u32, limit: u32, outgoing: u32) -> bool {
    if counts_as_connected(p0.state) {
        exists|tq: u32|
            #[trigger] control_queued(
                Peer { incoming_bandwidth_throttle_epoch: p1.incoming_bandwidth_throttle_epoch, ..p0 },
                p1,
                bandwidth_limit_command(told_incoming(p0, p1, t, limit), outgoing),
                tq,
            )
    } else {
        p1 == p0
    }
}

/// Whether peer `p` was throttled at time `t` and its packet throttle lies within the new
/// limit.
pub open spec fn throttled_within(p: Peer, t: u32) -> bool {
    &&& p.outgoing_bandwidth_throttle_epoch == t
    &&& p.packet_throttle <= p.packet_throttle_limit
    &&& p.incoming_data_total == 0
    &&& p.outgoing_data_total == 0
}

/// Whether throttling at time `t` took `peers0` to `peers1`: each peer as
/// [`throttle_frame`] says, and each connected peer not yet throttled at `t` with its
/// packet throttle within its new limit and its data totals cleared.
pub open spec fn peers_throttled(peers0: Seq<Peer>, peers1: Seq<Peer>, t: u32) -> bool {
    &&& peers1.len() == peers0.len()
    &&& forall|j: int| 0 <= j < peers0.len() ==> throttle_frame(peers0[j], #[trigger] peers1[j])
    &&& forall|j: int|
        0 <= j < peers0.len() && counts_as_connected(peers0[j].state) && peers0[j].outgoing_bandwidth_throttle_epoch
            != t ==> {
            &&& (#[trigger] peers1[j]).packet_throttle <= peers1[j].packet_throttle_limit
            &&& peers1[j].incoming_data_total == 0
            &&& peers1[j].outgoing_data_total == 0
        }
}

/// The packet throttle, out of [`PEER_PACKET_THROTTLE_SCALE`], that shares `bandwidth`
/// among peers that would send `data_total`.
pub open spec fn throttle_for(bandwidth: u32, data_total: u32) -> u32 {
    if data_total <= bandwidth {
        PEER_PACKET_THROTTLE_SCALE
    } else {
        (bandwidth.wrapping_mul(PEER_PACKET_THROTTLE_SCALE) / data_total) as u32
    }
}

fn compute_throttle(bandwidth: u32, data_total: u32) -> (t: u32)
    ensures
        t == throttle_for(bandwidth, data_total),
{
    if data_total <= bandwidth {
        PEER_PACKET_THROTTLE_SCALE
    } else {
        bandwidth.wrapping_mul(PEER_PACKET_THROTTLE_SCALE) / data_total
    }
}

fn is_counted(state: PeerState) -> (r: bool)
    ensures
        r == counts_as_connected(state),
{
    state == PeerState::Connected || state == PeerState::DisconnectLater
}

/// A count of peers that only connected peers can satisfy is no more than the number of
/// connected peers.
pub proof fn lemma_count_where_connected(peers: Seq<Peer>, f: spec_fn(Peer) -> bool)
    requires
        forall|p: Peer| #[trigger] f(p) ==> counts_as_connected(p.state),
    ensures
        count_where(peers, f) <= count_connected(peers),
    decreases peers.len(),
{
    if peers.len() > 0 {
        lemma_count_where_connected(peers.drop_last(), f);
    }
}

impl<A: Address, Z: Compressor> Host<A, Z> {
    /// The outgoing data of the connected peers, summed with wrapping.
    fn connected_data_total(&self) -> (total: u32)
        ensures
            total == connected_data(self.peers@),
    {
        let mut total: u32 = 0;
        let mut j: usize = 0;
        while j < self.peers.len()
            invariant
                j <= self.peers@.len(),
                total == connected_data(self.peers@.take(j as int)),
            decreases self.peers@.len() - j,
        {
            proof {
                assert(self.peers@.take(j + 1).drop_last() =~= self.peers@.take(j as int));
            }
            if is_counted(self.peers[j].state) {
                total = total.wrapping_add(self.peers[j].outgoing_data_total);
            }
            j = j + 1;
        }
        proof {
            assert(self.peers@.take(j as int) =~= self.peers@);
        }
        total
    }

    /// One round of throttling at time `time`, `elapsed` after the last: each connected
    /// peer with an incoming bandwidth, not yet throttled at `time`, that would send more
    /// under `throttle` than its bandwidth over `elapsed` takes in, gets a packet throttle
    /// limit in proportion to what it takes in, and leaves the share (`remaining`,
    /// `bandwidth`, `data_total`) of the others. Returns whether any peer was throttled.
    fn throttle_round(
        &mut self,
        time: u32,
        elapsed: u32,
        throttle: u32,
        remaining: &mut u32,
        bandwidth: &mut u32,
        data_total: &mut u32,
    ) -> (needs_adjustment: bool)
        requires
            old(self).wf(),
            *old(remaining) >= count_where(old(self).peers@, awaiting_throttle(time)),
        ensures
            final(self).wf(),
            host_throttle_frame(*old(self), *final(self)),
            final(self).total_queued == old(self).total_queued,
            *final(remaining) - count_where(final(self).peers@, awaiting_throttle(time)) == *old(
                remaining,
            ) - count_where(old(self).peers@, awaiting_throttle(time)),
            count_where(final(self).peers@, awaiting_throttle(time)) <= count_where(
                old(self).peers@,
                awaiting_throttle(time),
            ),
            needs_adjustment ==> count_where(final(self).peers@, awaiting_throttle(time))
                < count_where(old(self).peers@, awaiting_throttle(time)),
            forall|j: int|
                0 <= j < old(self).peers@.len() ==> #[trigger] final(self).peers@[j] == throttle_step(
                    old(self).peers@[j],
                    time,
                    elapsed,
                    throttle,
                ),
            needs_adjustment == exists|j: int|
                0 <= j < old(self).peers@.len() && #[trigger] throttle_taken(old(self).peers@[j], time, elapsed, throttle),
            !needs_adjustment ==> *final(remaining) == *old(remaining) && *final(bandwidth) == *old(bandwidth)
                && *final(data_total) == *old(data_total),
            *final(bandwidth) == old(bandwidth).wrapping_sub(shares_taken(old(self).peers@, time, elapsed, throttle)),
            *final(data_total) == old(data_total).wrapping_sub(
                shares_taken(old(self).peers@, time, elapsed, throttle),
            ),
            forall|j: int|
                0 <= j < old(self).peers@.len() ==> {
                    &&& (old(self).peers@[j].outgoing_bandwidth_throttle_epoch == time
                        ==> #[trigger] final(self).peers@[j] == old(self).peers@[j])
                    &&& (counts_as_connected(old(self).peers@[j].state)
                        && old(self).peers@[j].outgoing_bandwidth_throttle_epoch != time
                        && final(self).peers@[j].outgoing_bandwidth_throttle_epoch == time
                        ==> throttled_within(final(self).peers@[j], time))
                },
    {
        let ghost h0 = *self;
        let ghost f = awaiting_throttle(time);
        let mut needs_adjustment = false;
        let mut j: usize = 0;
        while j < self.peers.len()
            invariant
                h0.wf(),
                self.wf(),
                j <= self.peers@.len(),
                host_throttle_frame(h0, *self),
                self.total_queued == h0.total_queued,
                *remaining >= count_where(self.peers@, f),
                *remaining - count_where(self.peers@, f) == *old(remaining) - count_where(h0.peers@, f),
                count_where(self.peers@, f) <= count_where(h0.peers@, f),
                needs_adjustment ==> count_where(self.peers@, f) < count_where(h0.peers@, f),
                f == awaiting_throttle(time),
                forall|k: int| j <= k < self.peers@.len() ==> #[trigger] self.peers@[k] == h0.peers@[k],
                forall|k: int| 0 <= k < j ==> #[trigger] self.peers@[k] == throttle_step(h0.peers@[k], time, elapsed, throttle),
                needs_adjustment == exists|k: int| 0 <= k < j && #[trigger] throttle_taken(h0.peers@[k], time, elapsed, throttle),
                !needs_adjustment ==> *remaining == *old(remaining) && *bandwidth == *old(bandwidth) && *data_total
                    == *old(data_total),
                *bandwidth == old(bandwidth).wrapping_sub(shares_taken(h0.peers@.take(j as int), time, elapsed, throttle)),
                *data_total == old(data_total).wrapping_sub(
                    shares_taken(h0.peers@.take(j as int), time, elapsed, throttle),
                ),
                forall|k: int|
                    0 <= k < h0.peers@.len() ==> {
                        &&& (h0.peers@[k].outgoing_bandwidth_throttle_epoch == time
                            ==> #[trigger] self.peers@[k] == h0.peers@[k])
                        &&& (counts_as_connected(h0.peers@[k].state)
                            && h0.peers@[k].outgoing_bandwidth_throttle_epoch != time
                            && self.peers@[k].outgoing_bandwidth_throttle_epoch == time
                            ==> throttled_within(self.peers@[k], time))
                    },
            decreases self.peers@.len() - j,
        {
            let ghost h1 = *self;
            let ghost b1 = *bandwidth;
            let ghost d1 = *data_total;
            proof {
                let pre = h0.peers@.take(j as int);
                let x = share_taken(h0.peers@[j as int], time, elapsed, throttle);
                assert(h0.peers@.take(j + 1).drop_last() =~= pre);
                assert(shares_taken(h0.peers@.take(j + 1), time, elapsed, throttle) == shares_taken(pre, time, elapsed, throttle).wrapping_add(x));
                lemma_wrapping_sub_twice(*old(bandwidth), shares_taken(pre, time, elapsed, throttle), x);
                lemma_wrapping_sub_twice(*old(data_total), shares_taken(pre, time, elapsed, throttle), x);
            }
            let take = is_counted(self.peers[j].state) && self.peers[j].incoming_bandwidth != 0
                && self.peers[j].outgoing_bandwidth_throttle_epoch != time;
            if take {
                let peer_bandwidth = self.peers[j].incoming_bandwidth.wrapping_mul(elapsed) / 1000;
                let outgoing_total = self.peers[j].outgoing_data_total;
                if throttle.wrapping_mul(outgoing_total) / PEER_PACKET_THROTTLE_SCALE > peer_bandwidth {
                    assert(outgoing_total != 0) by {
                        if outgoing_total == 0 {
                            assert(throttle.wrapping_mul(0u32) == 0u32) by (nonlinear_arith);
                        }
                    }
                    let mut limit = peer_bandwidth.wrapping_mul(PEER_PACKET_THROTTLE_SCALE)
                        / outgoing_total;
                    if limit == 0 {
                        limit = 1;
                    }
                    {
                        let p = &mut self.peers[j];
                        p.packet_throttle_limit = limit;
                        if p.packet_throttle > limit {
                            p.packet_throttle = limit;
                        }
                        p.outgoing_bandwidth_throttle_epoch = time;
                        p.incoming_data_total = 0;
                        p.outgoing_data_total = 0;
                    }
                    proof {
                        lemma_peer_step(h1, *self, j as int);
                        lemma_count_where_update(h1.peers@, j as int, self.peers@[j as int], f);
                        assert(self.peers@ == h1.peers@.update(j as int, self.peers@[j as int]));
                        lemma_count_where(h1.peers@, f);
                    }
                    needs_adjustment = true;
                    *remaining = *remaining - 1;
                    *bandwidth = bandwidth.wrapping_sub(peer_bandwidth);
                    *data_total = data_total.wrapping_sub(peer_bandwidth);
                }
            }
            proof {
                let x = share_taken(h0.peers@[j as int], time, elapsed, throttle);
                if x == 0 {
                    assert(b1.wrapping_sub(0u32) == b1);
                    assert(d1.wrapping_sub(0u32) == d1);
                }
            }
            j = j + 1;
        }
        proof {
            assert(h0.peers@.take(h0.peers@.len() as int) =~= h0.peers@);
        }
        needs_adjustment
    }

    /// Give each connected peer not yet throttled at `time` the packet throttle limit
    /// `throttle`, lowering its packet throttle to it, and clear its data totals.
    fn apply_throttle(&mut self, time: u32, throttle: u32)
        requires
            old(self).wf(),
        ensures
            final(self).wf(),
            host_throttle_frame(*old(self), *final(self)),
            final(self).total_queued == old(self).total_queued,
            forall|j: int|
                0 <= j < old(self).peers@.len() ==> #[trigger] final(self).peers@[j] == limit_step(
                    old(self).peers@[j],
                    time,
                    throttle,
                ),
    {
        let ghost h0 = *self;
        let mut j: usize = 0;
        while j < self.peers.len()
            invariant
                self.wf(),
                j <= self.peers@.len(),
                host_throttle_frame(h0, *self),
                self.total_queued == h0.total_queued,
                forall|k: int| j <= k < self.peers@.len() ==> #[trigger] self.peers@[k] == h0.peers@[k],
                forall|k: int| 0 <= k < j ==> #[trigger] self.peers@[k] == limit_step(h0.peers@[k], time, throttle),
            decreases self.peers@.len() - j,
        {
            let ghost h1 = *self;
            if is_counted(self.peers[j].state) && self.peers[j].outgoing_bandwidth_throttle_epoch
                != time {
                {
                    let p = &mut self.peers[j];
                    p.packet_throttle_limit = throttle;
                    if p.packet_throttle > throttle {
                        p.packet_throttle = throttle;
                    }
                    p.incoming_data_total = 0;
                    p.outgoing_data_total = 0;
                }
                proof {
                    lemma_peer_step(h1, *self, j as int);
                }
            }
            j = j + 1;
        }
    }
}

impl<A: Address, Z: Compressor> Host<A, Z> {
    /// One round of fixing incoming bandwidth limits at time `time`: each connected peer
    /// not yet fixed, whose outgoing bandwidth is unlimited or below `bandwidth_limit`,
    /// keeps its own outgoing bandwidth as its limit, and leaves the share (`remaining`,
    /// `bandwidth`) of the others. Returns whether any peer was fixed.
    fn limit_round(&mut self, time: u32, bandwidth_limit: u32, remaining: &mut u32, bandwidth: &mut u32) -> (needs_adjustment: bool)
        requires
            old(self).wf(),
            *old(remaining) >= count_where(old(self).peers@, awaiting_limit(time)),
        ensures
            final(self).wf(),
            host_throttle_frame(*old(self), *final(self)),
            final(self).total_queued == old(self).total_queued,
            *final(remaining) - count_where(final(self).peers@, awaiting_limit(time)) == *old(
                remaining,
            ) - count_where(old(self).peers@, awaiting_limit(time)),
            count_where(final(self).peers@, awaiting_limit(time)) <= count_where(
                old(self).peers@,
                awaiting_limit(time),
            ),
            needs_adjustment ==> count_where(final(self).peers@, awaiting_limit(time))
                < count_where(old(self).peers@, awaiting_limit(time)),
            forall|j: int|
                0 <= j < old(self).peers@.len() ==> #[trigger] final(self).peers@[j] == if limit_taken(
                    old(self).peers@[j],
                    time,
                    bandwidth_limit,
                ) {
                    Peer { incoming_bandwidth_throttle_epoch: time, ..old(self).peers@[j] }
                } else {
                    old(self).peers@[j]
                },
            needs_adjustment == exists|j: int|
                0 <= j < old(self).peers@.len() && #[trigger] limit_taken(old(self).peers@[j], time, bandwidth_limit),
            !needs_adjustment ==> *final(remaining) == *old(remaining) && *final(bandwidth) == *old(bandwidth),
            *final(bandwidth) == old(bandwidth).wrapping_sub(limit_shares(old(self).peers@, time, bandwidth_limit)),
            forall|j: int|
                0 <= j < old(self).peers@.len() ==> #[trigger] final(self).peers@[j] == (Peer {
                    incoming_bandwidth_throttle_epoch: final(self).peers@[j].incoming_bandwidth_throttle_epoch,
                    ..old(self).peers@[j]
                }),
    {
        let ghost h0 = *self;
        let ghost f = awaiting_limit(time);
        let mut needs_adjustment = false;
        let mut j: usize = 0;
        while j < self.peers.len()
            invariant
                self.wf(),
                j <= self.peers@.len(),
                host_throttle_frame(h0, *self),
                self.total_queued == h0.total_queued,
                *remaining >= count_where(self.peers@, f),
                *remaining - count_where(self.peers@, f) == *old(remaining) - count_where(h0.peers@, f),
                count_where(self.peers@, f) <= count_where(h0.peers@, f),
                needs_adjustment ==> count_where(self.peers@, f) < count_where(h0.peers@, f),
                f == awaiting_limit(time),
                forall|k: int| j <= k < self.peers@.len() ==> #[trigger] self.peers@[k] == h0.peers@[k],
                forall|k: int|
                    0 <= k < j ==> #[trigger] self.peers@[k] == if limit_taken(h0.peers@[k], time, bandwidth_limit) {
                        Peer { incoming_bandwidth_throttle_epoch: time, ..h0.peers@[k] }
                    } else {
                        h0.peers@[k]
                    },
                needs_adjustment == exists|k: int| 0 <= k < j && #[trigger] limit_taken(h0.peers@[k], time, bandwidth_limit),
                !needs_adjustment ==> *remaining == *old(remaining) && *bandwidth == *old(bandwidth),
                *bandwidth == old(bandwidth).wrapping_sub(limit_shares(h0.peers@.take(j as int), time, bandwidth_limit)),
                forall|k: int|
                    0 <= k < h0.peers@.len() ==> #[trigger] self.peers@[k] == (Peer {
                        incoming_bandwidth_throttle_epoch: self.peers@[k].incoming_bandwidth_throttle_epoch,
                        ..h0.peers@[k]
                    }),
            decreases self.peers@.len() - j,
        {
            let ghost h1 = *self;
            let ghost b1 = *bandwidth;
            proof {
                let pre = h0.peers@.take(j as int);
                let x: u32 = if limit_taken(h0.peers@[j as int], time, bandwidth_limit) {
                    h0.peers@[j as int].outgoing_bandwidth
                } else {
                    0
                };
                assert(h0.peers@.take(j + 1).drop_last() =~= pre);
                assert(limit_shares(h0.peers@.take(j + 1), time, bandwidth_limit) == limit_shares(pre, time, bandwidth_limit).wrapping_add(x));
                lemma_wrapping_sub_twice(*old(bandwidth), limit_shares(pre, time, bandwidth_limit), x);
                if x == 0 {
                    assert(b1.wrapping_sub(0u32) == b1);
                }
            }
            let outgoing = self.peers[j].outgoing_bandwidth;
            let fixed = self.peers[j].incoming_bandwidth_throttle_epoch == time || !is_counted(
                self.peers[j].state,
            ) || (outgoing > 0 && outgoing >= bandwidth_limit);
            assert(fixed == !limit_taken(h0.peers@[j as int], time, bandwidth_limit));
            if !fixed {
                {
                    let p = &mut self.peers[j];
                    p.incoming_bandwidth_throttle_epoch = time;
                }
                proof {
                    lemma_peer_step(h1, *self, j as int);
                    lemma_count_where_update(h1.peers@, j as int, self.peers@[j as int], f);
                    assert(self.peers@ == h1.peers@.update(j as int, self.peers@[j as int]));
                    lemma_count_where(h1.peers@, f);
                }
                needs_adjustment = true;
                *remaining = *remaining - 1;
                *bandwidth = bandwidth.wrapping_sub(outgoing);
            }
            j = j + 1;
        }
        proof {
            assert(h0.peers@.take(h0.peers@.len() as int) =~= h0.peers@);
        }
        needs_adjustment
    }

    /// Share the host's incoming bandwidth among its connected peers at time `time`, and
    /// queue for each connected peer a bandwidth limit command with the host's outgoing
    /// bandwidth and the incoming bandwidth the peer may use.
    fn recalculate_limits(&mut self, time: u32)
        requires
            old(self).wf(),
        ensures
            final(self).wf(),
            final(self).peers@.len() == old(self).peers@.len(),
            forall|j: int|
                0 <= j < old(self).peers@.len() ==> {
                    &&& throttle_frame(old(self).peers@[j], #[trigger] final(self).peers@[j])
                    &&& final(self).peers@[j].packet_throttle == old(self).peers@[j].packet_throttle
                    &&& final(self).peers@[j].packet_throttle_limit == old(self).peers@[j].packet_throttle_limit
                    &&& final(self).peers@[j].outgoing_bandwidth_throttle_epoch
                        == old(self).peers@[j].outgoing_bandwidth_throttle_epoch
                },
            *final(self) == (Host {
                peers: final(self).peers,
                total_queued: final(self).total_queued,
                recalculate_bandwidth_limits: false,
                ..*old(self)
            }),
            exists|trace: Seq<(Seq<Peer>, u32, u32, bool, u32)>|
                #[trigger] limit_trace(
                    trace,
                    limit_start(old(self).peers@, old(self).connected_peers, old(self).incoming_bandwidth),
                    time,
                ) && all_limits_told(old(self).peers@, final(self).peers@, time, trace.last().4, old(self).outgoing_bandwidth)
                    && forall|j: int|
                    0 <= j < old(self).peers@.len() ==> #[trigger] final(self).peers@[j].incoming_bandwidth_throttle_epoch
                        == trace.last().0[j].incoming_bandwidth_throttle_epoch,
    {
        self.recalculate_bandwidth_limits = false;
        let ghost h0 = *self;
        proof {
            lemma_count_bounds(self.peers@);
            lemma_count_where_connected(self.peers@, awaiting_limit(time));
        }
        let mut remaining: u32 = self.connected_peers as u32;
        let mut bandwidth = self.incoming_bandwidth;
        let mut needs_adjustment = bandwidth != 0;
        let mut bandwidth_limit: u32 = 0;
        let ghost mut trace: Seq<(Seq<Peer>, u32, u32, bool, u32)> = seq![
            (self.peers@, remaining, bandwidth, needs_adjustment, bandwidth_limit),
        ];
        {
            while remaining > 0 && needs_adjustment
                invariant
                    trace.len() >= 1,
                    trace[0] == limit_start(h0.peers@, h0.connected_peers, h0.incoming_bandwidth),
                    forall|i: int|
                        0 <= i < trace.len() - 1 ==> limit_running(#[trigger] trace[i]) && trace[i + 1] == limit_next(
                            trace[i],
                            time,
                        ),
                    trace.last() == (self.peers@, remaining, bandwidth, needs_adjustment, bandwidth_limit),
                    self.wf(),
                    *self == (Host { peers: self.peers, ..*self }),
                    host_throttle_frame(h0, *self),
                    self.total_queued == h0.total_queued,
                    !self.recalculate_bandwidth_limits,
                    remaining >= count_where(self.peers@, awaiting_limit(time)),
                    forall|k: int|
                        0 <= k < h0.peers@.len() ==> #[trigger] self.peers@[k] == (Peer {
                            incoming_bandwidth_throttle_epoch: self.peers@[k].incoming_bandwidth_throttle_epoch,
                            ..h0.peers@[k]
                        }),
                    forall|k: int|
                        0 <= k < h0.peers@.len() && !counts_as_connected(h0.peers@[k].state) ==> #[trigger] self.peers@[k]
                            == h0.peers@[k],
                decreases count_where(self.peers@, awaiting_limit(time)) + if needs_adjustment {
                    1int
                } else {
                    0int
                },
            {
                bandwidth_limit = bandwidth / remaining;
                let ghost h1 = *self;
                let ghost s1 = trace.last();
                needs_adjustment = self.limit_round(time, bandwidth_limit, &mut remaining, &mut bandwidth);
                proof {
                    let n = limit_next(s1, time);
                    assert(self.peers@ =~= n.0);
                    assert(n == (self.peers@, remaining, bandwidth, needs_adjustment, bandwidth_limit));
                    lemma_limit_trace_push(trace, time);
                    trace = trace.push(n);
                    assert forall|k: int| 0 <= k < h0.peers@.len() implies #[trigger] self.peers@[k] == (Peer {
                        incoming_bandwidth_throttle_epoch: self.peers@[k].incoming_bandwidth_throttle_epoch,
                        ..h0.peers@[k]
                    }) by {
                        assert(self.peers@[k] == (Peer {
                            incoming_bandwidth_throttle_epoch: self.peers@[k].incoming_bandwidth_throttle_epoch,
                            ..h1.peers@[k]
                        }));
                    }
                    assert forall|k: int|
                        0 <= k < h0.peers@.len() && !counts_as_connected(h0.peers@[k].state) implies #[trigger] self.peers@[k]
                            == h0.peers@[k] by {
                        assert(!limit_taken(h1.peers@[k], time, bandwidth_limit));
                    }
                    lemma_count_where(self.peers@, awaiting_limit(time));
                }
            }
        }
        let outgoing_bandwidth = self.outgoing_bandwidth;
        let ghost h2 = *self;
        assert(limit_trace(trace, limit_start(h0.peers@, h0.connected_peers, h0.incoming_bandwidth), time));
        let mut j: usize = 0;
        while j < self.peers.len()
            invariant
                self.wf(),
                j <= self.peers@.len(),
                self.peers@.len() == h0.peers@.len(),
                *self == (Host { peers: self.peers, total_queued: self.total_queued, ..h2 }),
                outgoing_bandwidth == self.outgoing_bandwidth,
                forall|k: int|
                    0 <= k < h0.peers@.len() ==> {
                        &&& throttle_frame(h0.peers@[k], #[trigger] self.peers@[k])
                        &&& self.peers@[k].packet_throttle == h0.peers@[k].packet_throttle
                        &&& self.peers@[k].packet_throttle_limit == h0.peers@[k].packet_throttle_limit
                        &&& self.peers@[k].outgoing_bandwidth_throttle_epoch
                            == h0.peers@[k].outgoing_bandwidth_throttle_epoch
                    },
                h2.peers@.len() == h0.peers@.len(),
                forall|k: int| j <= k < h0.peers@.len() ==> #[trigger] self.peers@[k] == h2.peers@[k],
                forall|k: int|
                    0 <= k < h0.peers@.len() ==> #[trigger] self.peers@[k].incoming_bandwidth_throttle_epoch
                        == h2.peers@[k].incoming_bandwidth_throttle_epoch,
                forall|k: int|
                    0 <= k < h2.peers@.len() ==> #[trigger] h2.peers@[k] == (Peer {
                        incoming_bandwidth_throttle_epoch: h2.peers@[k].incoming_bandwidth_throttle_epoch,
                        ..h0.peers@[k]
                    }),
                forall|k: int|
                    0 <= k < h0.peers@.len() && !counts_as_connected(h0.peers@[k].state) ==> #[trigger] h2.peers@[k]
                        == h0.peers@[k],
                forall|k: int|
                    0 <= k < j ==> limits_told(
                        h0.peers@[k],
                        #[trigger] self.peers@[k],
                        time,
                        bandwidth_limit,
                        outgoing_bandwidth,
                    ),
            decreases self.peers@.len() - j,
        {
            let ghost hs = *self;
            assert(hs.peers@[j as int] == h2.peers@[j as int]);
            assert(hs.peers@[j as int].state == h0.peers@[j as int].state);
            if is_counted(self.peers[j].state) {
                let ghost h3 = *self;
                let incoming = if self.peers[j].incoming_bandwidth_throttle_epoch == time {
                    self.peers[j].outgoing_bandwidth
                } else {
                    bandwidth_limit
                };
                let pc = ProtocolCommand {
                    command: PROTOCOL_COMMAND_BANDWIDTH_LIMIT | PROTOCOL_COMMAND_FLAG_ACKNOWLEDGE,
                    channel_id: 0xff,
                    reliable_sequence_number: 0,
                    body: Command::BandwidthLimit {
                        incoming_bandwidth: incoming,
                        outgoing_bandwidth,
                    },
                };
                assert((10u8 | 128u8) & 15u8 == 10u8) by (bit_vector);
                {
                    let p = &mut self.peers[j];
                    p.queue_control(&mut self.total_queued, pc);
                }
                proof {
                    lemma_peer_step(h3, *self, j as int);
                    assert(h3.peers@[j as int] == h2.peers@[j as int]);
                    assert(control_queued(h3.peers@[j as int], self.peers@[j as int], pc, self.total_queued));
                    assert(self.peers@[j as int].incoming_bandwidth_throttle_epoch == h2.peers@[j as int].incoming_bandwidth_throttle_epoch);
                    assert(pc == bandwidth_limit_command(
                        told_incoming(h0.peers@[j as int], self.peers@[j as int], time, bandwidth_limit),
                        outgoing_bandwidth,
                    ));
                }
            }
            proof {
                assert forall|k: int| 0 <= k < j + 1 implies limits_told(
                    h0.peers@[k],
                    #[trigger] self.peers@[k],
                    time,
                    bandwidth_limit,
                    outgoing_bandwidth,
                ) by {
                    if k < j {
                        assert(self.peers@[k] == hs.peers@[k]);
                    } else if counts_as_connected(h0.peers@[k].state) {
                        assert(k == j);
                        assert(self.peers@[k].incoming_bandwidth_throttle_epoch == h2.peers@[k].incoming_bandwidth_throttle_epoch);
                        assert(h2.peers@[k] == (Peer {
                            incoming_bandwidth_throttle_epoch: self.peers@[k].incoming_bandwidth_throttle_epoch,
                            ..h0.peers@[k]
                        }));
                    } else {
                        assert(self.peers@[k] == hs.peers@[k]);
                    }
                }
            }
            j = j + 1;
        }
        assert(all_limits_told(h0.peers@, self.peers@, time, bandwidth_limit, h0.outgoing_bandwidth));
        assert(h0.peers@ == old(self).peers@ && h0.connected_peers == old(self).connected_peers
            && h0.incoming_bandwidth == old(self).incoming_bandwidth);
    }

    /// Throttle the host's peers at time `time`: nothing happens until a throttle interval
    /// has passed since the last time. Then, when peers are connected, the host's outgoing
    /// bandwidth over the time that passed is shared among them: peers that take in less
    /// than their share get a packet throttle limit in proportion to what they take in,
    /// the others share the rest. Each connected peer not throttled at `time` before ends
    /// with its packet throttle within its limit. The rounds of sharing are those that
    /// [`throttle_trace`] lists, and the peers end as [`throttle_end`] says. When the host's
    /// bandwidth limits changed, each connected peer is then told the bandwidth it may use,
    /// its own or the limit the rounds of [`limit_trace`] end with.
    pub fn bandwidth_throttle(&mut self, time: u32)
        requires
            old(self).wf(),
        ensures
            final(self).wf(),
            time.wrapping_sub(old(self).bandwidth_throttle_epoch) < HOST_BANDWIDTH_THROTTLE_INTERVAL
                ==> *final(self) == *old(self),
            time.wrapping_sub(old(self).bandwidth_throttle_epoch) >= HOST_BANDWIDTH_THROTTLE_INTERVAL
                ==> {
                &&& final(self).bandwidth_throttle_epoch == time
                &&& final(self).peers@.len() == old(self).peers@.len()
                &&& forall|j: int|
                    0 <= j < old(self).peers@.len() ==> throttle_frame(
                        old(self).peers@[j],
                        #[trigger] final(self).peers@[j],
                    )
                &&& *final(self) == (Host {
                    peers: final(self).peers,
                    total_queued: final(self).total_queued,
                    bandwidth_throttle_epoch: time,
                    recalculate_bandwidth_limits: final(self).recalculate_bandwidth_limits,
                    ..*old(self)
                })
                &&& (old(self).connected_peers == 0 ==> *final(self) == (Host {
                    bandwidth_throttle_epoch: time,
                    ..*old(self)
                }))
                &&& (old(self).connected_peers > 0 ==> {
                    &&& !final(self).recalculate_bandwidth_limits
                    &&& forall|j: int|
                        0 <= j < old(self).peers@.len() && counts_as_connected(
                            old(self).peers@[j].state,
                        ) && old(self).peers@[j].outgoing_bandwidth_throttle_epoch != time
                            ==> #[trigger] final(self).peers@[j].packet_throttle
                            <= final(self).peers@[j].packet_throttle_limit
                    &&& exists|trace: Seq<(Seq<Peer>, u32, u32, u32, bool)>|
                        #[trigger] throttle_trace(
                            trace,
                            throttle_start(*old(self), time.wrapping_sub(old(self).bandwidth_throttle_epoch)),
                            time,
                            time.wrapping_sub(old(self).bandwidth_throttle_epoch),
                        ) && peers_throttled(old(self).peers@, throttle_end(trace.last(), time), time) && (
                        !old(self).recalculate_bandwidth_limits ==> final(self).peers@ == throttle_end(
                            trace.last(),
                            time,
                        )) && (old(self).recalculate_bandwidth_limits ==> exists|lt: Seq<(Seq<Peer>, u32, u32, bool, u32)>|
                            #[trigger] limit_trace(
                                lt,
                                limit_start(throttle_end(trace.last(), time), old(self).connected_peers, old(self).incoming_bandwidth),
                                time,
                            ) && all_limits_told(
                                throttle_end(trace.last(), time),
                                final(self).peers@,
                                time,
                                lt.last().4,
                                old(self).outgoing_bandwidth,
                            ) && forall|j: int|
                                0 <= j < old(self).peers@.len() ==> #[trigger] final(self).peers@[j].incoming_bandwidth_throttle_epoch
                                    == lt.last().0[j].incoming_bandwidth_throttle_epoch)
                })
            },
    {
        let elapsed = time.wrapping_sub(self.bandwidth_throttle_epoch);
        if elapsed < HOST_BANDWIDTH_THROTTLE_INTERVAL {
            return;
        }
        self.bandwidth_throttle_epoch = time;
        if self.connected_peers == 0 {
            return;
        }
        let ghost h0 = *self;
        let ghost f = awaiting_throttle(time);
        proof {
            lemma_count_bounds(self.peers@);
            lemma_count_where_connected(self.peers@, f);
        }
        let mut remaining: u32 = self.connected_peers as u32;
        let mut data_total: u32 = 0xffff_ffff;
        let mut bandwidth: u32 = 0xffff_ffff;
        let mut needs_adjustment = self.bandwidth_limited_peers > 0;
        if self.outgoing_bandwidth != 0 {
            data_total = self.connected_data_total();
            bandwidth = self.outgoing_bandwidth.wrapping_mul(elapsed) / 1000;
        }
        let ghost mut trace: Seq<(Seq<Peer>, u32, u32, u32, bool)> = seq![(self.peers@, remaining, bandwidth, data_total, needs_adjustment)];
        assert(trace[0] == throttle_start(h0, elapsed));
        while remaining > 0 && needs_adjustment
            invariant
                trace.len() >= 1,
                trace[0] == throttle_start(h0, elapsed),
                forall|i: int|
                    0 <= i < trace.len() - 1 ==> throttle_running(#[trigger] trace[i]) && trace[i + 1]
                        == throttle_next(trace[i], time, elapsed),
                trace.last() == (self.peers@, remaining, bandwidth, data_total, needs_adjustment),
                self.wf(),
                host_throttle_frame(h0, *self),
                self.total_queued == h0.total_queued,
                f == awaiting_throttle(time),
                remaining >= count_where(self.peers@, f),
                remaining - count_where(self.peers@, f) == h0.connected_peers - count_where(h0.peers@, f),
                forall|k: int|
                    0 <= k < h0.peers@.len() && counts_as_connected(h0.peers@[k].state)
                        && h0.peers@[k].outgoing_bandwidth_throttle_epoch != time
                        && #[trigger] self.peers@[k].outgoing_bandwidth_throttle_epoch == time
                        ==> throttled_within(self.peers@[k], time),
                forall|k: int|
                    0 <= k < h0.peers@.len() && h0.peers@[k].outgoing_bandwidth_throttle_epoch == time
                        ==> #[trigger] self.peers@[k] == h0.peers@[k],
            decreases count_where(self.peers@, f) + if needs_adjustment {
                1int
            } else {
                0int
            },
        {
            let throttle = compute_throttle(bandwidth, data_total);
            let ghost h1 = *self;
            let ghost s1 = trace.last();
            needs_adjustment = self.throttle_round(
                time,
                elapsed,
                throttle,
                &mut remaining,
                &mut bandwidth,
                &mut data_total,
            );
            proof {
                let n = throttle_next(s1, time, elapsed);
                assert(self.peers@ =~= n.0);
                assert(n == (self.peers@, remaining, bandwidth, data_total, needs_adjustment));
                lemma_trace_push(trace, time, elapsed);
                trace = trace.push(n);
                lemma_count_where(self.peers@, f);
                assert forall|k: int|
                    0 <= k < h0.peers@.len() && counts_as_connected(h0.peers@[k].state)
                        && h0.peers@[k].outgoing_bandwidth_throttle_epoch != time
                        && #[trigger] self.peers@[k].outgoing_bandwidth_throttle_epoch == time
                        implies throttled_within(self.peers@[k], time) by {
                    assert(throttle_frame(h0.peers@[k], h1.peers@[k]));
                    if h1.peers@[k].outgoing_bandwidth_throttle_epoch == time {
                        assert(self.peers@[k] == h1.peers@[k]);
                    }
                }
                assert forall|k: int|
                    0 <= k < h0.peers@.len() && h0.peers@[k].outgoing_bandwidth_throttle_epoch == time
                        implies #[trigger] self.peers@[k] == h0.peers@[k] by {
                    assert(h1.peers@[k] == h0.peers@[k]);
                }
            }
        }
        let ghost h4 = *self;
        assert(throttle_trace(trace, throttle_start(h0, elapsed), time, elapsed));
        if remaining > 0 {
            let throttle = compute_throttle(bandwidth, data_total);
            self.apply_throttle(time, throttle);
            assert(self.peers@ =~= throttle_end(trace.last(), time));
        } else {
            proof {
                lemma_count_where(self.peers@, f);
                assert forall|k: int| 0 <= k < self.peers@.len() implies !f(#[trigger] self.peers@[k]) by {}
            }
        }
        proof {
            assert forall|k: int|
                0 <= k < h0.peers@.len() && counts_as_connected(h0.peers@[k].state)
                    && h0.peers@[k].outgoing_bandwidth_throttle_epoch != time
                    implies #[trigger] self.peers@[k].packet_throttle <= self.peers@[k].packet_throttle_limit by {
                assert(throttle_frame(h0.peers@[k], h4.peers@[k]));
                if h4.peers@[k].outgoing_bandwidth_throttle_epoch == time {
                    assert(throttled_within(h4.peers@[k], time));
                    assert(self.peers@[k] == h4.peers@[k]);
                } else {
                    assert(f(h4.peers@[k]));
                }
            }
        }
        let ghost h5 = *self;
        assert(h5.peers@ == throttle_end(trace.last(), time));
        assert(peers_throttled(h0.peers@, h5.peers@, time)) by {
            assert forall|k: int|
                0 <= k < h0.peers@.len() && counts_as_connected(h0.peers@[k].state)
                    && h0.peers@[k].outgoing_bandwidth_throttle_epoch != time implies {
                    &&& (#[trigger] h5.peers@[k]).packet_throttle <= h5.peers@[k].packet_throttle_limit
                    &&& h5.peers@[k].incoming_data_total == 0
                    &&& h5.peers@[k].outgoing_data_total == 0
                } by {
                assert(throttle_frame(h0.peers@[k], h4.peers@[k]));
                if h4.peers@[k].outgoing_bandwidth_throttle_epoch == time {
                    assert(throttled_within(h4.peers@[k], time));
                    assert(h5.peers@[k] == h4.peers@[k]);
                } else {
                    assert(f(h4.peers@[k]));
                }
            }
        }
        if self.recalculate_bandwidth_limits {
            self.recalculate_limits(time);
        }
        proof {
            assert(throttle_start(h0, elapsed) == throttle_start(*old(self), elapsed));
            assert(throttle_trace(trace, throttle_start(*old(self), elapsed), time, elapsed));
        }
    }
}

} // verus!
