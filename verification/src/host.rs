//! Hosts: the peers a host serves, its settings and limits, and the counters it keeps
//! of connected and bandwidth limited peers.
use vstd::prelude::*;
use crate::address::Address;
use crate::consts::{
    HOST_DEFAULT_MAXIMUM_PACKET_SIZE, HOST_DEFAULT_MAXIMUM_WAITING_DATA, HOST_DEFAULT_MTU,
    PROTOCOL_MAXIMUM_CHANNEL_COUNT, PROTOCOL_MAXIMUM_MTU, PROTOCOL_MAXIMUM_PEER_ID,
    PROTOCOL_MINIMUM_CHANNEL_COUNT, PROTOCOL_MINIMUM_MTU,
};
use crate::channel::Channel;
use crate::control::{control_queued, counted, is_control, counters_room, keeps_identity, limited, mtu_in_bounds};
use crate::outgoing::queued_outgoing;
use crate::peer::OutgoingCommand;
use crate::error::NoAvailablePeers;
use crate::peer::{clamp_mtu, clamp_mtu_value, clamp_window, enet_session_id, negotiated_window_size, next_session_id, window_size_for, PeerState};
use crate::protocol::{Command, ConnectFields, ProtocolCommand, PROTOCOL_COMMAND_CONNECT, PROTOCOL_COMMAND_FLAG_ACKNOWLEDGE, PROTOCOL_COMMAND_VERIFY_CONNECT};
use crate::consts::{PEER_WINDOW_SIZE_SCALE, PROTOCOL_MAXIMUM_WINDOW_SIZE, PROTOCOL_MINIMUM_WINDOW_SIZE};
use crate::error::BadParameter;
use crate::compressor::Compressor;
use crate::peer::{Peer, PeerID};

verus! {

/// Settings for a newly created host, passed to [`Host::new`]; `Z` is the type of the
/// compressor it may use.
pub struct HostSettings<Z> {
    /// The maximum number of peers that should be allocated for the host.
    pub peer_limit: usize,
    /// The maximum number of channels allowed. Cannot be 0.
    pub channel_limit: usize,
    /// Downstream bandwidth limit of the host in bytes/second, or `None` for no limit.
    /// Cannot be set to 0 bytes/second.
    pub incoming_bandwidth_limit: Option<u32>,
    /// Upstream bandwidth limit of the host in bytes/second, or `None` for no limit.
    /// Cannot be set to 0 bytes/second.
    pub outgoing_bandwidth_limit: Option<u32>,
    /// Whether datagrams carry a CRC32 checksum (see [`crate::crc32::crc32`]).
    pub checksum: bool,
    /// Seed the host with a specific random seed, or `None` to seed it from the entropy
    /// given to [`Host::new`].
    pub seed: Option<u32>,
    /// The compressor to use when sending and receiving datagrams, or `None` for no
    /// compression.
    pub compressor: Option<Z>,
}

impl<Z> Default for HostSettings<Z> {
    fn default() -> (s: Self)
        ensures
            s.peer_limit == PROTOCOL_MAXIMUM_PEER_ID,
            s.channel_limit == PROTOCOL_MAXIMUM_CHANNEL_COUNT,
            s.incoming_bandwidth_limit is None,
            s.outgoing_bandwidth_limit is None,
            !s.checksum,
            s.seed is None,
            s.compressor is None,
    {
        HostSettings {
            peer_limit: PROTOCOL_MAXIMUM_PEER_ID as usize,
            channel_limit: PROTOCOL_MAXIMUM_CHANNEL_COUNT as usize,
            incoming_bandwidth_limit: None,
            outgoing_bandwidth_limit: None,
            checksum: false,
            seed: None,
            compressor: None,
        }
    }
}

/// How many of `peers` count as connected.
pub open spec fn count_connected(peers: Seq<Peer>) -> int
    decreases peers.len(),
{
    if peers.len() == 0 {
        0
    } else {
        count_connected(peers.drop_last()) + counted(peers.last())
    }
}

/// How many of `peers` count as bandwidth limited.
pub open spec fn count_limited(peers: Seq<Peer>) -> int
    decreases peers.len(),
{
    if peers.len() == 0 {
        0
    } else {
        count_limited(peers.drop_last()) + limited(peers.last())
    }
}

/// Both counts lie between 0 and the number of peers, and each peer's share is part of them.
pub proof fn lemma_count_bounds(peers: Seq<Peer>)
    ensures
        0 <= count_connected(peers) <= peers.len(),
        0 <= count_limited(peers) <= peers.len(),
        forall|i: int|
            0 <= i < peers.len() ==> counted(#[trigger] peers[i]) <= count_connected(peers)
                && limited(peers[i]) <= count_limited(peers),
    decreases peers.len(),
{
    if peers.len() > 0 {
        lemma_count_bounds(peers.drop_last());
        assert forall|i: int| 0 <= i < peers.len() implies counted(#[trigger] peers[i])
            <= count_connected(peers) && limited(peers[i]) <= count_limited(peers) by {
            if i < peers.len() - 1 {
                assert(peers.drop_last()[i] == peers[i]);
            }
        }
    }
}

/// Replacing the peer at `i` changes each count by the difference of the two peers' shares.
pub proof fn lemma_count_update(peers: Seq<Peer>, i: int, p: Peer)
    requires
        0 <= i < peers.len(),
    ensures
        count_connected(peers.update(i, p)) == count_connected(peers) - counted(peers[i])
            + counted(p),
        count_limited(peers.update(i, p)) == count_limited(peers) - limited(peers[i]) + limited(
            p,
        ),
    decreases peers.len(),
{
    let u = peers.update(i, p);
    if i < peers.len() - 1 {
        assert(u.drop_last() =~= peers.drop_last().update(i, p));
        lemma_count_update(peers.drop_last(), i, p);
    } else {
        assert(u.drop_last() =~= peers.drop_last());
    }
}

/// After peer `i` of a well formed host `h0` changed, keeping its identity, with the
/// counters following it, the host `h1` is still well formed.
pub proof fn lemma_peer_step<A: Address, Z: Compressor>(h0: Host<A, Z>, h1: Host<A, Z>, i: int)
    requires
        h0.wf(),
        0 <= i < h0.peers@.len(),
        h1.peers@ == h0.peers@.update(i, h1.peers@[i]),
        keeps_identity(h0.peers@[i], h1.peers@[i]),
        h1.connected_peers == h0.connected_peers + counted(h1.peers@[i]) - counted(h0.peers@[i]),
        h1.bandwidth_limited_peers == h0.bandwidth_limited_peers + limited(h1.peers@[i]) - limited(
            h0.peers@[i],
        ),
        h1.addresses@.len() == h0.addresses@.len(),
        forall|j: int|
            0 <= j < h1.dispatch_queue@.len() ==> #[trigger] h1.dispatch_queue@[j]
                < h1.peers@.len(),
        h1.mtu == h0.mtu,
        h1.maximum_packet_size == h0.maximum_packet_size,
        h1.maximum_waiting_data == h0.maximum_waiting_data,
    ensures
        h1.wf(),
{
    lemma_count_update(h0.peers@, i, h1.peers@[i]);
    assert forall|k: int| 0 <= k < h1.peers@.len() implies (#[trigger] h1.peers@[k]).index
        == PeerID(k as usize) && h1.peers@[k].incoming_peer_id == k as u16
        && h1.peers@[k].channels@.len() <= PROTOCOL_MAXIMUM_CHANNEL_COUNT && mtu_in_bounds(h1.peers@[k].mtu) by {
        if k != i {
            assert(h1.peers@[k] == h0.peers@[k]);
        } else {
            assert(h0.peers@[k].index == PeerID(k as usize));
        }
    }
}

/// A host for communicating with peers, whose addresses are of type `A`.
pub struct Host<A, Z> {
    pub peers: Vec<Peer>,
    pub addresses: Vec<Option<A>>,
    pub incoming_bandwidth: u32,
    pub outgoing_bandwidth: u32,
    pub bandwidth_throttle_epoch: u32,
    pub mtu: u32,
    pub random_seed: u32,
    pub recalculate_bandwidth_limits: bool,
    pub channel_limit: usize,
    pub service_time: u32,
    pub dispatch_queue: Vec<usize>,
    pub total_queued: u32,
    pub checksum: bool,
    pub connected_peers: usize,
    pub bandwidth_limited_peers: usize,
    pub duplicate_peers: usize,
    pub maximum_packet_size: usize,
    pub maximum_waiting_data: usize,
    pub total_sent_data: u32,
    pub total_sent_packets: u32,
    pub total_received_data: u32,
    pub total_received_packets: u32,
    pub compressor: Option<Z>,
    /// The datagrams the host handed to its socket, in order, each with the address it
    /// was sent to.
    pub sent: Ghost<Seq<(A, Seq<u8>)>>,
}

/// The random number the host's generator gives from seed `seed`, and the seed after it.
pub open spec fn random_step(seed: u32) -> (u32, u32) {
    let s = seed.wrapping_add(0x6d2b79f5u32);
    let n1 = (s ^ (s >> 15u32)).wrapping_mul(s | 1u32);
    let n2 = n1 ^ n1.wrapping_add((n1 ^ (n1 >> 7u32)).wrapping_mul(n1 | 61u32));
    (n2 ^ (n2 >> 14u32), s)
}

/// The seed a host takes from `entropy` when it is given none: the two halves swapped.
pub open spec fn seed_from(entropy: u32) -> u32 {
    (entropy << 16u32) | (entropy >> 16u32)
}

/// The parameter of `settings` that [`Host::new`] refuses, the first of them in the order
/// it checks them, or `None` when it refuses none.
pub open spec fn settings_error<Z>(settings: HostSettings<Z>) -> Option<BadParameter> {
    if settings.channel_limit == 0 {
        Some(BadParameter { method: "Host::new", parameter: "settings.channel_limit" })
    } else if settings.incoming_bandwidth_limit == Some(0u32) {
        Some(BadParameter { method: "Host::new", parameter: "settings.incoming_bandwidth_limit" })
    } else if settings.outgoing_bandwidth_limit == Some(0u32) {
        Some(BadParameter { method: "Host::new", parameter: "settings.outgoing_bandwidth_limit" })
    } else {
        None
    }
}

/// Whether `peer_limit` is refused for a host of connection based peers: none, or more
/// peers than peer ids.
pub open spec fn peer_limit_refused(peer_limit: usize) -> bool {
    peer_limit == 0 || peer_limit > PROTOCOL_MAXIMUM_PEER_ID
}

impl<A: Address, Z: Compressor> Host<A, Z> {
    /// The host's invariant: one address slot per peer, each peer knowing its own index, at most the maximum number of channels per peer, the
    /// counters agreeing with the peers, and the dispatch queue naming peers of the host.
    pub open spec fn wf(&self) -> bool {
        &&& self.peers@.len() == self.addresses@.len()
        &&& self.peers@.len() < usize::MAX && self.peers@.len() <= u32::MAX
        &&& forall|i: int|
            0 <= i < self.peers@.len() ==> (#[trigger] self.peers@[i]).index == PeerID(i as usize)
                && self.peers@[i].incoming_peer_id == i as u16
        &&& forall|i: int|
            0 <= i < self.peers@.len() ==> (#[trigger] self.peers@[i]).channels@.len()
                <= PROTOCOL_MAXIMUM_CHANNEL_COUNT
        &&& forall|i: int| 0 <= i < self.peers@.len() ==> mtu_in_bounds((#[trigger] self.peers@[i]).mtu)
        &&& self.connected_peers == count_connected(self.peers@)
        &&& self.bandwidth_limited_peers == count_limited(self.peers@)
        &&& forall|j: int|
            0 <= j < self.dispatch_queue@.len() ==> #[trigger] self.dispatch_queue@[j]
                < self.peers@.len()
        &&& PROTOCOL_MINIMUM_MTU <= self.mtu <= PROTOCOL_MAXIMUM_MTU
        &&& self.maximum_packet_size + self.maximum_waiting_data <= usize::MAX
    }

    /// Create a host with the given settings, seeded from `entropy` unless the settings
    /// give a seed.
    ///
    /// Returns a [`BadParameter`] error if the channel limit is 0, a bandwidth limit is
    /// `Some(0)`, or the peer limit is 0 or more than the number of peer ids. Otherwise the
    /// host has `peer_limit` disconnected peers, the channel limit brought within the
    /// protocol's bounds, the bandwidth limits given (0 for none), the default MTU, and no
    /// connected peers.
    pub fn new(settings: HostSettings<Z>, entropy: u32) -> (r: Result<Host<A, Z>, BadParameter>)
        requires
            settings.peer_limit < usize::MAX,
            settings.peer_limit <= u32::MAX,
        ensures
            settings.channel_limit == 0 ==> r == Err::<Host<A, Z>, BadParameter>(
                BadParameter { method: "Host::new", parameter: "settings.channel_limit" },
            ),
            settings.channel_limit != 0 && settings.incoming_bandwidth_limit == Some(0u32) ==> r
                == Err::<Host<A, Z>, BadParameter>(
                BadParameter { method: "Host::new", parameter: "settings.incoming_bandwidth_limit" },
            ),
            settings.channel_limit != 0 && settings.incoming_bandwidth_limit != Some(0u32)
                && settings.outgoing_bandwidth_limit == Some(0u32) ==> r == Err::<Host<A, Z>, BadParameter>(
                BadParameter { method: "Host::new", parameter: "settings.outgoing_bandwidth_limit" },
            ),
            settings.channel_limit != 0 && settings.incoming_bandwidth_limit != Some(0u32)
                && settings.outgoing_bandwidth_limit != Some(0u32) ==> match r {
                Ok(h) => {
                    &&& h.wf()
                    &&& h.peers@.len() == settings.peer_limit
                    &&& forall|i: int|
                        0 <= i < h.peers@.len() ==> (#[trigger] h.peers@[i]).is_reset(
                            HOST_DEFAULT_MTU,
                        ) && h.peers@[i].outgoing_session_id == 0xff
                            && h.peers@[i].incoming_session_id == 0xff
                    &&& forall|i: int| 0 <= i < h.addresses@.len() ==> #[trigger] h.addresses@[i] is None
                    &&& h.channel_limit == if settings.channel_limit > PROTOCOL_MAXIMUM_CHANNEL_COUNT {
                        PROTOCOL_MAXIMUM_CHANNEL_COUNT as usize
                    } else {
                        settings.channel_limit
                    }
                    &&& h.incoming_bandwidth == match settings.incoming_bandwidth_limit {
                        Some(b) => b,
                        None => 0,
                    }
                    &&& h.outgoing_bandwidth == match settings.outgoing_bandwidth_limit {
                        Some(b) => b,
                        None => 0,
                    }
                    &&& h.random_seed == match settings.seed {
                        Some(s) => s,
                        None => seed_from(entropy),
                    }
                    &&& h.mtu == HOST_DEFAULT_MTU
                    &&& h.checksum == settings.checksum
                    &&& !h.recalculate_bandwidth_limits
                    &&& h.dispatch_queue@.len() == 0
                    &&& h.connected_peers == 0 && h.bandwidth_limited_peers == 0
                    &&& h.duplicate_peers == PROTOCOL_MAXIMUM_PEER_ID
                    &&& h.maximum_packet_size == HOST_DEFAULT_MAXIMUM_PACKET_SIZE
                    &&& h.maximum_waiting_data == HOST_DEFAULT_MAXIMUM_WAITING_DATA
                    &&& h.total_queued == 0 && h.service_time == 0
                    &&& h.bandwidth_throttle_epoch == 0
                    &&& h.sent@.len() == 0
                },
                Err(_) => false,
            },
    {
        if settings.channel_limit == 0 {
            return Err(BadParameter { method: "Host::new", parameter: "settings.channel_limit" });
        }
        if settings.incoming_bandwidth_limit == Some(0u32) {
            return Err(
                BadParameter { method: "Host::new", parameter: "settings.incoming_bandwidth_limit" },
            );
        }
        if settings.outgoing_bandwidth_limit == Some(0u32) {
            return Err(
                BadParameter { method: "Host::new", parameter: "settings.outgoing_bandwidth_limit" },
            );
        }
        let mut peers: Vec<Peer> = Vec::new();
        let mut addresses: Vec<Option<A>> = Vec::new();
        let mut i: usize = 0;
        while i < settings.peer_limit
            invariant
                i <= settings.peer_limit,
                peers@.len() == i,
                addresses@.len() == i,
                forall|k: int|
                    0 <= k < i ==> (#[trigger] peers@[k]).is_reset(HOST_DEFAULT_MTU)
                        && peers@[k].index == PeerID(k as usize) && peers@[k].incoming_peer_id
                        == k as u16 && peers@[k].outgoing_session_id == 0xff
                        && peers@[k].incoming_session_id == 0xff,
                forall|k: int| 0 <= k < i ==> #[trigger] addresses@[k] is None,
                count_connected(peers@) == 0,
                count_limited(peers@) == 0,
            decreases settings.peer_limit - i,
        {
            let p = Peer::new(PeerID(i), #[verifier::truncate] (i as u16), HOST_DEFAULT_MTU);
            let ghost before = peers@;
            peers.push(p);
            assert(peers@.drop_last() =~= before);
            addresses.push(None);
            i = i + 1;
        }
        let channel_limit = if settings.channel_limit > PROTOCOL_MAXIMUM_CHANNEL_COUNT as usize {
            PROTOCOL_MAXIMUM_CHANNEL_COUNT as usize
        } else {
            settings.channel_limit
        };
        let random_seed = match settings.seed {
            Some(s) => s,
            None => (entropy << 16u32) | (entropy >> 16u32),
        };
        Ok(Host {
            peers,
            addresses,
            incoming_bandwidth: match settings.incoming_bandwidth_limit {
                Some(b) => b,
                None => 0,
            },
            outgoing_bandwidth: match settings.outgoing_bandwidth_limit {
                Some(b) => b,
                None => 0,
            },
            bandwidth_throttle_epoch: 0,
            mtu: HOST_DEFAULT_MTU,
            random_seed,
            recalculate_bandwidth_limits: false,
            channel_limit,
            service_time: 0,
            dispatch_queue: Vec::new(),
            total_queued: 0,
            checksum: settings.checksum,
            connected_peers: 0,
            bandwidth_limited_peers: 0,
            duplicate_peers: PROTOCOL_MAXIMUM_PEER_ID as usize,
            maximum_packet_size: HOST_DEFAULT_MAXIMUM_PACKET_SIZE as usize,
            maximum_waiting_data: HOST_DEFAULT_MAXIMUM_WAITING_DATA as usize,
            total_sent_data: 0,
            total_sent_packets: 0,
            total_received_data: 0,
            total_received_packets: 0,
            compressor: settings.compressor,
            sent: Ghost(Seq::empty()),
        })
    }

    /// The next random number of the host's generator (see [`random_step`]).
    pub fn random(&mut self) -> (n: u32)
        ensures
            n == random_step(old(self).random_seed).0,
            *final(self) == (Host { random_seed: random_step(old(self).random_seed).1, ..*old(self) }),
    {
        self.random_seed = self.random_seed.wrapping_add(0x6d2b79f5u32);
        let s = self.random_seed;
        let n1 = (s ^ (s >> 15u32)).wrapping_mul(s | 1u32);
        let n2 = n1 ^ n1.wrapping_add((n1 ^ (n1 >> 7u32)).wrapping_mul(n1 | 61u32));
        n2 ^ (n2 >> 14u32)
    }

    /// The maximum number of peers that can connect to this host.
    pub fn peer_limit(&self) -> (n: usize)
        ensures
            n == self.peers@.len(),
    {
        self.peers.len()
    }

    /// The peer at `id`, if the host has one there.
    pub fn get_peer(&self, id: PeerID) -> (p: Option<&Peer>)
        ensures
            id.0 < self.peers@.len() ==> p == Some(&self.peers@[id.0 as int]),
            id.0 >= self.peers@.len() ==> p is None,
    {
        if id.0 < self.peers.len() {
            Some(&self.peers[id.0])
        } else {
            None
        }
    }

    /// The maximum number of channels for future incoming connections.
    pub fn channel_limit(&self) -> (n: usize)
        ensures
            n == self.channel_limit,
    {
        self.channel_limit
    }

    /// Limit the channels of future incoming connections, to at most the protocol's
    /// maximum. Returns a [`BadParameter`] error, changing nothing, when `channel_limit`
    /// is 0.
    pub fn set_channel_limit(&mut self, channel_limit: usize) -> (r: Result<(), BadParameter>)
        ensures
            channel_limit == 0 ==> r == Err::<(), BadParameter>(
                BadParameter { method: "Host::set_channel_limit", parameter: "channel_limit" },
            ) && *final(self) == *old(self),
            channel_limit != 0 ==> r is Ok && *final(self) == (Host {
                channel_limit: if channel_limit > PROTOCOL_MAXIMUM_CHANNEL_COUNT {
                    PROTOCOL_MAXIMUM_CHANNEL_COUNT as usize
                } else {
                    channel_limit
                },
                ..*old(self)
            }),
    {
        if channel_limit == 0 {
            return Err(BadParameter { method: "Host::set_channel_limit", parameter: "channel_limit" });
        }
        self.channel_limit = if channel_limit > PROTOCOL_MAXIMUM_CHANNEL_COUNT as usize {
            PROTOCOL_MAXIMUM_CHANNEL_COUNT as usize
        } else {
            channel_limit
        };
        Ok(())
    }

    /// The host's bandwidth limits, incoming and outgoing, in bytes/second, or `None` for
    /// no limit.
    pub fn bandwidth_limit(&self) -> (r: (Option<u32>, Option<u32>))
        ensures
            r.0 == (if self.incoming_bandwidth == 0 {
                None
            } else {
                Some(self.incoming_bandwidth)
            }),
            r.1 == (if self.outgoing_bandwidth == 0 {
                None
            } else {
                Some(self.outgoing_bandwidth)
            }),
    {
        (
            if self.incoming_bandwidth == 0 {
                None
            } else {
                Some(self.incoming_bandwidth)
            },
            if self.outgoing_bandwidth == 0 {
                None
            } else {
                Some(self.outgoing_bandwidth)
            },
        )
    }

    /// Set the bandwidth limits of the host, in bytes/second, or `None` for no limit, and
    /// have the limits of the peers recalculated. Returns a [`BadParameter`] error, changing
    /// nothing, when a limit is `Some(0)`.
    pub fn set_bandwidth_limit(
        &mut self,
        incoming_bandwidth_limit: Option<u32>,
        outgoing_bandwidth_limit: Option<u32>,
    ) -> (r: Result<(), BadParameter>)
        ensures
            incoming_bandwidth_limit == Some(0u32) ==> r == Err::<(), BadParameter>(
                BadParameter {
                    method: "Host::set_bandwidth_limit",
                    parameter: "incoming_bandwidth_limit",
                },
            ) && *final(self) == *old(self),
            incoming_bandwidth_limit != Some(0u32) && outgoing_bandwidth_limit == Some(0u32) ==> r
                == Err::<(), BadParameter>(
                BadParameter {
                    method: "Host::set_bandwidth_limit",
                    parameter: "outgoing_bandwidth_limit",
                },
            ) && *final(self) == *old(self),
            incoming_bandwidth_limit != Some(0u32) && outgoing_bandwidth_limit != Some(0u32) ==> r
                is Ok && *final(self) == (Host {
                incoming_bandwidth: match incoming_bandwidth_limit {
                    Some(b) => b,
                    None => 0,
                },
                outgoing_bandwidth: match outgoing_bandwidth_limit {
                    Some(b) => b,
                    None => 0,
                },
                recalculate_bandwidth_limits: true,
                ..*old(self)
            }),
    {
        if incoming_bandwidth_limit == Some(0u32) {
            return Err(
                BadParameter {
                    method: "Host::set_bandwidth_limit",
                    parameter: "incoming_bandwidth_limit",
                },
            );
        }
        if outgoing_bandwidth_limit == Some(0u32) {
            return Err(
                BadParameter {
                    method: "Host::set_bandwidth_limit",
                    parameter: "outgoing_bandwidth_limit",
                },
            );
        }
        self.incoming_bandwidth = match incoming_bandwidth_limit {
            Some(b) => b,
            None => 0,
        };
        self.outgoing_bandwidth = match outgoing_bandwidth_limit {
            Some(b) => b,
            None => 0,
        };
        self.recalculate_bandwidth_limits = true;
        Ok(())
    }

    /// The MTU of the host.
    pub fn mtu(&self) -> (m: u16)
        requires
            self.wf(),
        ensures
            m == self.mtu,
    {
        self.mtu as u16
    }

    /// Set the MTU of the host, for future connections. Returns a [`BadParameter`] error,
    /// changing nothing, when `mtu` lies outside the protocol's bounds.
    pub fn set_mtu(&mut self, mtu: u16) -> (r: Result<(), BadParameter>)
        ensures
            (mtu < PROTOCOL_MINIMUM_MTU || mtu > PROTOCOL_MAXIMUM_MTU) ==> r == Err::<(), BadParameter>(
                BadParameter { method: "Host::set_mtu", parameter: "mtu" },
            ) && *final(self) == *old(self),
            PROTOCOL_MINIMUM_MTU <= mtu <= PROTOCOL_MAXIMUM_MTU ==> r is Ok && *final(self) == (Host {
                mtu: mtu as u32,
                ..*old(self)
            }),
    {
        if (mtu as usize) < PROTOCOL_MINIMUM_MTU || (mtu as usize) > PROTOCOL_MAXIMUM_MTU {
            return Err(BadParameter { method: "Host::set_mtu", parameter: "mtu" });
        }
        self.mtu = mtu as u32;
        Ok(())
    }
}

/// Whether a channel is in its initial state: all sequence numbers zero, no reliable
/// window in use, and no waiting commands.
pub open spec fn is_fresh_channel(c: Channel) -> bool {
    &&& c.outgoing_reliable_sequence_number == 0
    &&& c.outgoing_unreliable_sequence_number == 0
    &&& c.used_reliable_windows == 0
    &&& forall|i: int| 0 <= i < 16 ==> c.reliable_windows[i] == 0
    &&& c.incoming_reliable_sequence_number == 0
    &&& c.incoming_unreliable_sequence_number == 0
    &&& c.incoming_reliable_commands@.len() == 0
    &&& c.incoming_unreliable_commands@.len() == 0
}

/// `n` channels in their initial state.
pub fn fresh_channels(n: usize) -> (v: Vec<Channel>)
    ensures
        v@.len() == n,
        forall|i: int| 0 <= i < n ==> is_fresh_channel(#[trigger] v@[i]),
{
    let mut v: Vec<Channel> = Vec::new();
    while v.len() < n
        invariant
            v@.len() <= n,
            forall|i: int| 0 <= i < v@.len() ==> is_fresh_channel(#[trigger] v@[i]),
        decreases n - v@.len(),
    {
        v.push(Channel::new());
    }
    v
}

/// The index of the first disconnected peer of `peers` from index `i` on.
pub open spec fn first_disconnected(peers: Seq<Peer>, i: int) -> Option<int>
    decreases peers.len() - i,
{
    if i < 0 || i >= peers.len() {
        None
    } else if peers[i].state == PeerState::Disconnected {
        Some(i)
    } else {
        first_disconnected(peers, i + 1)
    }
}

proof fn lemma_first_disconnected(peers: Seq<Peer>, i: int)
    requires
        0 <= i,
    ensures
        first_disconnected(peers, i) matches Some(k) ==> i <= k < peers.len()
            && peers[k].state == PeerState::Disconnected,
    decreases peers.len() - i,
{
    if i < peers.len() {
        lemma_first_disconnected(peers, i + 1);
    }
}

/// A channel count brought within the protocol's bounds.
pub open spec fn clamp_channel_count(n: usize) -> usize {
    if n < PROTOCOL_MINIMUM_CHANNEL_COUNT {
        PROTOCOL_MINIMUM_CHANNEL_COUNT as usize
    } else if n > PROTOCOL_MAXIMUM_CHANNEL_COUNT {
        PROTOCOL_MAXIMUM_CHANNEL_COUNT as usize
    } else {
        n
    }
}

/// The window size a host with outgoing bandwidth `outgoing` offers when it connects:
/// the largest for no limit, else in proportion to the limit, within the protocol's bounds.
pub open spec fn bandwidth_window(outgoing: u32) -> u32 {
    clamp_window(
        if outgoing == 0 {
            PROTOCOL_MAXIMUM_WINDOW_SIZE as int
        } else {
            outgoing / PEER_WINDOW_SIZE_SCALE * PROTOCOL_MINIMUM_WINDOW_SIZE
        },
    ) as u32
}

/// The connect command that peer `p` sends, for a host with bandwidths `incoming` and
/// `outgoing`, asking for `channel_count` channels, with `data` for the remote host.
pub open spec fn connect_command(
    p: Peer,
    incoming: u32,
    outgoing: u32,
    channel_count: usize,
    data: u32,
) -> ProtocolCommand {
    ProtocolCommand {
        command: PROTOCOL_COMMAND_CONNECT | PROTOCOL_COMMAND_FLAG_ACKNOWLEDGE,
        channel_id: 0xff,
        reliable_sequence_number: 0,
        body: Command::Connect {
            fields: ConnectFields {
                outgoing_peer_id: p.incoming_peer_id,
                incoming_session_id: p.incoming_session_id,
                outgoing_session_id: p.outgoing_session_id,
                mtu: p.mtu,
                window_size: p.window_size,
                channel_count: channel_count as u32,
                incoming_bandwidth: incoming,
                outgoing_bandwidth: outgoing,
                packet_throttle_interval: p.packet_throttle_interval,
                packet_throttle_acceleration: p.packet_throttle_acceleration,
                packet_throttle_deceleration: p.packet_throttle_deceleration,
                connect_id: p.connect_id,
            },
            data,
        },
    }
}

/// Whether `p1` is `p0` set up to connect: `channel_count` fresh channels, connecting,
/// with the given connect id, MTU and window size.
pub open spec fn peer_connecting(
    p0: Peer,
    p1: Peer,
    channel_count: usize,
    connect_id: u32,
    mtu: u32,
    window_size: u32,
) -> bool {
    &&& p1.channels@.len() == channel_count
    &&& forall|i: int| 0 <= i < channel_count ==> is_fresh_channel(#[trigger] p1.channels@[i])
    &&& p1 == (Peer {
        channels: p1.channels,
        state: PeerState::Connecting,
        connect_id,
        mtu,
        window_size,
        ..p0
    })
}

impl<A: Address, Z: Compressor> Host<A, Z> {
    /// Initiate a connection to the remote host at `address`, asking for `channel_count`
    /// channels (brought within the protocol's bounds) and passing it `data`.
    ///
    /// The first disconnected peer is set up to connect (see [`peer_connecting`]), with a
    /// random connect id, the host's MTU and the window size its outgoing bandwidth offers
    /// (see [`bandwidth_window`]), and the connect command is queued for it. Returns the
    /// peer's id, or [`NoAvailablePeers`], changing nothing, when every peer is in use.
    pub fn connect(&mut self, address: A, channel_count: usize, data: u32) -> (r: Result<
        PeerID,
        NoAvailablePeers,
    >)
        requires
            old(self).wf(),
        ensures
            final(self).wf(),
            match first_disconnected(old(self).peers@, 0) {
                None => r == Err::<PeerID, NoAvailablePeers>(NoAvailablePeers) && *final(self)
                    == *old(self),
                Some(i) => {
                    let cc = clamp_channel_count(channel_count);
                    &&& r == Ok::<PeerID, NoAvailablePeers>(PeerID(i as usize))
                    &&& final(self).total_queued == old(self).total_queued.wrapping_add(1)
                    &&& exists|q: Peer|
                        peer_connecting(
                            old(self).peers@[i],
                            q,
                            cc,
                            random_step(old(self).random_seed).0,
                            old(self).mtu,
                            bandwidth_window(old(self).outgoing_bandwidth),
                        ) && #[trigger] control_queued(
                            q,
                            final(self).peers@[i],
                            connect_command(
                                q,
                                old(self).incoming_bandwidth,
                                old(self).outgoing_bandwidth,
                                cc,
                                data,
                            ),
                            final(self).total_queued,
                        )
                    &&& final(self).peers@ == old(self).peers@.update(i, final(self).peers@[i])
                    &&& final(self).addresses@ == old(self).addresses@.update(i, Some(address))
                    &&& *final(self) == (Host {
                        peers: final(self).peers,
                        addresses: final(self).addresses,
                        random_seed: random_step(old(self).random_seed).1,
                        total_queued: final(self).total_queued,
                        ..*old(self)
                    })
                },
            },
    {
        proof {
            lemma_first_disconnected(self.peers@, 0);
        }
        let cc: usize = if channel_count < PROTOCOL_MINIMUM_CHANNEL_COUNT as usize {
            PROTOCOL_MINIMUM_CHANNEL_COUNT as usize
        } else if channel_count > PROTOCOL_MAXIMUM_CHANNEL_COUNT as usize {
            PROTOCOL_MAXIMUM_CHANNEL_COUNT as usize
        } else {
            channel_count
        };
        let mut i: usize = 0;
        while i < self.peers.len()
            invariant
                i <= self.peers@.len(),
                first_disconnected(self.peers@, i as int) == first_disconnected(self.peers@, 0),
            ensures
                i <= self.peers@.len(),
                first_disconnected(self.peers@, 0) == if i < self.peers@.len() {
                    Some(i as int)
                } else {
                    None
                },
            decreases self.peers@.len() - i,
        {
            if self.peers[i].state == PeerState::Disconnected {
                break;
            }
            i = i + 1;
        }
        if i >= self.peers.len() {
            return Err(NoAvailablePeers);
        }
        let ghost h0 = *self;
        let connect_id = self.random();
        let window_size: u32 = if self.outgoing_bandwidth == 0 {
            PROTOCOL_MAXIMUM_WINDOW_SIZE
        } else {
            let w = self.outgoing_bandwidth / PEER_WINDOW_SIZE_SCALE * PROTOCOL_MINIMUM_WINDOW_SIZE;
            if w < PROTOCOL_MINIMUM_WINDOW_SIZE {
                PROTOCOL_MINIMUM_WINDOW_SIZE
            } else if w > PROTOCOL_MAXIMUM_WINDOW_SIZE {
                PROTOCOL_MAXIMUM_WINDOW_SIZE
            } else {
                w
            }
        };
        let mtu = self.mtu;
        let incoming = self.incoming_bandwidth;
        let outgoing = self.outgoing_bandwidth;
        let peer = &mut self.peers[i];
        peer.channels = fresh_channels(cc);
        peer.state = PeerState::Connecting;
        peer.connect_id = connect_id;
        peer.mtu = mtu;
        peer.window_size = window_size;
        let ghost q = *peer;
        let pc = ProtocolCommand {
            command: PROTOCOL_COMMAND_CONNECT | PROTOCOL_COMMAND_FLAG_ACKNOWLEDGE,
            channel_id: 0xff,
            reliable_sequence_number: 0,
            body: Command::Connect {
                fields: ConnectFields {
                    outgoing_peer_id: peer.incoming_peer_id,
                    incoming_session_id: peer.incoming_session_id,
                    outgoing_session_id: peer.outgoing_session_id,
                    mtu: peer.mtu,
                    window_size: peer.window_size,
                    channel_count: cc as u32,
                    incoming_bandwidth: incoming,
                    outgoing_bandwidth: outgoing,
                    packet_throttle_interval: peer.packet_throttle_interval,
                    packet_throttle_acceleration: peer.packet_throttle_acceleration,
                    packet_throttle_deceleration: peer.packet_throttle_deceleration,
                    connect_id: peer.connect_id,
                },
                data,
            },
        };
        assert((2u8 | 128u8) & 15u8 == 2u8) by (bit_vector);
        peer.queue_control(&mut self.total_queued, pc);
        self.addresses.set(i, Some(address));
        proof {
            lemma_count_update(h0.peers@, i as int, self.peers@[i as int]);
            assert(self.peers@ =~= h0.peers@.update(i as int, self.peers@[i as int]));
            assert(q.channels@.len() == cc);
            assert(peer_connecting(h0.peers@[i as int], q, cc, random_step(h0.random_seed).0, h0.mtu, bandwidth_window(h0.outgoing_bandwidth)));
            assert(control_queued(q, self.peers@[i as int], connect_command(q, h0.incoming_bandwidth, h0.outgoing_bandwidth, cc, data), self.total_queued));
            let c = choose|c: crate::peer::OutgoingCommand| crate::control::is_control(c, pc) && crate::outgoing::queued_outgoing(q, self.peers@[i as int], c, self.total_queued);
            assert(crate::outgoing::queued_outgoing(q, self.peers@[i as int], c, self.total_queued));
            assert forall|k: int| 0 <= k < self.peers@.len() implies (#[trigger] self.peers@[k]).index == PeerID(k as usize)
                && self.peers@[k].incoming_peer_id == k as u16 && self.peers@[k].channels@.len() <= PROTOCOL_MAXIMUM_CHANNEL_COUNT by {
                if k != i {
                    assert(self.peers@[k] == h0.peers@[k]);
                }
            }
            assert(self.addresses@ == h0.addresses@.update(i as int, Some(address)));
            assert(*self == (Host {
                        peers: self.peers,
                        addresses: self.addresses,
                        random_seed: random_step(h0.random_seed).1,
                        total_queued: self.total_queued,
                        ..h0
                    }));
            let ii = i as int;
            assert(first_disconnected(h0.peers@, 0) == Some(ii));
            assert(exists|q: Peer|
                        peer_connecting(
                            h0.peers@[ii],
                            q,
                            clamp_channel_count(channel_count),
                            random_step(h0.random_seed).0,
                            h0.mtu,
                            bandwidth_window(h0.outgoing_bandwidth),
                        ) && #[trigger] control_queued(
                            q,
                            self.peers@[ii],
                            connect_command(
                                q,
                                h0.incoming_bandwidth,
                                h0.outgoing_bandwidth,
                                clamp_channel_count(channel_count),
                                data,
                            ),
                            self.total_queued,
                        ));
        }
        Ok(PeerID(i))
    }
}

/// The scan of the peers from index `i` on for a connection from `received` with connect
/// id `connect_id`: the first disconnected peer, the number of peers (neither disconnected
/// nor connecting) already connected from the same host, and whether one of those is this
/// very connection.
pub open spec fn connect_scan<A: Address>(
    peers: Seq<Peer>,
    addresses: Seq<Option<A>>,
    received: A,
    connect_id: u32,
    i: int,
) -> (Option<int>, int, bool)
    decreases peers.len() - i,
{
    if i < 0 || i >= peers.len() {
        (None, 0, false)
    } else {
        let rest = connect_scan(peers, addresses, received, connect_id, i + 1);
        if peers[i].state == PeerState::Disconnected {
            (Some(i), rest.1, rest.2)
        } else if peers[i].state != PeerState::Connecting && addresses[i] is Some
            && addresses[i]->0.spec_same_host(&received) {
            (
                rest.0,
                rest.1 + 1,
                rest.2 || (addresses[i]->0.spec_same(&received) && peers[i].connect_id
                    == connect_id),
            )
        } else {
            rest
        }
    }
}

proof fn lemma_connect_scan<A: Address>(
    peers: Seq<Peer>,
    addresses: Seq<Option<A>>,
    received: A,
    connect_id: u32,
    i: int,
)
    requires
        0 <= i,
    ensures
        connect_scan(peers, addresses, received, connect_id, i).0 matches Some(k) ==> i <= k
            < peers.len() && peers[k].state == PeerState::Disconnected,
        0 <= connect_scan(peers, addresses, received, connect_id, i).1 <= peers.len() - i
            || i > peers.len(),
    decreases peers.len() - i,
{
    if i < peers.len() {
        lemma_connect_scan(peers, addresses, received, connect_id, i + 1);
    }
}

/// The window size a host with incoming bandwidth `incoming` takes from a peer that offers
/// `offered`: no more than its bandwidth allows, nor than the peer offers, within the
/// protocol's bounds.
pub open spec fn accepted_window(incoming: u32, offered: u32) -> u32 {
    let w: int = if incoming == 0 {
        PROTOCOL_MAXIMUM_WINDOW_SIZE as int
    } else {
        incoming / PEER_WINDOW_SIZE_SCALE * PROTOCOL_MINIMUM_WINDOW_SIZE
    };
    clamp_window(if w > offered {
        offered as int
    } else {
        w
    }) as u32
}

/// Whether `p1` is `p0` set up for the incoming connection with fields `f` and `data`, on a
/// host with MTU `mtu`, outgoing bandwidth `outgoing`, and `channel_count` channels.
pub open spec fn connection_accepted(
    p0: Peer,
    p1: Peer,
    f: ConnectFields,
    data: u32,
    mtu: u32,
    outgoing: u32,
    channel_count: usize,
) -> bool {
    let peer_mtu = clamp_mtu(f.mtu);
    &&& p1.channels@.len() == channel_count
    &&& forall|i: int| 0 <= i < channel_count ==> is_fresh_channel(#[trigger] p1.channels@[i])
    &&& p1 == (Peer {
        channels: p1.channels,
        state: PeerState::AcknowledgingConnect,
        connect_id: f.connect_id,
        mtu: if peer_mtu < mtu {
            peer_mtu
        } else {
            mtu
        },
        outgoing_peer_id: f.outgoing_peer_id,
        incoming_bandwidth: f.incoming_bandwidth,
        outgoing_bandwidth: f.outgoing_bandwidth,
        packet_throttle_interval: f.packet_throttle_interval,
        packet_throttle_acceleration: f.packet_throttle_acceleration,
        packet_throttle_deceleration: f.packet_throttle_deceleration,
        event_data: data,
        outgoing_session_id: next_session_id(
            f.incoming_session_id,
            p0.outgoing_session_id,
            p0.outgoing_session_id,
        ),
        incoming_session_id: next_session_id(
            f.outgoing_session_id,
            p0.incoming_session_id,
            p0.incoming_session_id,
        ),
        window_size: negotiated_window_size(outgoing, f.incoming_bandwidth),
        ..p0
    })
}

/// The command that verifies an incoming connection to peer `p`, on a host with bandwidths
/// `incoming` and `outgoing`, with `window_size` and `channel_count`.
pub open spec fn verify_command(
    p: Peer,
    incoming: u32,
    outgoing: u32,
    window_size: u32,
    channel_count: usize,
) -> ProtocolCommand {
    ProtocolCommand {
        command: PROTOCOL_COMMAND_VERIFY_CONNECT | PROTOCOL_COMMAND_FLAG_ACKNOWLEDGE,
        channel_id: 0xff,
        reliable_sequence_number: 0,
        body: Command::VerifyConnect {
            fields: ConnectFields {
                outgoing_peer_id: p.incoming_peer_id,
                incoming_session_id: p.outgoing_session_id,
                outgoing_session_id: p.incoming_session_id,
                mtu: p.mtu,
                window_size,
                channel_count: channel_count as u32,
                incoming_bandwidth: incoming,
                outgoing_bandwidth: outgoing,
                packet_throttle_interval: p.packet_throttle_interval,
                packet_throttle_acceleration: p.packet_throttle_acceleration,
                packet_throttle_deceleration: p.packet_throttle_deceleration,
                connect_id: p.connect_id,
            },
        },
    }
}

/// Whether a connection from `received` with fields `f` is refused by host `h`.
pub open spec fn connect_refused<A: Address, Z: Compressor>(h: Host<A, Z>, received: A, f: ConnectFields) -> bool {
    let scan = connect_scan(h.peers@, h.addresses@, received, f.connect_id, 0);
    f.channel_count < PROTOCOL_MINIMUM_CHANNEL_COUNT || f.channel_count
        > PROTOCOL_MAXIMUM_CHANNEL_COUNT || scan.2 || scan.0 is None || scan.1 >= h.duplicate_peers
}

/// The peer that takes a connection from `received` with fields `f` on host `h`.
pub open spec fn connect_target<A: Address, Z: Compressor>(h: Host<A, Z>, received: A, f: ConnectFields) -> int {
    connect_scan(h.peers@, h.addresses@, received, f.connect_id, 0).0->0
}

/// The number of channels a connection asking for those of `f` gets on host `h`.
pub open spec fn connect_channels<A: Address, Z: Compressor>(h: Host<A, Z>, f: ConnectFields) -> usize {
    if f.channel_count > h.channel_limit {
        h.channel_limit
    } else {
        f.channel_count as usize
    }
}

/// Whether `h1` and `r` are what handling a connect command with fields `f` and `data`
/// from `received` on host `h0` gives (see [`Host::handle_connect`]).
pub open spec fn connect_handled<A: Address, Z: Compressor>(
    h0: Host<A, Z>,
    h1: Host<A, Z>,
    received: A,
    f: ConnectFields,
    data: u32,
    r: Option<PeerID>,
) -> bool {
    if connect_refused(h0, received, f) {
        r is None && h1 == h0
    } else {
        &&& r == Some(PeerID(connect_target(h0, received, f) as usize))
        &&& h1.total_queued == h0.total_queued.wrapping_add(1)
        &&& exists|q: Peer|
            #[trigger] connection_accepted(
                h0.peers@[connect_target(h0, received, f)],
                q,
                f,
                data,
                h0.mtu,
                h0.outgoing_bandwidth,
                connect_channels(h0, f),
            ) && control_queued(
                q,
                h1.peers@[connect_target(h0, received, f)],
                verify_command(
                    q,
                    h0.incoming_bandwidth,
                    h0.outgoing_bandwidth,
                    accepted_window(h0.incoming_bandwidth, f.window_size),
                    connect_channels(h0, f),
                ),
                h1.total_queued,
            )
        &&& h1.peers@ == h0.peers@.update(
            connect_target(h0, received, f),
            h1.peers@[connect_target(h0, received, f)],
        )
        &&& h1.addresses@ == h0.addresses@.update(connect_target(h0, received, f), Some(received))
        &&& h1 == (Host {
            peers: h1.peers,
            addresses: h1.addresses,
            total_queued: h1.total_queued,
            ..h0
        })
    }
}

impl<A: Address, Z: Compressor> Host<A, Z> {
    /// Handle a connect command received from `received`. The connection is refused
    /// (`None`, nothing changes) when its channel count lies outside the protocol's bounds,
    /// when it is already connected, when no peer is free, or when too many peers are
    /// connected from the same host (see [`connect_scan`]). Otherwise the first free peer
    /// takes the connection (see [`connection_accepted`]) with no more channels than the
    /// host's limit, keeps `received` as its address, and queues the command verifying the
    /// connection; its id is returned.
    pub fn handle_connect(&mut self, received: A, command: &ProtocolCommand) -> (r: Option<PeerID>)
        requires
            old(self).wf(),
            command.body is Connect,
        ensures
            final(self).service_time == old(self).service_time,
            final(self).bandwidth_throttle_epoch == old(self).bandwidth_throttle_epoch,
            final(self).total_received_packets == old(self).total_received_packets,
            final(self).total_received_data == old(self).total_received_data,
            final(self).sent == old(self).sent,
            final(self).maximum_packet_size == old(self).maximum_packet_size,
            final(self).checksum == old(self).checksum,
            final(self).wf(),
            final(self).peers@.len() == old(self).peers@.len(),
            r matches Some(id) ==> id.0 < final(self).peers@.len(),
            connect_handled(*old(self), *final(self), received, command.body->Connect_fields, command.body->Connect_data, r),
    {
        let (f, data) = match &command.body {
            Command::Connect { fields, data } => (*fields, *data),
            _ => {
                return None;
            },
        };
        if f.channel_count < PROTOCOL_MINIMUM_CHANNEL_COUNT || f.channel_count
            > PROTOCOL_MAXIMUM_CHANNEL_COUNT {
            return None;
        }
        let ghost h0 = *self;
        proof {
            lemma_connect_scan(self.peers@, self.addresses@, received, f.connect_id, 0);
        }
        let n = self.peers.len();
        let mut i: usize = n;
        let mut free: Option<usize> = None;
        let mut duplicates: usize = 0;
        let mut repeated = false;
        while i > 0
            invariant
                i <= n,
                n == self.peers@.len(),
                n == self.addresses@.len(),
                *self == h0,
                ({
                    let sc = connect_scan(h0.peers@, h0.addresses@, received, f.connect_id, i as int);
                    &&& sc.0 == match free {
                        Some(k) => Some(k as int),
                        None => None,
                    }
                    &&& sc.1 == duplicates as int
                    &&& sc.2 == repeated
                }),
            decreases i,
        {
            proof {
                lemma_connect_scan(h0.peers@, h0.addresses@, received, f.connect_id, i as int);
            }
            i = i - 1;
            let state = self.peers[i].state;
            if state == PeerState::Disconnected {
                free = Some(i);
            } else if state != PeerState::Connecting {
                match &self.addresses[i] {
                    Some(a) => {
                        if a.same_host(&received) {
                            if a.same(&received) && self.peers[i].connect_id == f.connect_id {
                                repeated = true;
                            }
                            duplicates = duplicates + 1;
                        }
                    },
                    None => {},
                }
            }
        }
        if repeated {
            return None;
        }
        let p = match free {
            Some(k) => k,
            None => {
                return None;
            },
        };
        if duplicates >= self.duplicate_peers {
            return None;
        }
        proof {
            lemma_connect_scan(h0.peers@, h0.addresses@, received, f.connect_id, 0);
        }
        let cc: usize = if f.channel_count as usize > self.channel_limit {
            self.channel_limit
        } else {
            f.channel_count as usize
        };
        let host_mtu = self.mtu;
        let incoming = self.incoming_bandwidth;
        let outgoing = self.outgoing_bandwidth;
        let peer = &mut self.peers[p];
        peer.channels = fresh_channels(cc);
        peer.state = PeerState::AcknowledgingConnect;
        peer.connect_id = f.connect_id;
        peer.outgoing_peer_id = f.outgoing_peer_id;
        peer.incoming_bandwidth = f.incoming_bandwidth;
        peer.outgoing_bandwidth = f.outgoing_bandwidth;
        peer.packet_throttle_interval = f.packet_throttle_interval;
        peer.packet_throttle_acceleration = f.packet_throttle_acceleration;
        peer.packet_throttle_deceleration = f.packet_throttle_deceleration;
        peer.event_data = data;
        let out_session = enet_session_id(
            f.incoming_session_id,
            peer.outgoing_session_id,
            peer.outgoing_session_id,
        );
        peer.outgoing_session_id = out_session;
        let in_session = enet_session_id(
            f.outgoing_session_id,
            peer.incoming_session_id,
            peer.incoming_session_id,
        );
        peer.incoming_session_id = in_session;
        let peer_mtu = clamp_mtu_value(f.mtu);
        peer.mtu = if peer_mtu < host_mtu {
            peer_mtu
        } else {
            host_mtu
        };
        peer.window_size = window_size_for(outgoing, f.incoming_bandwidth);
        let w0: u32 = if incoming == 0 {
            PROTOCOL_MAXIMUM_WINDOW_SIZE
        } else {
            incoming / PEER_WINDOW_SIZE_SCALE * PROTOCOL_MINIMUM_WINDOW_SIZE
        };
        let w1 = if w0 > f.window_size {
            f.window_size
        } else {
            w0
        };
        let window = if w1 < PROTOCOL_MINIMUM_WINDOW_SIZE {
            PROTOCOL_MINIMUM_WINDOW_SIZE
        } else if w1 > PROTOCOL_MAXIMUM_WINDOW_SIZE {
            PROTOCOL_MAXIMUM_WINDOW_SIZE
        } else {
            w1
        };
        let ghost q = *peer;
        let pc = ProtocolCommand {
            command: PROTOCOL_COMMAND_VERIFY_CONNECT | PROTOCOL_COMMAND_FLAG_ACKNOWLEDGE,
            channel_id: 0xff,
            reliable_sequence_number: 0,
            body: Command::VerifyConnect {
                fields: ConnectFields {
                    outgoing_peer_id: peer.incoming_peer_id,
                    incoming_session_id: peer.outgoing_session_id,
                    outgoing_session_id: peer.incoming_session_id,
                    mtu: peer.mtu,
                    window_size: window,
                    channel_count: cc as u32,
                    incoming_bandwidth: incoming,
                    outgoing_bandwidth: outgoing,
                    packet_throttle_interval: peer.packet_throttle_interval,
                    packet_throttle_acceleration: peer.packet_throttle_acceleration,
                    packet_throttle_deceleration: peer.packet_throttle_deceleration,
                    connect_id: peer.connect_id,
                },
            },
        };
        assert((3u8 | 128u8) & 15u8 == 3u8) by (bit_vector);
        peer.queue_control(&mut self.total_queued, pc);
        self.addresses.set(p, Some(received));
        proof {
            let ii = p as int;
            lemma_count_update(h0.peers@, ii, self.peers@[ii]);
            assert(self.peers@ =~= h0.peers@.update(ii, self.peers@[ii]));
            assert(connection_accepted(h0.peers@[ii], q, f, data, h0.mtu, h0.outgoing_bandwidth, cc));
            assert(pc == verify_command(q, h0.incoming_bandwidth, h0.outgoing_bandwidth,
                accepted_window(h0.incoming_bandwidth, f.window_size), cc));
            let c = choose|c: crate::peer::OutgoingCommand| crate::control::is_control(c, pc)
                && crate::outgoing::queued_outgoing(q, self.peers@[ii], c, self.total_queued);
            assert(crate::outgoing::queued_outgoing(q, self.peers@[ii], c, self.total_queued));
            assert forall|k: int| 0 <= k < self.peers@.len() implies (#[trigger] self.peers@[k]).index
                == PeerID(k as usize) && self.peers@[k].incoming_peer_id == k as u16
                && self.peers@[k].channels@.len() <= PROTOCOL_MAXIMUM_CHANNEL_COUNT by {
                if k != ii {
                    assert(self.peers@[k] == h0.peers@[k]);
                }
            }
            assert(exists|q: Peer|
                connection_accepted(h0.peers@[ii], q, f, data, h0.mtu, h0.outgoing_bandwidth, cc)
                    && #[trigger] control_queued(
                    q,
                    self.peers@[ii],
                    verify_command(
                        q,
                        h0.incoming_bandwidth,
                        h0.outgoing_bandwidth,
                        accepted_window(h0.incoming_bandwidth, f.window_size),
                        cc,
                    ),
                    self.total_queued,
                ));
            assert(f == command.body->Connect_fields);
            assert(data == command.body->Connect_data);
            let scan = connect_scan(h0.peers@, h0.addresses@, received, f.connect_id, 0);
            assert(scan.0 == Some(ii));
            assert(!scan.2);
            assert(scan.1 < h0.duplicate_peers);
            assert(self.total_queued == h0.total_queued.wrapping_add(1));
            assert(self.addresses@ == h0.addresses@.update(ii, Some(received)));
            assert(connect_target(h0, received, f) == ii);
            assert(connect_channels(h0, f) == cc);
            assert(connection_accepted(h0.peers@[connect_target(h0, received, f)], q, f, data,
                h0.mtu, h0.outgoing_bandwidth, connect_channels(h0, f)));
            assert(connect_handled(h0, *self, received, f, data, Some(PeerID(p))));
            assert(!(f.channel_count < PROTOCOL_MINIMUM_CHANNEL_COUNT || f.channel_count
                    > PROTOCOL_MAXIMUM_CHANNEL_COUNT || scan.2 || scan.0 is None || scan.1
                    >= h0.duplicate_peers));
            assert(*self == (Host {
                        peers: self.peers,
                        addresses: self.addresses,
                        total_queued: self.total_queued,
                        ..h0
                    }));
        }
        Some(PeerID(p))
    }
}

/// A peer that accepts a connection never takes an MTU larger than its host's or than the
/// one the remote peer offered (brought within the protocol's bounds): it takes the smaller
/// of the two, and the verify-connect command it queues carries that MTU. The peer waits
/// for the acknowledgement of that command, knows the remote peer by its id and the
/// connection by its id, and is reached at the address the connect came from.
pub proof fn law_accepted_connection_takes_smaller_mtu<A: Address, Z: Compressor>(
    h0: Host<A, Z>,
    h1: Host<A, Z>,
    received: A,
    f: ConnectFields,
    data: u32,
    r: Option<PeerID>,
)
    requires
        h0.wf(),
        connect_handled(h0, h1, received, f, data, r),
        r is Some,
    ensures
        ({
            let p = h1.peers@[(r->0).0 as int];
            &&& p.mtu <= h0.mtu
            &&& p.mtu <= clamp_mtu(f.mtu)
            &&& p.mtu == h0.mtu || p.mtu == clamp_mtu(f.mtu)
            &&& p.outgoing_commands@.len() > 0
            &&& p.outgoing_commands@.last().command.body matches Command::VerifyConnect { fields } && fields.mtu == p.mtu
            &&& p.state == PeerState::AcknowledgingConnect
            &&& p.connect_id == f.connect_id
            &&& p.outgoing_peer_id == f.outgoing_peer_id
            &&& h1.addresses@[(r->0).0 as int] == Some(received)
        }),
{
    let t = connect_target(h0, received, f);
    lemma_connect_scan(h0.peers@, h0.addresses@, received, f.connect_id, 0);
    assert(0 <= t < h0.peers@.len());
    assert((r->0).0 as int == t);
    let q = choose|q: Peer|
        #[trigger] connection_accepted(
            h0.peers@[t],
            q,
            f,
            data,
            h0.mtu,
            h0.outgoing_bandwidth,
            connect_channels(h0, f),
        ) && control_queued(
            q,
            h1.peers@[t],
            verify_command(
                q,
                h0.incoming_bandwidth,
                h0.outgoing_bandwidth,
                accepted_window(h0.incoming_bandwidth, f.window_size),
                connect_channels(h0, f),
            ),
            h1.total_queued,
        );
    let pc = verify_command(
        q,
        h0.incoming_bandwidth,
        h0.outgoing_bandwidth,
        accepted_window(h0.incoming_bandwidth, f.window_size),
        connect_channels(h0, f),
    );
    let c = choose|c: OutgoingCommand| is_control(c, pc) && #[trigger] queued_outgoing(q, h1.peers@[t], c, h1.total_queued);
    assert(q.mtu == h1.peers@[t].mtu);
}

} // verus!
