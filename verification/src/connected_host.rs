//! A host for connection based peers (TCP, WebRTC and the like): each connection slot
//! carries its connection, and the host's datagrams travel over the connections through an
//! in-memory socket. A connection waits for its peer's handshake, has a peer, or drains
//! what is left to send after a disconnection.
use vstd::prelude::*;
use crate::compressor::Compressor;
use crate::compressor::RangeCoder;
use std::time::Duration;
use crate::connected::{settings_taken, throttle_command, AddConnectionError, Address, Connection, ConnectionID, ConnectionKind, EventNoRef, PeerSettings};
use crate::control::{control_queued, disconnect_quiet, ping_command};
use crate::peer_api::{same_host_view, state_after_disconnect, state_after_disconnect_later};
use crate::error::{BadParameter, PeerSendError};
use crate::consts::{PROTOCOL_MAXIMUM_MTU, PROTOCOL_MAXIMUM_PEER_ID, PROTOCOL_MINIMUM_MTU};
use crate::event::Event;
use crate::host::{first_disconnected, lemma_peer_step, peer_limit_refused, settings_error, Host, HostSettings};
use crate::dispatch::events_checked;
use crate::service::{sent_to_live_peers, passed_over, sends_nothing};
use crate::packet::Packet;
use crate::peer::{PeerID, PeerState};
use crate::read_write::ReadWrite;
use crate::socket::PacketReceived;
use crate::outgoing::copy_range;

verus! {

/// [`Duration::as_millis`]: the whole milliseconds of `d`. Nothing is stated of the
/// result, since Verus sees a `Duration` as an opaque value.
#[verifier::external_body]
fn duration_millis(d: &Duration) -> u128 {
    d.as_millis()
}

/// How long a disconnected connection is kept after it last sent something, in
/// milliseconds.
pub const CONNECTION_LINGER: u64 = 2000;

/// Where a connection slot stands.
pub enum ConnectionState<C: Connection> {
    /// No connection; the peer it last had, if any.
    Disconnected { last_peer: Option<PeerID> },
    /// A connection waiting, since time `since` and for `timeout` milliseconds, for its
    /// peer's handshake, with the peer settings asked for meanwhile.
    AwaitingPeer {
        connection: C,
        address: Address<C::Address>,
        since: u64,
        timeout: u64,
        settings: PeerSettings,
    },
    /// A connection with its peer.
    HasPeer { connection: C, address: Address<C::Address>, peer: PeerID },
    /// A connection whose peer disconnected, kept while it still sends, last at `last_send`.
    Disconnecting {
        connection: C,
        address: Address<C::Address>,
        last_peer: Option<PeerID>,
        last_send: u64,
    },
}

/// A connection slot of a [`ConnectedHost`].
pub struct ConnectedPeer<C: Connection> {
    pub id: ConnectionID,
    pub state: ConnectionState<C>,
}

/// A host for connection based peers.
pub struct ConnectedHost<C: Connection> {
    pub host: Host<Address<C::Address>, RangeCoder>,
    pub socket: ReadWrite<Address<C::Address>>,
    pub peers: Vec<ConnectedPeer<C>>,
    pub next_generation: usize,
}

/// ENet's time of `now` milliseconds: wrapping.
fn enet_time(now: u64) -> (t: u32)
    ensures
        t == now % 0xffff_ffff,
{
    (now % 0xffff_ffff) as u32
}

/// The peer of a connection in `state`, or the one it last had.
pub open spec fn known_peer<C: Connection>(state: ConnectionState<C>) -> Option<PeerID> {
    match state {
        ConnectionState::HasPeer { peer, .. } => Some(peer),
        ConnectionState::Disconnected { last_peer } => last_peer,
        ConnectionState::Disconnecting { last_peer, .. } => last_peer,
        ConnectionState::AwaitingPeer { .. } => None,
    }
}

/// The settings a waiting connection keeps after `new` were asked for: each that `new`
/// gives replaces the one kept.
pub open spec fn settings_merged(kept: PeerSettings, new: PeerSettings) -> PeerSettings {
    PeerSettings {
        timeout: if new.timeout is Some { new.timeout } else { kept.timeout },
        ping_interval: if new.ping_interval is Some { new.ping_interval } else { kept.ping_interval },
        throttle: if new.throttle is Some { new.throttle } else { kept.throttle },
        mtu: if new.mtu is Some { new.mtu } else { kept.mtu },
    }
}

/// Whether ENet host `h1` is `h0` with `settings` applied to peer `i` (see
/// [`PeerSettings::apply`]): its throttle parameters, when given, are sent to the remote
/// host as a command.
pub open spec fn host_settings_applied<A, Z: Compressor>(h0: Host<A, Z>, h1: Host<A, Z>, i: int, settings: PeerSettings) -> bool {
    let p0 = h0.peers@[i];
    let p1 = h1.peers@[i];
    &&& h1.peers@.len() == h0.peers@.len()
    &&& forall|j: int| 0 <= j < h0.peers@.len() && j != i ==> #[trigger] h1.peers@[j] == h0.peers@[j]
    &&& match settings.throttle {
        Some((t, a, d)) => h1.total_queued == h0.total_queued.wrapping_add(1) && control_queued(
            settings_taken(p0, settings),
            p1,
            throttle_command(t, a, d),
            h1.total_queued,
        ),
        None => h1.total_queued == h0.total_queued && p1 == settings_taken(p0, settings),
    }
}

/// The slot of the connection that ENet peer `peer` is known by, when the host knows its
/// address and the slot exists.
pub open spec fn peer_slot<C: Connection>(h: ConnectedHost<C>, peer: PeerID) -> Option<usize> {
    if peer.0 < h.host.addresses@.len() {
        match h.host.addresses@[peer.0 as int] {
            Some(a) => if a.id.0 < h.peers@.len() {
                Some(a.id.0)
            } else {
                None::<usize>
            },
            None => None::<usize>,
        }
    } else {
        None::<usize>
    }
}

/// Whether `h1` and the result `r` are what handling `event` of the ENet host at time
/// `now` gives in `h0` (see [`ConnectedHost::handle_event`]).
pub open spec fn event_handled<C: Connection>(
    h0: ConnectedHost<C>,
    h1: ConnectedHost<C>,
    event: Event,
    now: u64,
    r: Option<EventNoRef>,
) -> bool {
    match event {
        Event::Connect { peer, data } => match peer_slot(h0, peer) {
            None => r is None && h1 == h0,
            Some(slot) => {
                &&& r == Some(EventNoRef::Connect { peer: ConnectionID(slot), data })
                &&& h1.next_generation == h0.next_generation
                &&& match h0.peers@[slot as int].state {
                    ConnectionState::AwaitingPeer { connection, address, settings, .. } => {
                        &&& h1.peers@ == h0.peers@.update(
                            slot as int,
                            ConnectedPeer { id: ConnectionID(slot), state: ConnectionState::HasPeer { connection, address, peer } },
                        )
                        &&& if peer.0 < h0.host.peers@.len() {
                            host_settings_applied(h0.host, h1.host, peer.0 as int, settings)
                        } else {
                            h1.host == h0.host
                        }
                    },
                    _ => h1.peers@ == h0.peers@ && h1.host == h0.host,
                }
            },
        },
        Event::Disconnect { peer, data } => match peer_slot(h0, peer) {
            None => r is None && h1 == h0,
            Some(slot) => {
                &&& r == Some(EventNoRef::Disconnect { peer: ConnectionID(slot), data })
                &&& h1.next_generation == h0.next_generation
                &&& h1.host == h0.host
                &&& match h0.peers@[slot as int].state {
                    ConnectionState::AwaitingPeer { connection, address, .. } => h1.peers@ == h0.peers@.update(
                        slot as int,
                        ConnectedPeer {
                            id: ConnectionID(slot),
                            state: ConnectionState::Disconnecting { connection, address, last_peer: None, last_send: now },
                        },
                    ),
                    ConnectionState::HasPeer { connection, address, peer: had } => h1.peers@ == h0.peers@.update(
                        slot as int,
                        ConnectedPeer {
                            id: ConnectionID(slot),
                            state: ConnectionState::Disconnecting {
                                connection,
                                address,
                                last_peer: Some(had),
                                last_send: now,
                            },
                        },
                    ),
                    _ => h1.peers@ == h0.peers@,
                }
            },
        },
        Event::Receive { peer, channel_id, packet } => match peer_slot(h0, peer) {
            None => r is None && h1 == h0,
            Some(slot) => r == Some(EventNoRef::Receive { peer: ConnectionID(slot), channel_id, packet }) && h1 == h0,
        },
    }
}

/// Whether slot state `s1` is `s0` but for the connection itself, which an exchange over
/// it may change, and, for a draining connection, the time it last sent, which may become
/// `now` when that is given.
pub open spec fn same_but_connection<C: Connection>(s0: ConnectionState<C>, s1: ConnectionState<C>, now: Option<u64>) -> bool {
    match s0 {
        ConnectionState::Disconnected { .. } => s1 == s0,
        ConnectionState::AwaitingPeer { address, since, timeout, settings, .. } => s1 matches ConnectionState::AwaitingPeer {
            address: a,
            since: b,
            timeout: t,
            settings: st,
            ..
        } && a == address && b == since && t == timeout && st == settings,
        ConnectionState::HasPeer { address, peer, .. } => s1 matches ConnectionState::HasPeer { address: a, peer: p, .. }
            && a == address && p == peer,
        ConnectionState::Disconnecting { address, last_peer, last_send, .. } => s1 matches ConnectionState::Disconnecting {
            address: a,
            last_peer: lp,
            last_send: ls,
            ..
        } && a == address && lp == last_peer && (ls == last_send || now == Some(ls)),
    }
}

/// The address a connection in `s` is known by, when there is a connection.
pub open spec fn state_address<C: Connection>(s: ConnectionState<C>) -> Option<Address<C::Address>> {
    match s {
        ConnectionState::Disconnected { .. } => None,
        ConnectionState::AwaitingPeer { address, .. } => Some(address),
        ConnectionState::HasPeer { address, .. } => Some(address),
        ConnectionState::Disconnecting { address, .. } => Some(address),
    }
}

/// Whether a connection in `s` has waited for its peer past its time out at time `now`.
pub open spec fn awaiting_expired<C: Connection>(s: ConnectionState<C>, now: u64) -> bool {
    match s {
        ConnectionState::AwaitingPeer { since, timeout, .. } => since + timeout < now,
        _ => false,
    }
}

/// Whether `h1` is `h0` with slot `slot` freed, remembering `last_peer`.
pub open spec fn freed<C: Connection>(h0: ConnectedHost<C>, h1: ConnectedHost<C>, slot: usize, last_peer: Option<PeerID>) -> bool {
    &&& h1 == (ConnectedHost { peers: h1.peers, ..h0 })
    &&& h1.peers@ == h0.peers@.update(
        slot as int,
        ConnectedPeer { id: ConnectionID(slot), state: ConnectionState::Disconnected { last_peer } },
    )
}

/// Whether `h1` is `h0` after the operation on the connection of `id` described by `on_peer`
/// for its peer: a connection without a peer is freed, one whose peer the host does not
/// have is left alone, and otherwise the slots are kept and `on_peer` holds of the peer's
/// index.
pub open spec fn peer_or_freed<C: Connection>(
    h0: ConnectedHost<C>,
    h1: ConnectedHost<C>,
    id: ConnectionID,
    on_peer: spec_fn(int) -> bool,
    frees: bool,
) -> bool {
    match h0.peers@[id.0 as int].state {
        ConnectionState::HasPeer { peer, .. } => if peer.0 < h0.host.peers@.len() {
            h1.peers@ == h0.peers@ && h1.next_generation == h0.next_generation && on_peer(peer.0 as int)
        } else {
            connected_unchanged(h0, h1)
        },
        _ => if frees {
            freed(h0, h1, id.0, None)
        } else {
            connected_unchanged(h0, h1)
        },
    }
}

/// Whether `h1` is `h0` with the same slots, seen through the view of its slots.
pub open spec fn connected_unchanged<C: Connection>(h0: ConnectedHost<C>, h1: ConnectedHost<C>) -> bool {
    &&& h1.peers@ == h0.peers@
    &&& h1 == (ConnectedHost { peers: h1.peers, ..h0 })
}

/// Whether `h1` is `h0` after `settings` were applied to the connection of `id`: to its
/// peer, when it has one (the throttle parameters sent to the remote host as a command);
/// kept for later by a connection waiting for its peer; ignored otherwise.
pub open spec fn settings_applied<C: Connection>(
    h0: ConnectedHost<C>,
    h1: ConnectedHost<C>,
    id: ConnectionID,
    settings: PeerSettings,
) -> bool {
    match h0.peers@[id.0 as int].state {
        ConnectionState::HasPeer { peer, .. } => if peer.0 < h0.host.peers@.len() {
            &&& h1.peers@ == h0.peers@
            &&& host_settings_applied(h0.host, h1.host, peer.0 as int, settings)
        } else {
            connected_unchanged(h0, h1)
        },
        ConnectionState::AwaitingPeer { connection, address, since, timeout, settings: kept } => {
            &&& h1 == (ConnectedHost { peers: h1.peers, ..h0 })
            &&& h1.peers@ == h0.peers@.update(
                id.0 as int,
                ConnectedPeer {
                    id,
                    state: ConnectionState::AwaitingPeer {
                        connection,
                        address,
                        since,
                        timeout,
                        settings: settings_merged(kept, settings),
                    },
                },
            )
        },
        _ => connected_unchanged(h0, h1),
    }
}

impl<C: Connection> ConnectedPeer<C> {
    /// The peer of the connection, when it has one.
    pub fn peer(&self) -> (r: Option<PeerID>)
        ensures
            r == match self.state {
                ConnectionState::HasPeer { peer, .. } => Some(peer),
                _ => None,
            },
    {
        match &self.state {
            ConnectionState::HasPeer { peer, .. } => Some(*peer),
            _ => None,
        }
    }

    /// The peer of the connection, or the one it last had.
    pub fn peer_or_last_peer(&self) -> (r: Option<PeerID>)
        ensures
            r == known_peer(self.state),
    {
        match &self.state {
            ConnectionState::HasPeer { peer, .. } => Some(*peer),
            ConnectionState::Disconnected { last_peer } => *last_peer,
            ConnectionState::Disconnecting { last_peer, .. } => *last_peer,
            ConnectionState::AwaitingPeer { .. } => None,
        }
    }

    /// The connection, when there is one.
    pub fn connection(&self) -> (r: Option<&C>)
        ensures
            r is None <==> self.state is Disconnected,
    {
        match &self.state {
            ConnectionState::Disconnected { .. } => None,
            ConnectionState::AwaitingPeer { connection, .. } => Some(connection),
            ConnectionState::HasPeer { connection, .. } => Some(connection),
            ConnectionState::Disconnecting { connection, .. } => Some(connection),
        }
    }

    /// The address the host knows the connection by, when there is a connection.
    pub fn address(&self) -> (r: Option<Address<C::Address>>)
        ensures
            r is None <==> self.state is Disconnected,
    {
        match &self.state {
            ConnectionState::Disconnected { .. } => None,
            ConnectionState::AwaitingPeer { address, .. } => Some(address.clone()),
            ConnectionState::HasPeer { address, .. } => Some(address.clone()),
            ConnectionState::Disconnecting { address, .. } => Some(address.clone()),
        }
    }

    /// Receive from the connection, when there is one, into `buffer`.
    fn receive_from_connection(&mut self, buffer: &mut [u8; 4096]) -> (r: Option<Result<Option<PacketReceived>, ()>>)
        ensures
            final(self).id == old(self).id,
            r is None <==> old(self).state is Disconnected,
            old(self).state is Disconnected ==> final(self).state == old(self).state && final(buffer)@ == old(buffer)@,
            same_but_connection(old(self).state, final(self).state, None),
    {
        match &mut self.state {
            ConnectionState::Disconnected { .. } => None,
            ConnectionState::AwaitingPeer { connection, .. } => Some(
                match connection.receive(buffer) {
                    Ok(x) => Ok(x),
                    Err(_) => Err(()),
                },
            ),
            ConnectionState::HasPeer { connection, .. } => Some(
                match connection.receive(buffer) {
                    Ok(x) => Ok(x),
                    Err(_) => Err(()),
                },
            ),
            ConnectionState::Disconnecting { connection, .. } => Some(
                match connection.receive(buffer) {
                    Ok(x) => Ok(x),
                    Err(_) => Err(()),
                },
            ),
        }
    }

    /// Send `packet`, sent by the host to generation `generation` of this slot, over the
    /// connection when it is of that generation, at time `now`. A draining connection that
    /// sends it notes the time; returns whether a live connection failed to send it.
    fn forward(&mut self, generation: usize, packet: &[u8], now: u64) -> (failed: bool)
        ensures
            final(self).id == old(self).id,
            same_but_connection(old(self).state, final(self).state, Some(now)),
            failed ==> !(old(self).state is Disconnected) && !(old(self).state is Disconnecting),
            failed ==> (state_address(old(self).state) matches Some(a) && a.generation == generation),
            match state_address(old(self).state) {
                Some(a) => a.generation != generation ==> !failed && final(self).state == old(self).state,
                None => !failed && final(self).state == old(self).state,
            },
    {
        match &mut self.state {
            ConnectionState::Disconnected { .. } => false,
            ConnectionState::AwaitingPeer { connection, address, .. } => address.generation == generation
                && connection.send(packet).is_err(),
            ConnectionState::HasPeer { connection, address, .. } => address.generation == generation
                && connection.send(packet).is_err(),
            ConnectionState::Disconnecting { connection, address, last_send, .. } => {
                if address.generation == generation && connection.send(packet).is_ok() {
                    *last_send = now;
                }
                false
            },
        }
    }

    /// The peer settings the connection keeps while it waits for its peer.
    fn settings_mut(&mut self) -> (r: Option<&mut PeerSettings>)
        ensures
            final(self).id == old(self).id,
            match old(self).state {
                ConnectionState::AwaitingPeer { connection, address, since, timeout, settings } => r matches Some(
                    x,
                ) && *x == settings && final(self).state == (ConnectionState::AwaitingPeer {
                    connection,
                    address,
                    since,
                    timeout,
                    settings: *final(x),
                }),
                _ => r is None && final(self).state == old(self).state,
            },
    {
        match &mut self.state {
            ConnectionState::AwaitingPeer { settings, .. } => Some(settings),
            _ => None,
        }
    }

    /// Whether the connection is a free slot.
    pub fn is_free(&self) -> (b: bool)
        ensures
            b == self.state is Disconnected,
    {
        match &self.state {
            ConnectionState::Disconnected { .. } => true,
            _ => false,
        }
    }
}

impl<C: Connection> ConnectedHost<C> {
    /// Whether the host is well formed: its ENet host is, and slot `i` has id `i`.
    pub open spec fn wf(&self) -> bool {
        &&& self.host.wf()
        &&& forall|i: int| 0 <= i < self.peers@.len() ==> (#[trigger] self.peers@[i]).id == ConnectionID(i as usize)
    }

    /// Create a host for connection based peers with `settings`, seeded from `entropy`
    /// unless the settings give a seed: a slot for each peer, all free. Returns the
    /// [`BadParameter`] of [`Host::new`], and refuses a peer limit of 0 or more than the
    /// number of peer ids after the other settings.
    pub fn new(settings: HostSettings<RangeCoder>, entropy: u32) -> (r: Result<Self, BadParameter>)
        ensures
            match settings_error(settings) {
                Some(e) => r matches Err(x) && x == e,
                None => if peer_limit_refused(settings.peer_limit) {
                    r == Err::<Self, BadParameter>(
                        BadParameter { method: "Host::new", parameter: "settings.peer_limit" },
                    )
                } else {
                    r is Ok
                },
            },
            r matches Ok(h) ==> h.wf() && h.peers@.len() == settings.peer_limit && h.next_generation == 0
                && forall|i: int| 0 <= i < h.peers@.len() ==> (#[trigger] h.peers@[i]).state is Disconnected,
    {
        let peer_limit = settings.peer_limit;
        if peer_limit == 0 || peer_limit > PROTOCOL_MAXIMUM_PEER_ID as usize {
            if settings.channel_limit == 0 {
                return Err(BadParameter { method: "Host::new", parameter: "settings.channel_limit" });
            }
            if settings.incoming_bandwidth_limit == Some(0u32) {
                return Err(
                    BadParameter { method: "Host::new", parameter: "settings.incoming_bandwidth_limit" },
                );
            }
            if settings.outgoing_bandwidth_limit == Some(0u32) {
                return Err(
                    BadParameter { method: "Host::new", parameter: "settings.outgoing_bandwidth_limit" },
                );
            }
            return Err(BadParameter { method: "Host::new", parameter: "settings.peer_limit" });
        }
        let host = match Host::new(settings, entropy) {
            Err(e) => {
                return Err(e);
            },
            Ok(h) => h,
        };
        let mut peers: Vec<ConnectedPeer<C>> = Vec::new();
        let mut i: usize = 0;
        while i < peer_limit
            invariant
                i <= peer_limit,
                peers@.len() == i,
                forall|j: int| 0 <= j < i ==> (#[trigger] peers@[j]).id == ConnectionID(j as usize)
                    && peers@[j].state is Disconnected,
            decreases peer_limit - i,
        {
            peers.push(ConnectedPeer { id: ConnectionID(i), state: ConnectionState::Disconnected { last_peer: None } });
            i = i + 1;
        }
        Ok(ConnectedHost { host, socket: ReadWrite::new(), peers, next_generation: 0 })
    }

    /// The first free slot.
    fn free_slot(&self) -> (r: Option<usize>)
        ensures
            r matches Some(i) ==> i < self.peers@.len() && self.peers@[i as int].state is Disconnected
                && forall|j: int| 0 <= j < i ==> !(#[trigger] self.peers@[j].state is Disconnected),
            r is None ==> forall|i: int| 0 <= i < self.peers@.len() ==> !(self.peers@[i].state is Disconnected),
    {
        let mut i: usize = 0;
        while i < self.peers.len()
            invariant
                i <= self.peers@.len(),
                forall|j: int| 0 <= j < i ==> !(self.peers@[j].state is Disconnected),
            decreases self.peers@.len() - i,
        {
            if self.peers[i].is_free() {
                return Some(i);
            }
            i = i + 1;
        }
        None
    }

    /// Add a connection, already established on both sides, to the first free slot, at
    /// time `now`: an initiator starts ENet's handshake at once, a receiver waits for it
    /// for its time out. Returns the slot, or [`AddConnectionError::NoAvailablePeers`] when
    /// no slot (or, for an initiator, no peer) is free, or the connection's error when it
    /// fails to initialize.
    pub fn add_connection(&mut self, kind: ConnectionKind<C>, now: u64) -> (r: Result<ConnectionID, AddConnectionError<C>>)
        requires
            old(self).wf(),
        ensures
            final(self).wf(),
            final(self).peers@.len() == old(self).peers@.len(),
            (forall|i: int| 0 <= i < old(self).peers@.len() ==> !(old(self).peers@[i].state is Disconnected))
                ==> r matches Err(AddConnectionError::NoAvailablePeers),
            r matches Ok(id) ==> id.0 < final(self).peers@.len() && !(final(self).peers@[id.0 as int].state is Disconnected),
            ({
                let free = exists|i: int| 0 <= i < old(self).peers@.len() && #[trigger] old(self).peers@[i].state is Disconnected;
                &&& !free ==> *final(self) == *old(self)
                &&& free ==> final(self).next_generation == old(self).next_generation.wrapping_add(1)
                    && final(self).socket == old(self).socket
                &&& r matches Err(AddConnectionError::FailedToInitializeConnection(_)) ==> free && final(self).peers@
                    == old(self).peers@ && final(self).host == old(self).host
                &&& r matches Ok(id) ==> {
                    &&& (old(self).peers@[id.0 as int].state is Disconnected)
                    &&& forall|j: int| 0 <= j < id.0 ==> !(#[trigger] old(self).peers@[j].state is Disconnected)
                    &&& forall|j: int| 0 <= j < old(self).peers@.len() && j != id.0 ==> #[trigger] final(self).peers@[j] == old(self).peers@[j]
                    &&& final(self).peers@[id.0 as int].id == id
                    &&& match kind {
                        ConnectionKind::Initiator { .. } => final(self).peers@[id.0 as int].state matches ConnectionState::HasPeer {
                            address,
                            peer,
                            ..
                        } && address.id == id && address.generation == old(self).next_generation
                            && (first_disconnected(old(self).host.peers@, 0) matches Some(k) && peer == PeerID(
                            k as usize,
                        )),
                        ConnectionKind::Receiver { .. } => final(self).host == old(self).host
                            && (final(self).peers@[id.0 as int].state matches ConnectionState::AwaitingPeer {
                            address,
                            since,
                            settings,
                            ..
                        } && address.id == id && address.generation == old(self).next_generation && since == now
                            && settings.timeout is None && settings.ping_interval is None && settings.throttle is None
                            && settings.mtu is None),
                    }
                }
                &&& r matches Err(AddConnectionError::NoAvailablePeers) ==> !free || (kind is Initiator
                    && first_disconnected(old(self).host.peers@, 0) is None && final(self).peers@ == old(self).peers@)
                &&& free && kind is Receiver ==> !(r matches Err(AddConnectionError::NoAvailablePeers))
            }),
    {
        let slot = match self.free_slot() {
            None => {
                return Err(AddConnectionError::NoAvailablePeers);
            },
            Some(i) => i,
        };
        assert(old(self).peers@[slot as int].state is Disconnected);
        let id = ConnectionID(slot);
        let generation = self.next_generation;
        self.next_generation = self.next_generation.wrapping_add(1);
        match kind {
            ConnectionKind::Initiator { mut connection, channel_count, data } => {
                let own = match connection.init() {
                    Err(e) => {
                        return Err(AddConnectionError::FailedToInitializeConnection(e));
                    },
                    Ok(a) => a,
                };
                let address = Address::new(own, id, generation);
                match self.host.connect(address.clone(), channel_count, data) {
                    Ok(peer) => {
                        self.peers.set(slot, ConnectedPeer { id, state: ConnectionState::HasPeer { connection, address, peer } });
                    },
                    Err(_) => {
                        return Err(AddConnectionError::NoAvailablePeers);
                    },
                }
            },
            ConnectionKind::Receiver { mut connection, timeout } => {
                let own = match connection.init() {
                    Err(e) => {
                        return Err(AddConnectionError::FailedToInitializeConnection(e));
                    },
                    Ok(a) => a,
                };
                let address = Address::new(own, id, generation);
                let ms = duration_millis(&timeout);
                let timeout_ms: u64 = if ms > 0xffff_ffff_ffff_ffff {
                    0xffff_ffff_ffff_ffff
                } else {
                    ms as u64
                };
                self.peers.set(slot, ConnectedPeer {
                    id,
                    state: ConnectionState::AwaitingPeer {
                        connection,
                        address,
                        since: now,
                        timeout: timeout_ms,
                        settings: PeerSettings::default(),
                    },
                });
            },
        }
        Ok(id)
    }

    /// The slot of ENet peer `peer`, from the address the peer is known by.
    fn slot_of(&self, peer: PeerID) -> (r: Option<usize>)
        ensures
            r == peer_slot(*self, peer),
    {
        if peer.0 >= self.host.addresses.len() {
            return None;
        }
        match &self.host.addresses[peer.0] {
            Some(a) => {
                let slot = a.connection_id().0;
                if slot < self.peers.len() {
                    Some(slot)
                } else {
                    None
                }
            },
            None => None,
        }
    }

    /// Turn an event of the ENet host into one of its connection, at time `now`: a peer
    /// that connects gives its waiting connection the peer and the settings asked for; a
    /// peer that disconnects leaves its connection draining. An event of a peer that no
    /// connection knows is dropped.
    fn handle_event(&mut self, event: Event, now: u64) -> (r: Option<EventNoRef>)
        requires
            old(self).wf(),
        ensures
            final(self).wf(),
            final(self).peers@.len() == old(self).peers@.len(),
            event_handled(*old(self), *final(self), event, now, r),
    {
        match event {
            Event::Connect { peer, data } => {
                let slot = match self.slot_of(peer) {
                    None => {
                        return None;
                    },
                    Some(s) => s,
                };
                let id = ConnectionID(slot);
                let mut state = ConnectionState::Disconnected { last_peer: None };
                std::mem::swap(&mut state, &mut self.peers[slot].state);
                let next = match state {
                    ConnectionState::AwaitingPeer { connection, address, settings, .. } => {
                        if peer.0 < self.host.peers.len() {
                            let ghost h0 = self.host;
                            {
                                let p = &mut self.host.peers[peer.0];
                                settings.apply(p, &mut self.host.total_queued);
                            }
                            proof {
                                lemma_peer_step(h0, self.host, peer.0 as int);
                            }
                        }
                        ConnectionState::HasPeer { connection, address, peer }
                    },
                    other => other,
                };
                let ghost next_g = next;
                self.peers.set(slot, ConnectedPeer { id, state: next });
                proof {
                    assert(self.peers@ =~= old(self).peers@.update(slot as int, ConnectedPeer { id, state: next_g }));
                    assert(old(self).peers@[slot as int].id == id);
                    assert(!(old(self).peers@[slot as int].state is AwaitingPeer) ==> self.peers@ =~= old(self).peers@);
                }
                Some(EventNoRef::Connect { peer: id, data })
            },
            Event::Disconnect { peer, data } => {
                let slot = match self.slot_of(peer) {
                    None => {
                        return None;
                    },
                    Some(s) => s,
                };
                let id = ConnectionID(slot);
                let mut state = ConnectionState::Disconnected { last_peer: None };
                std::mem::swap(&mut state, &mut self.peers[slot].state);
                let next = match state {
                    ConnectionState::AwaitingPeer { connection, address, .. } => ConnectionState::Disconnecting {
                        connection,
                        address,
                        last_peer: None,
                        last_send: now,
                    },
                    ConnectionState::HasPeer { connection, address, peer } => ConnectionState::Disconnecting {
                        connection,
                        address,
                        last_peer: Some(peer),
                        last_send: now,
                    },
                    other => other,
                };
                let ghost next_g = next;
                self.peers.set(slot, ConnectedPeer { id, state: next });
                proof {
                    assert(self.peers@ =~= old(self).peers@.update(slot as int, ConnectedPeer { id, state: next_g }));
                    assert(old(self).peers@[slot as int].id == id);
                    assert(!(old(self).peers@[slot as int].state is AwaitingPeer) && !(old(self).peers@[
                        slot as int].state is HasPeer) ==> self.peers@ =~= old(self).peers@);
                }
                Some(EventNoRef::Disconnect { peer: id, data })
            },
            Event::Receive { peer, channel_id, packet } => {
                let slot = match self.slot_of(peer) {
                    None => {
                        return None;
                    },
                    Some(s) => s,
                };
                Some(EventNoRef::Receive { peer: ConnectionID(slot), channel_id, packet })
            },
        }
    }
}

impl<C: Connection> ConnectedHost<C> {
    /// Free slot `slot`, forgetting its peer.
    fn free(&mut self, slot: usize, last_peer: Option<PeerID>)
        requires
            old(self).wf(),
            slot < old(self).peers@.len(),
        ensures
            final(self).wf(),
            final(self).peers@.len() == old(self).peers@.len(),
            final(self).peers@[slot as int].state == (ConnectionState::<C>::Disconnected { last_peer }),
            freed(*old(self), *final(self), slot, last_peer),
    {
        self.peers.set(slot, ConnectedPeer { id: ConnectionID(slot), state: ConnectionState::Disconnected { last_peer } });
    }

    /// Reset the connection of `id`: its peer, when it has one, is reset, and the slot is
    /// freed.
    pub fn reset(&mut self, id: ConnectionID)
        requires
            old(self).wf(),
            id.0 < old(self).peers@.len(),
        ensures
            final(self).wf(),
            final(self).peers@.len() == old(self).peers@.len(),
            final(self).peers@[id.0 as int].state == (ConnectionState::<C>::Disconnected { last_peer: None }),
    {
        match self.peers[id.0].peer() {
            Some(p) => {
                if p.0 < self.host.peers.len() {
                    self.host.reset_peer(p);
                }
            },
            None => {},
        }
        self.free(id.0, None);
    }

    /// Disconnect the connection of `id` at time `now`, sending `data` to its peer when it
    /// has one (see [`Host::disconnect`]); a connection without a peer is freed at once.
    pub fn disconnect(&mut self, id: ConnectionID, data: u32, now: u64)
        requires
            old(self).wf(),
            id.0 < old(self).peers@.len(),
        ensures
            final(self).wf(),
            final(self).peers@.len() == old(self).peers@.len(),
            peer_or_freed(
                *old(self),
                *final(self),
                id,
                (|i: int|
                    {
                        let p0 = old(self).host.peers@[i];
                        &&& final(self).host.peers@[i].state == state_after_disconnect(p0.state)
                        &&& disconnect_quiet(p0.state) ==> same_host_view(old(self).host, final(self).host)
                    }),
                true,
            ),
    {
        match self.peers[id.0].peer() {
            Some(p) => {
                if p.0 < self.host.peers.len() {
                    self.host.disconnect(&mut self.socket, enet_time(now), p, data);
                }
            },
            None => {
                self.free(id.0, None);
            },
        }
    }

    /// Disconnect the connection of `id` at once (see [`Host::disconnect_now`]); a
    /// connection without a peer is freed.
    pub fn disconnect_now(&mut self, id: ConnectionID, data: u32, now: u64)
        requires
            old(self).wf(),
            id.0 < old(self).peers@.len(),
        ensures
            final(self).wf(),
            final(self).peers@.len() == old(self).peers@.len(),
            peer_or_freed(
                *old(self),
                *final(self),
                id,
                (|i: int|
                    {
                        &&& final(self).host.peers@[i].state == PeerState::Disconnected
                        &&& old(self).host.peers@[i].state == PeerState::Disconnected ==> same_host_view(
                            old(self).host,
                            final(self).host,
                        )
                    }),
                true,
            ),
    {
        match self.peers[id.0].peer() {
            Some(p) => {
                if p.0 < self.host.peers.len() {
                    self.host.disconnect_now(&mut self.socket, enet_time(now), p, data);
                }
            },
            None => {
                self.free(id.0, None);
            },
        }
    }

    /// Disconnect the connection of `id` once its peer's queue is sent (see
    /// [`Host::disconnect_later`]); a connection without a peer is freed at once.
    pub fn disconnect_later(&mut self, id: ConnectionID, data: u32, now: u64)
        requires
            old(self).wf(),
            id.0 < old(self).peers@.len(),
        ensures
            final(self).wf(),
            final(self).peers@.len() == old(self).peers@.len(),
            peer_or_freed(
                *old(self),
                *final(self),
                id,
                (|i: int|
                    {
                        let p0 = old(self).host.peers@[i];
                        &&& final(self).host.peers@[i].state == state_after_disconnect_later(p0)
                        &&& state_after_disconnect_later(p0) == PeerState::DisconnectLater
                            ==> final(self).host.peers@[i].event_data == data
                        &&& disconnect_quiet(p0.state) && state_after_disconnect_later(p0) == p0.state
                            ==> same_host_view(old(self).host, final(self).host)
                    }),
                true,
            ),
    {
        match self.peers[id.0].peer() {
            Some(p) => {
                if p.0 < self.host.peers.len() {
                    self.host.disconnect_later(&mut self.socket, enet_time(now), p, data);
                }
            },
            None => {
                self.free(id.0, None);
            },
        }
    }

    /// Queue a ping for the peer of `id`, when it has one.
    pub fn ping(&mut self, id: ConnectionID)
        requires
            old(self).wf(),
            id.0 < old(self).peers@.len(),
        ensures
            final(self).wf(),
            final(self).peers@.len() == old(self).peers@.len(),
            peer_or_freed(
                *old(self),
                *final(self),
                id,
                (|i: int|
                    {
                        let p0 = old(self).host.peers@[i];
                        &&& final(self).socket == old(self).socket
                        &&& p0.state != PeerState::Connected ==> same_host_view(old(self).host, final(self).host)
                        &&& p0.state == PeerState::Connected ==> final(self).host.total_queued
                            == old(self).host.total_queued.wrapping_add(1) && control_queued(
                            p0,
                            final(self).host.peers@[i],
                            ping_command(),
                            final(self).host.total_queued,
                        )
                    }),
                false,
            ),
    {
        match self.peers[id.0].peer() {
            Some(p) => {
                if p.0 < self.host.peers.len() {
                    self.host.ping(p);
                }
            },
            None => {},
        }
    }

    /// Queue `packet` for the peer of `id` on `channel_id` (see [`Host::send`]);
    /// [`PeerSendError::NotConnected`] when the connection has no peer.
    pub fn send(&mut self, id: ConnectionID, channel_id: u8, packet: &Packet) -> (r: Result<(), PeerSendError>)
        requires
            old(self).wf(),
            id.0 < old(self).peers@.len(),
        ensures
            final(self).wf(),
            final(self).peers@.len() == old(self).peers@.len(),
            old(self).peers@[id.0 as int].state is HasPeer || r == Err::<(), PeerSendError>(PeerSendError::NotConnected),
    {
        match self.peers[id.0].peer() {
            Some(p) => {
                if p.0 < self.host.peers.len() {
                    self.host.send(p, channel_id, packet)
                } else {
                    Err(PeerSendError::NotConnected)
                }
            },
            None => Err(PeerSendError::NotConnected),
        }
    }

    /// Apply `settings` to the peer of `id` when it has one (with the throttle parameters
    /// sent to it), else keep them, while the connection waits for its peer, to apply when
    /// it comes.
    fn apply_settings(&mut self, id: ConnectionID, settings: PeerSettings)
        requires
            old(self).wf(),
            id.0 < old(self).peers@.len(),
        ensures
            final(self).wf(),
            final(self).peers@.len() == old(self).peers@.len(),
            settings_applied(*old(self), *final(self), id, settings),
    {
        match self.peers[id.0].peer() {
            Some(p) => {
                if p.0 < self.host.peers.len() {
                    let ghost h0 = self.host;
                    {
                        let peer = &mut self.host.peers[p.0];
                        settings.apply(peer, &mut self.host.total_queued);
                    }
                    proof {
                        lemma_peer_step(h0, self.host, p.0 as int);
                    }
                    assert(settings_applied(*old(self), *self, id, settings));
                }
            },
            None => {
                let ghost c0 = *old(self);
                let slot = &mut self.peers[id.0];
                match slot.settings_mut() {
                    Some(kept) => {
                        let ghost k0 = *kept;
                        if settings.timeout.is_some() {
                            kept.timeout = settings.timeout;
                        }
                        if settings.ping_interval.is_some() {
                            kept.ping_interval = settings.ping_interval;
                        }
                        if settings.throttle.is_some() {
                            kept.throttle = settings.throttle;
                        }
                        if settings.mtu.is_some() {
                            kept.mtu = settings.mtu;
                        }
                        assert(*kept == settings_merged(k0, settings));
                    },
                    None => {},
                }
                proof {
                    assert(c0.peers@[id.0 as int].id == id);
                    assert(!(c0.peers@[id.0 as int].state is AwaitingPeer) ==> self.peers@ =~= c0.peers@);
                }
            },
        }
    }

    /// Set the time out parameters of the peer of `id` (see [`Peer::timeout`]).
    pub fn set_timeout(&mut self, id: ConnectionID, limit: u32, minimum: u32, maximum: u32)
        requires
            old(self).wf(),
            id.0 < old(self).peers@.len(),
        ensures
            final(self).wf(),
            final(self).peers@.len() == old(self).peers@.len(),
            settings_applied(*old(self), *final(self), id, (PeerSettings { timeout: Some((limit, minimum, maximum)), ping_interval: None, throttle: None, mtu: None })),
    {
        self.apply_settings(id, PeerSettings { timeout: Some((limit, minimum, maximum)), ping_interval: None, throttle: None, mtu: None });
    }

    /// Set the ping interval of the peer of `id` (see [`Peer::ping_interval`]).
    pub fn set_ping_interval(&mut self, id: ConnectionID, ping_interval: u32)
        requires
            old(self).wf(),
            id.0 < old(self).peers@.len(),
        ensures
            final(self).wf(),
            final(self).peers@.len() == old(self).peers@.len(),
            settings_applied(*old(self), *final(self), id, (PeerSettings { timeout: None, ping_interval: Some(ping_interval), throttle: None, mtu: None })),
    {
        self.apply_settings(id, PeerSettings { timeout: None, ping_interval: Some(ping_interval), throttle: None, mtu: None });
    }

    /// Set the throttle parameters of the peer of `id` (see [`Peer::throttle_configure`]).
    pub fn set_throttle(&mut self, id: ConnectionID, interval: u32, acceleration: u32, deceleration: u32)
        requires
            old(self).wf(),
            id.0 < old(self).peers@.len(),
        ensures
            final(self).wf(),
            final(self).peers@.len() == old(self).peers@.len(),
            settings_applied(*old(self), *final(self), id, (PeerSettings { timeout: None, ping_interval: None, throttle: Some((interval, acceleration, deceleration)), mtu: None })),
    {
        self.apply_settings(id, PeerSettings { timeout: None, ping_interval: None, throttle: Some((interval, acceleration, deceleration)), mtu: None });
    }

    /// Set the MTU of the peer of `id`. Returns a [`BadParameter`] when `mtu` is out of the
    /// protocol's bounds.
    pub fn set_mtu(&mut self, id: ConnectionID, mtu: u16) -> (r: Result<(), BadParameter>)
        requires
            old(self).wf(),
            id.0 < old(self).peers@.len(),
        ensures
            final(self).wf(),
            final(self).peers@.len() == old(self).peers@.len(),
            (mtu < PROTOCOL_MINIMUM_MTU || mtu > PROTOCOL_MAXIMUM_MTU) <==> r is Err,
            r is Err ==> r == Err::<(), BadParameter>(BadParameter { method: "ConnectedPeer::set_mtu", parameter: "mtu" }),
            r is Err ==> *final(self) == *old(self),
            r is Ok ==> settings_applied(*old(self), *final(self), id, (PeerSettings { timeout: None, ping_interval: None, throttle: None, mtu: Some(mtu) })),
    {
        if (mtu as usize) > PROTOCOL_MAXIMUM_MTU || (mtu as usize) < PROTOCOL_MINIMUM_MTU {
            return Err(BadParameter { method: "ConnectedPeer::set_mtu", parameter: "mtu" });
        }
        self.apply_settings(id, PeerSettings { timeout: None, ping_interval: None, throttle: None, mtu: Some(mtu) });
        Ok(())
    }

    /// The MTU of the peer of `id`, or of the one it last had; 0 when there is none.
    pub fn mtu(&self, id: ConnectionID) -> (m: u16)
        requires
            id.0 < self.peers@.len(),
        ensures
            match known_peer(self.peers@[id.0 as int].state) {
                Some(p) => p.0 < self.host.peers@.len() ==> m == self.host.peers@[p.0 as int].mtu as u16,
                None => m == 0,
            },
    {
        match self.peers[id.0].peer_or_last_peer() {
            Some(p) => {
                if p.0 < self.host.peers.len() {
                    #[verifier::truncate] (self.host.peers[p.0].mtu as u16)
                } else {
                    0
                }
            },
            None => 0,
        }
    }

    /// The state of the peer of `id`, or of the one it last had; disconnected when there
    /// is none.
    pub fn state(&self, id: ConnectionID) -> (s: PeerState)
        requires
            id.0 < self.peers@.len(),
        ensures
            match known_peer(self.peers@[id.0 as int].state) {
                Some(p) => p.0 < self.host.peers@.len() ==> s == self.host.peers@[p.0 as int].state,
                None => s == PeerState::Disconnected,
            },
    {
        match self.peers[id.0].peer_or_last_peer() {
            Some(p) => {
                if p.0 < self.host.peers.len() {
                    self.host.peers[p.0].state
                } else {
                    PeerState::Disconnected
                }
            },
            None => PeerState::Disconnected,
        }
    }

    /// Dispatch one waiting event of the ENet host, at time `now`, as an event of its
    /// connection.
    pub fn check_events(&mut self, now: u64) -> (r: Option<EventNoRef>)
        requires
            old(self).wf(),
        ensures
            final(self).wf(),
            final(self).peers@.len() == old(self).peers@.len(),
            exists|hm: ConnectedHost<C>, e: Option<Event>|
                #[trigger] events_checked(old(self).host, hm.host, e) && hm == (ConnectedHost { host: hm.host, ..*old(self) })
                    && match e {
                    None => r is None && *final(self) == hm,
                    Some(ev) => event_handled(hm, *final(self), ev, now, r),
                },
    {
        let e = self.host.check_events();
        let ghost hm = *self;
        match e {
            Some(event) => self.handle_event(event, now),
            None => None,
        }
    }

    /// Send what the ENet host has queued, at time `now`.
    pub fn flush(&mut self, now: u64)
        requires
            old(self).wf(),
        ensures
            final(self).wf(),
            final(self).peers@.len() == old(self).peers@.len(),
            final(self).peers@ == old(self).peers@,
            final(self).next_generation == old(self).next_generation,
            final(self).host.service_time == now % 0xffff_ffff,
            final(self).host.peers@.len() == old(self).host.peers@.len(),
            forall|j: int|
                0 <= j < old(self).host.peers@.len() && (old(self).host.peers@[j].state == PeerState::Disconnected
                    || old(self).host.peers@[j].state == PeerState::Zombie) ==> #[trigger] final(self).host.peers@[j]
                    == old(self).host.peers@[j],
            (forall|j: int|
                0 <= j < old(self).host.peers@.len() && !(old(self).host.peers@[j].state == PeerState::Disconnected
                    || old(self).host.peers@[j].state == PeerState::Zombie) ==> sends_nothing(
                    #[trigger] old(self).host.peers@[j],
                    (now % 0xffff_ffff) as u32,
                    false,
                )) ==> forall|j: int|
                0 <= j < old(self).host.peers@.len() ==> #[trigger] final(self).host.peers@[j] == passed_over(
                    old(self).host.peers@[j],
                ),
            final(self).host.addresses == old(self).host.addresses,
            sent_to_live_peers(old(self).host, final(self).host, (now % 0xffff_ffff) as u32),
    {
        self.host.flush(&mut self.socket, enet_time(now));
    }

    /// Service the host at time `now` (milliseconds): a connection that waited past its
    /// time out is freed and its disconnection returned; a draining connection that has
    /// not sent for [`CONNECTION_LINGER`] is freed; each connection's received datagram
    /// is handed to the ENet host, and a connection that fails to receive is reset and its
    /// disconnection returned. Then the datagrams the ENet host sent are forwarded over
    /// their connections (a live connection that fails to send is disconnected), and the
    /// ENet host is serviced; its first event is returned as one of its connection.
    pub fn service(&mut self, now: u64) -> (r: Option<EventNoRef>)
        requires
            old(self).wf(),
        ensures
            final(self).wf(),
            final(self).peers@.len() == old(self).peers@.len(),
            forall|e: int|
                0 <= e < old(self).peers@.len() && #[trigger] awaiting_expired(old(self).peers@[e].state, now) ==> (
                r matches Some(EventNoRef::Disconnect { peer, data }) && data == 0 && peer.0 <= e
                    && final(self).peers@[peer.0 as int].state is Disconnected),
    {
        let mut i: usize = 0;
        while i < self.peers.len()
            invariant
                self.wf(),
                self.peers@.len() == old(self).peers@.len(),
                i <= self.peers@.len(),
                forall|j: int| i <= j < self.peers@.len() ==> #[trigger] self.peers@[j] == old(self).peers@[j],
                forall|k: int| 0 <= k < i ==> !awaiting_expired(#[trigger] old(self).peers@[k].state, now),
            decreases self.peers@.len() - i,
        {
            let expired = match &self.peers[i].state {
                ConnectionState::AwaitingPeer { since, timeout, .. } => since.saturating_add(*timeout) < now,
                _ => false,
            };
            assert(self.peers@[i as int] == old(self).peers@[i as int]);
            assert(expired == awaiting_expired(old(self).peers@[i as int].state, now));
            if expired {
                self.free(i, None);
                return Some(EventNoRef::Disconnect { peer: ConnectionID(i), data: 0 });
            }
            let drained = match &self.peers[i].state {
                ConnectionState::Disconnecting { last_send, last_peer, .. } => if last_send.saturating_add(
                    CONNECTION_LINGER,
                ) < now {
                    Some(*last_peer)
                } else {
                    None
                },
                _ => None,
            };
            match drained {
                Some(last_peer) => {
                    self.free(i, last_peer);
                },
                None => {},
            }
            let mut buffer = [0u8; 4096];
            let received = self.peers[i].receive_from_connection(&mut buffer);
            match received {
                Some(Ok(Some(PacketReceived::Complete(size)))) => {
                    if size <= 4096 {
                        match self.peers[i].address() {
                            Some(address) => {
                                let data = copy_range(buffer.as_slice(), 0, size);
                                self.socket.write(address, data);
                            },
                            None => {},
                        }
                    }
                },
                Some(Err(())) => {
                    self.reset(ConnectionID(i));
                    return Some(EventNoRef::Disconnect { peer: ConnectionID(i), data: 0 });
                },
                _ => {},
            }
            i = i + 1;
        }
        assert(forall|e: int| 0 <= e < old(self).peers@.len() ==> !awaiting_expired(#[trigger] old(self).peers@[e].state, now));
        let mut pending: Vec<(Address<C::Address>, Vec<u8>)> = Vec::new();
        std::mem::swap(&mut pending, &mut self.socket.outbound);
        let mut k: usize = 0;
        while k < pending.len()
            invariant
                self.wf(),
                self.peers@.len() == old(self).peers@.len(),
            decreases pending@.len() - k,
        {
            let slot = pending[k].0.id.0;
            let generation = pending[k].0.generation;
            if slot < self.peers.len() {
                let failed = self.peers[slot].forward(generation, pending[k].1.as_slice(), now);
                if failed {
                    self.disconnect(ConnectionID(slot), 0, now);
                }
            }
            k = k + 1;
        }
        match self.host.service(&mut self.socket, enet_time(now)) {
            Ok(Some(event)) => self.handle_event(event, now),
            _ => None,
        }
    }
}

} // verus!
