use std::collections::{HashMap, VecDeque};

use rand::{Rng, SeedableRng};
use rand_chacha::ChaCha20Rng;

use rusty_enet::address::SocketAddress;
use rusty_enet::compressor::RangeCoder;
use rusty_enet::consts::PEER_DEFAULT_ROUND_TRIP_TIME;
use rusty_enet::event::Event;
use rusty_enet::host::{Host, HostSettings};
use rusty_enet::packet::{Packet, PacketKind};
use rusty_enet::error::PeerSendError;
use rusty_enet::peer::{PeerID, PeerState};
use rusty_enet::socket::{PacketReceived, Socket, SocketOptions};

/// The address of host `index` on the simulated network: a port of the loopback address.
fn slot(index: usize) -> SocketAddress {
    SocketAddress::V4 { ip: 0x7f00_0001, port: index as u16 }
}

/// The index of the host at `address` on the simulated network.
fn index_of(address: SocketAddress) -> usize {
    match address {
        SocketAddress::V4 { port, .. } => port as usize,
        SocketAddress::V6 { .. } => unreachable!(),
    }
}

/// A host's end of the simulated network: what it sent, and what waits for it.
#[derive(Default)]
struct Wire {
    outbox: Vec<(usize, Vec<u8>)>,
    inbox: VecDeque<(usize, Vec<u8>)>,
}

#[derive(Debug)]
struct WireError;

impl Socket for Wire {
    type PeerAddress = SocketAddress;
    type Error = WireError;

    fn init(&mut self, _socket_options: SocketOptions) -> Result<(), WireError> {
        Ok(())
    }

    fn send(&mut self, address: SocketAddress, buffer: &[u8]) -> Result<usize, WireError> {
        self.outbox.push((index_of(address), buffer.to_vec()));
        Ok(buffer.len())
    }

    fn receive(&mut self, buffer: &mut [u8; 4096]) -> Result<Option<(SocketAddress, PacketReceived)>, WireError> {
        match self.inbox.pop_front() {
            Some((from, data)) => {
                buffer[..data.len()].copy_from_slice(&data);
                Ok(Some((slot(from), PacketReceived::Complete(data.len()))))
            }
            None => Ok(None),
        }
    }
}

/// Conditions between two hosts: the round trip time of a datagram, give or take the
/// variance, and the chance that it is lost.
#[derive(Debug, Clone, Copy)]
struct NetworkConditions {
    round_trip_time: u32,
    round_trip_time_variance: u32,
    loss_chance: f32,
}

impl NetworkConditions {
    fn perfect() -> Self {
        NetworkConditions { round_trip_time: 0, round_trip_time_variance: 0, loss_chance: 0. }
    }

    fn disconnected() -> Self {
        NetworkConditions { round_trip_time: 0, round_trip_time_variance: 0, loss_chance: 1. }
    }
}

struct InFlight {
    send_time: u32,
    from: usize,
    to: usize,
    data: Vec<u8>,
}

#[derive(Debug)]
struct NetEvent {
    from: usize,
    to: usize,
    event: Event,
}

struct Network {
    rng: ChaCha20Rng,
    wires: Vec<Wire>,
    hosts: Vec<Host<SocketAddress, RangeCoder>>,
    in_flight: Vec<InFlight>,
    conditions: HashMap<(usize, usize), NetworkConditions>,
    connections: HashMap<(usize, usize), PeerID>,
    time: u32,
}

impl Network {
    fn new() -> Self {
        Network {
            rng: ChaCha20Rng::seed_from_u64(0),
            wires: Vec::new(),
            hosts: Vec::new(),
            in_flight: Vec::new(),
            conditions: HashMap::new(),
            connections: HashMap::new(),
            time: 0,
        }
    }

    fn create_host(&mut self, peer_limit: usize) -> usize {
        let mut settings = HostSettings::<RangeCoder>::default();
        settings.peer_limit = peer_limit;
        self.create_host_with(settings)
    }

    fn create_host_with(&mut self, mut settings: HostSettings<RangeCoder>) -> usize {
        settings.seed = Some(0);
        let mut wire = Wire::default();
        wire.init(SocketOptions::host_defaults()).unwrap();
        self.wires.push(wire);
        self.hosts.push(Host::new(settings, 0).unwrap());
        self.hosts.len() - 1
    }

    fn send_and_receive(&mut self, time: u32) {
        for from in 0..self.wires.len() {
            let sent: Vec<(usize, Vec<u8>)> = self.wires[from].outbox.drain(..).collect();
            for (to, data) in sent {
                if let Some(conditions) = self.conditions.get(&(to, from)).copied() {
                    if self.rng.gen_bool(1. - conditions.loss_chance as f64) {
                        let variance = conditions.round_trip_time_variance as i32;
                        let delay = (conditions.round_trip_time as i32
                            + self.rng.gen_range(-variance..=variance))
                        .max(0) as u32;
                        self.in_flight.push(InFlight { send_time: time + delay, from, to, data });
                    }
                }
            }
        }
        let mut waiting = Vec::new();
        for packet in self.in_flight.drain(..) {
            if time >= packet.send_time {
                self.wires[packet.to].inbox.push_back((packet.from, packet.data));
            } else {
                waiting.push(packet);
            }
        }
        self.in_flight = waiting;
    }

    /// Update `frames` frames of 1 ms each, and return the events of the hosts.
    fn update(&mut self, frames: usize) -> Vec<NetEvent> {
        let mut events = Vec::new();
        for _ in 0..frames {
            let now = self.time;
            for host_index in 0..self.hosts.len() {
                loop {
                    self.send_and_receive(now);
                    let event = self.hosts[host_index]
                        .service(&mut self.wires[host_index], now)
                        .unwrap();
                    let Some(event) = event else {
                        break;
                    };
                    let peer = match &event {
                        Event::Connect { peer, .. } => *peer,
                        Event::Disconnect { peer, .. } => *peer,
                        Event::Receive { peer, .. } => *peer,
                    };
                    let peer_index = index_of(self.hosts[host_index].addresses[peer.0].unwrap());
                    match &event {
                        Event::Connect { .. } => {
                            self.connections.insert((host_index, peer_index), peer);
                        }
                        Event::Disconnect { .. } => {
                            self.conditions.remove(&(host_index, peer_index));
                            self.connections.remove(&(host_index, peer_index));
                        }
                        Event::Receive { .. } => {}
                    }
                    events.push(NetEvent { from: peer_index, to: host_index, event });
                }
            }
            self.time = self.time.wrapping_add(1);
        }
        events
    }

    fn connect(&mut self, from: usize, to: usize, channel_count: usize, data: u32) {
        self.hosts[from].connect(slot(to), channel_count, data).unwrap();
        self.conditions(from, to, NetworkConditions::perfect());
    }

    fn conditions(&mut self, host1: usize, host2: usize, conditions: NetworkConditions) {
        self.conditions.insert((host1, host2), conditions);
        self.conditions.insert((host2, host1), conditions);
    }

    fn send(&mut self, from: usize, to: usize, channel_id: u8, packet: &Packet) {
        let peer = self.connections[&(from, to)];
        self.hosts[from].send(peer, channel_id, packet).unwrap();
    }

    fn disconnect(&mut self, from: usize, to: usize, data: u32) {
        let peer = self.connections[&(from, to)];
        let time = self.time;
        self.hosts[from].disconnect(&mut self.wires[from], time, peer, data);
    }
}

fn is_connect(e: &NetEvent, from: usize, to: usize, peer: PeerID, data: u32) -> bool {
    matches!(&e.event, Event::Connect { peer: p, data: d } if *p == peer && *d == data)
        && e.from == from
        && e.to == to
}

fn received(e: &NetEvent) -> Option<(usize, usize, u8, &Packet)> {
    match &e.event {
        Event::Receive { channel_id, packet, .. } => Some((e.from, e.to, *channel_id, packet)),
        _ => None,
    }
}

fn disconnect_of(e: &NetEvent) -> Option<(usize, usize, u32)> {
    match &e.event {
        Event::Disconnect { data, .. } => Some((e.from, e.to, *data)),
        _ => None,
    }
}

#[test]
fn events() {
    let mut network = Network::new();
    let host1 = network.create_host(1);
    let host2 = network.create_host(1);

    network.connect(host1, host2, 255, 5);
    network.update(1);
    let events = network.update(1);
    assert_eq!(events.len(), 2);
    assert!(is_connect(&events[0], host2, host1, PeerID(0), 0));
    assert!(is_connect(&events[1], host1, host2, PeerID(0), 5));

    network.send(host1, host2, 0, &Packet::reliable("hello world".as_bytes()));
    let events = network.update(1);
    assert_eq!(events.len(), 1);
    let (from, to, channel_id, packet) = received(&events[0]).unwrap();
    assert_eq!((from, to, channel_id), (host1, host2, 0));
    assert_eq!(packet.data().len(), 11);
    assert_eq!(packet.kind(), PacketKind::Reliable);

    network.disconnect(host1, host2, 10);
    let events = network.update(1);
    assert_eq!(events.len(), 1);
    assert_eq!(disconnect_of(&events[0]), Some((host1, host2, 10)));
    let events = network.update(1);
    assert_eq!(events.len(), 1);
    assert_eq!(disconnect_of(&events[0]), Some((host2, host1, 0)));
}

#[test]
fn resend_reliable_packet() {
    let mut network = Network::new();
    let host1 = network.create_host(1);
    let host2 = network.create_host(1);

    network.connect(host1, host2, 255, 5);
    network.update(2);

    network.send(host1, host2, 0, &Packet::reliable("reliable".as_bytes()));
    network.send(host1, host2, 0, &Packet::unreliable("unreliable".as_bytes()));
    let events = network.update(1);
    assert_eq!(events.len(), 2);
    let (from, to, channel_id, packet) = received(&events[0]).unwrap();
    assert_eq!((from, to, channel_id), (host1, host2, 0));
    assert_eq!(packet.data(), "reliable".as_bytes());
    let (from, to, channel_id, packet) = received(&events[1]).unwrap();
    assert_eq!((from, to, channel_id), (host1, host2, 0));
    assert_eq!(packet.data(), "unreliable".as_bytes());

    network.conditions(host1, host2, NetworkConditions::disconnected());
    network.send(host1, host2, 0, &Packet::reliable("reliable1".as_bytes()));
    network.send(host1, host2, 0, &Packet::reliable("reliable2".as_bytes()));
    network.send(host1, host2, 0, &Packet::unreliable("unreliable".as_bytes()));
    let events = network.update(1);
    assert_eq!(events.len(), 0);
    assert!(events.is_empty());
    network.conditions(host1, host2, NetworkConditions::perfect());
    let events = network.update(PEER_DEFAULT_ROUND_TRIP_TIME as usize - 1);
    assert_eq!(events.len(), 0);

    let events = network.update(1);
    assert_eq!(events.len(), 2);
    let (from, to, channel_id, packet) = received(&events[0]).unwrap();
    assert_eq!((from, to, channel_id), (host1, host2, 0));
    assert_eq!(packet.data(), "reliable1".as_bytes());
    let (from, to, channel_id, packet) = received(&events[1]).unwrap();
    assert_eq!((from, to, channel_id), (host1, host2, 0));
    assert_eq!(packet.data(), "reliable2".as_bytes());
    let events = network.update(10000);
    assert_eq!(events.len(), 0);
}

#[test]
fn timeout() {
    let mut network = Network::new();
    let host1 = network.create_host(1);
    let host2 = network.create_host(1);

    network.connect(host1, host2, 255, 5);
    network.update(2);

    network.conditions(host1, host2, NetworkConditions::disconnected());
    let events = network.update(5614);
    assert_eq!(events.len(), 0);
    let events = network.update(1);
    assert_eq!(events.len(), 1);
    assert_eq!(disconnect_of(&events[0]).map(|d| d.0), Some(0));
    let events = network.update(26383);
    assert_eq!(events.len(), 0);
    let events = network.update(1);
    assert_eq!(events.len(), 1);
    assert_eq!(disconnect_of(&events[0]).map(|d| d.0), Some(1));
}

#[test]
fn large_packet_is_fragmented_and_reassembled() {
    let mut network = Network::new();
    let host1 = network.create_host(1);
    let host2 = network.create_host(1);
    network.connect(host1, host2, 2, 0);
    network.update(2);

    let data: Vec<u8> = (0..10_000u32).map(|i| (i % 251) as u8).collect();
    network.send(host1, host2, 1, &Packet::reliable(data.clone()));
    let events = network.update(5);
    assert_eq!(events.len(), 1);
    let (from, to, channel_id, packet) = received(&events[0]).unwrap();
    assert_eq!((from, to, channel_id), (host1, host2, 1));
    assert_eq!(packet.data(), &data[..]);
    assert_eq!(packet.kind(), PacketKind::Reliable);
}

#[test]
fn checksummed_hosts_talk() {
    let mut network = Network::new();
    let mut settings = HostSettings::<RangeCoder>::default();
    settings.peer_limit = 1;
    settings.checksum = true;
    let host1 = network.create_host_with(settings);
    let mut settings = HostSettings::<RangeCoder>::default();
    settings.peer_limit = 1;
    settings.checksum = true;
    let host2 = network.create_host_with(settings);
    network.connect(host1, host2, 1, 7);
    network.update(1);
    let events = network.update(1);
    assert_eq!(events.len(), 2);
    assert!(is_connect(&events[1], host1, host2, PeerID(0), 7));
    network.send(host1, host2, 0, &Packet::unreliable("ping".as_bytes()));
    let events = network.update(1);
    assert_eq!(events.len(), 1);
    assert_eq!(received(&events[0]).unwrap().3.data(), "ping".as_bytes());
}

#[test]
fn broadcast_reaches_each_connected_peer() {
    let mut network = Network::new();
    let hub = network.create_host(2);
    let a = network.create_host(1);
    let b = network.create_host(1);
    network.connect(a, hub, 1, 0);
    network.connect(b, hub, 1, 0);
    network.update(3);
    network.hosts[hub].broadcast(0, &Packet::reliable("all".as_bytes()));
    let events = network.update(2);
    let mut receivers: Vec<usize> = events
        .iter()
        .filter_map(|e| received(e).map(|(from, to, _, p)| {
            assert_eq!((from, p.data()), (hub, "all".as_bytes()));
            to
        }))
        .collect();
    receivers.sort();
    assert_eq!(receivers, vec![a, b]);
}

#[test]
fn sending_is_refused_as_documented() {
    let mut network = Network::new();
    let host1 = network.create_host(1);
    let host2 = network.create_host(1);
    let packet = Packet::reliable("x".as_bytes());
    assert_eq!(
        network.hosts[host1].send(PeerID(0), 0, &packet),
        Err(PeerSendError::NotConnected)
    );
    network.connect(host1, host2, 1, 0);
    network.update(2);
    let peer = network.connections[&(host1, host2)];
    assert_eq!(network.hosts[host1].send(peer, 1, &packet), Err(PeerSendError::InvalidChannel));
    let too_large = Packet::reliable(vec![0u8; 32 * 1024 * 1024 + 1]);
    assert_eq!(network.hosts[host1].send(peer, 0, &too_large), Err(PeerSendError::PacketTooLarge));
    assert_eq!(network.hosts[host1].send(peer, 0, &packet), Ok(()));
}

#[test]
fn disconnect_now_resets_at_once() {
    let mut network = Network::new();
    let host1 = network.create_host(1);
    let host2 = network.create_host(1);
    network.connect(host1, host2, 1, 0);
    network.update(2);
    let peer = network.connections[&(host1, host2)];
    let time = network.time;
    network.hosts[host1].disconnect_now(&mut network.wires[host1], time, peer, 3);
    assert_eq!(network.hosts[host1].peers[peer.0].state, PeerState::Disconnected);
    assert_eq!(network.hosts[host1].connected_peers, 0);
    let events = network.update(1);
    assert_eq!(events.len(), 1);
    assert_eq!(disconnect_of(&events[0]), Some((host1, host2, 3)));
}

#[test]
fn disconnect_later_waits_for_queued_packets() {
    let mut network = Network::new();
    let host1 = network.create_host(1);
    let host2 = network.create_host(1);
    network.connect(host1, host2, 1, 0);
    network.update(2);
    let peer = network.connections[&(host1, host2)];
    network.send(host1, host2, 0, &Packet::reliable("last".as_bytes()));
    let time = network.time;
    network.hosts[host1].disconnect_later(&mut network.wires[host1], time, peer, 4);
    assert_eq!(network.hosts[host1].peers[peer.0].state, PeerState::DisconnectLater);
    let events = network.update(4);
    let received_then_gone: Vec<bool> = events.iter().map(|e| received(e).is_some()).collect();
    assert_eq!(received_then_gone, vec![true, false, false]);
    assert_eq!(disconnect_of(&events[1]), Some((host1, host2, 4)));
    assert_eq!(disconnect_of(&events[2]).map(|d| (d.0, d.1)), Some((host2, host1)));
}

#[test]
fn compressing_hosts_talk() {
    let mut network = Network::new();
    let mut settings = HostSettings::<RangeCoder>::default();
    settings.peer_limit = 1;
    settings.compressor = Some(RangeCoder::new());
    settings.checksum = true;
    let host1 = network.create_host_with(settings);
    let mut settings = HostSettings::<RangeCoder>::default();
    settings.peer_limit = 1;
    settings.compressor = Some(RangeCoder::new());
    settings.checksum = true;
    let host2 = network.create_host_with(settings);
    network.connect(host1, host2, 1, 0);
    network.update(2);
    let text = "a rather repetitive message, a rather repetitive message, a rather repetitive message";
    network.send(host1, host2, 0, &Packet::reliable(text.as_bytes()));
    let sent_before = network.hosts[host1].total_sent_data;
    let events = network.update(1);
    assert_eq!(events.len(), 1);
    assert_eq!(received(&events[0]).unwrap().3.data(), text.as_bytes());
    let sent = network.hosts[host1].total_sent_data - sent_before;
    assert!(sent < text.len() as u32);
}

#[test]
fn outgoing_bandwidth_is_shared_by_throttling() {
    let mut network = Network::new();
    let mut settings = HostSettings::<RangeCoder>::default();
    settings.peer_limit = 1;
    settings.outgoing_bandwidth_limit = Some(1000);
    let host1 = network.create_host_with(settings);
    let host2 = network.create_host(1);
    network.connect(host1, host2, 1, 0);
    network.update(2);
    for _ in 0..10 {
        network.send(host1, host2, 0, &Packet::reliable(vec![7u8; 1000]));
    }
    network.update(998);
    let before = network.hosts[host1].peers[0].packet_throttle_limit;
    assert_eq!(before, 32);
    network.update(1);
    let peer = &network.hosts[host1].peers[0];
    assert_eq!(network.hosts[host1].bandwidth_throttle_epoch, 1000);
    assert!(peer.packet_throttle_limit < 32);
    assert!(peer.packet_throttle <= peer.packet_throttle_limit);
}

#[test]
fn connected_peers_lists_the_connected_ones() {
    let mut network = Network::new();
    let host1 = network.create_host(2);
    let host2 = network.create_host(2);
    assert!(network.hosts[host1].connected_peers().is_empty());
    network.connect(host1, host2, 255, 5);
    network.update(2);
    assert_eq!(network.hosts[host1].connected_peers(), vec![PeerID(0)]);
    assert_eq!(network.hosts[host2].connected_peers(), vec![PeerID(0)]);
}
