use rusty_enet::compressor::RangeCoder;
use rusty_enet::address::{Address, SocketAddress};
use rusty_enet::error::{BadParameter, NoAvailablePeers};
use rusty_enet::host::{Host, HostSettings};
use rusty_enet::peer::{PeerID, PeerState};
use rusty_enet::protocol::{decode_command, encode_command, parse_header, encode_header, Command, ProtocolCommand};

fn settings(peer_limit: usize) -> HostSettings<RangeCoder> {
    let mut s = HostSettings::<RangeCoder>::default();
    s.peer_limit = peer_limit;
    s.seed = Some(1);
    s
}

fn address(port: u16) -> SocketAddress {
    SocketAddress::V4 { ip: 0x0a00_0001, port }
}

#[test]
fn host_new_rejects_bad_settings() {
    let mut s = settings(1);
    s.channel_limit = 0;
    assert_eq!(
        Host::<SocketAddress, RangeCoder>::new(s, 0).err(),
        Some(BadParameter { method: "Host::new", parameter: "settings.channel_limit" })
    );
    let mut s = settings(1);
    s.incoming_bandwidth_limit = Some(0);
    assert_eq!(
        Host::<SocketAddress, RangeCoder>::new(s, 0).err(),
        Some(BadParameter { method: "Host::new", parameter: "settings.incoming_bandwidth_limit" })
    );
    let mut s = settings(1);
    s.outgoing_bandwidth_limit = Some(0);
    assert_eq!(
        Host::<SocketAddress, RangeCoder>::new(s, 0).err(),
        Some(BadParameter { method: "Host::new", parameter: "settings.outgoing_bandwidth_limit" })
    );
}

#[test]
fn host_new_takes_any_peer_limit() {
    let host = Host::<SocketAddress, RangeCoder>::new(settings(0), 0).unwrap();
    assert_eq!(host.peer_limit(), 0);
    let host = Host::<SocketAddress, RangeCoder>::new(settings(4096), 0).unwrap();
    assert_eq!(host.peer_limit(), 4096);
    assert_eq!(host.peers[4095].incoming_peer_id, 4095);
}

#[test]
fn new_host_has_reset_peers() {
    let host = Host::<SocketAddress, RangeCoder>::new(settings(3), 0).unwrap();
    assert_eq!(host.peer_limit(), 3);
    assert_eq!(host.channel_limit(), 255);
    assert_eq!(host.bandwidth_limit(), (None, None));
    assert_eq!(host.mtu(), 1392);
    assert_eq!(host.connected_peers, 0);
    for (i, p) in host.peers.iter().enumerate() {
        assert_eq!(p.index, PeerID(i));
        assert_eq!(p.state, PeerState::Disconnected);
        assert_eq!(p.round_trip_time, 500);
    }
    assert!(host.get_peer(PeerID(3)).is_none());
}

#[test]
fn limits_are_checked() {
    let mut host = Host::<SocketAddress, RangeCoder>::new(settings(1), 0).unwrap();
    assert_eq!(
        host.set_channel_limit(0),
        Err(BadParameter { method: "Host::set_channel_limit", parameter: "channel_limit" })
    );
    assert_eq!(host.set_channel_limit(1000), Ok(()));
    assert_eq!(host.channel_limit(), 255);
    assert_eq!(host.set_channel_limit(3), Ok(()));
    assert_eq!(host.channel_limit(), 3);
    assert!(host.set_bandwidth_limit(Some(0), None).is_err());
    assert!(host.set_bandwidth_limit(None, Some(0)).is_err());
    assert_eq!(host.set_bandwidth_limit(Some(1000), None), Ok(()));
    assert_eq!(host.bandwidth_limit(), (Some(1000), None));
    assert_eq!(host.set_mtu(100), Err(BadParameter { method: "Host::set_mtu", parameter: "mtu" }));
    assert_eq!(host.set_mtu(4097), Err(BadParameter { method: "Host::set_mtu", parameter: "mtu" }));
    assert_eq!(host.set_mtu(1000), Ok(()));
    assert_eq!(host.mtu(), 1000);
}

#[test]
fn connect_uses_free_peers_until_none_is_left() {
    let mut host = Host::<SocketAddress, RangeCoder>::new(settings(2), 0).unwrap();
    assert_eq!(host.connect(address(1), 2, 9), Ok(PeerID(0)));
    assert_eq!(host.peers[0].state, PeerState::Connecting);
    assert_eq!(host.peers[0].channels.len(), 2);
    assert_eq!(host.addresses[0], Some(address(1)));
    assert_eq!(host.peers[0].outgoing_commands.len() + host.peers[0].outgoing_send_reliable_commands.len(), 1);
    assert_eq!(host.connect(address(2), 0, 9), Ok(PeerID(1)));
    assert_eq!(host.peers[1].channels.len(), 1);
    assert_eq!(host.connect(address(3), 1, 9), Err(NoAvailablePeers));
}

#[test]
fn bandwidth_throttle_waits_for_the_interval() {
    let mut host = Host::<SocketAddress, RangeCoder>::new(settings(1), 0).unwrap();
    host.bandwidth_throttle(999);
    assert_eq!(host.bandwidth_throttle_epoch, 0);
    host.bandwidth_throttle(1000);
    assert_eq!(host.bandwidth_throttle_epoch, 1000);
}

#[test]
fn socket_addresses() {
    let a = SocketAddress::V4 { ip: 0x7f00_0001, port: 1 };
    let b = SocketAddress::V4 { ip: 0x7f00_0001, port: 2 };
    let c = SocketAddress::V6 { ip: 0x7f00_0001, port: 1, flowinfo: 0, scope_id: 0 };
    assert!(a.same_host(&b));
    assert!(!a.same(&b));
    assert!(a.same(&a));
    assert!(!a.same_host(&c));
    assert!(!a.is_broadcast());
    assert!(SocketAddress::V4 { ip: 0xffff_ffff, port: 9 }.is_broadcast());
    assert!(!SocketAddress::V6 { ip: u128::MAX, port: 9, flowinfo: 0, scope_id: 0 }.is_broadcast());
}

#[test]
fn command_bytes_round_trip() {
    let pc = ProtocolCommand {
        command: 10 | 0x80,
        channel_id: 0xff,
        reliable_sequence_number: 0x1234,
        body: Command::BandwidthLimit { incoming_bandwidth: 5, outgoing_bandwidth: 0x0102_0304 },
    };
    let mut bytes = Vec::new();
    encode_command(&pc, &mut bytes);
    assert_eq!(bytes, vec![0x8a, 0xff, 0x12, 0x34, 0, 0, 0, 5, 1, 2, 3, 4]);
    bytes.push(99);
    assert_eq!(decode_command(&bytes, 0), Some((pc, 12)));
    assert_eq!(decode_command(&bytes[..11], 0), None);
}

#[test]
fn header_bytes_round_trip() {
    let mut bytes = Vec::new();
    encode_header(7, 0x8000, 2, 0x1_2345, &mut bytes);
    assert_eq!(bytes, vec![0xa0, 0x07, 0x23, 0x45]);
    let h = parse_header(&bytes, false).unwrap();
    assert_eq!((h.peer_id, h.session_id, h.sent_time, h.header_size), (7, 2, 0x2345, 4));
    assert!(parse_header(&bytes[..1], false).is_none());
}

/// A compressor of the user's own that never finds a shorter form, counting its calls.
struct Declining {
    calls: std::rc::Rc<std::cell::Cell<usize>>,
}

impl rusty_enet::compressor::Compressor for Declining {
    fn compress(&mut self, _in_buffers: Vec<&[u8]>, _in_limit: usize, _out: &mut [u8]) -> usize {
        self.calls.set(self.calls.get() + 1);
        0
    }

    fn decompress(&mut self, _in_data: &[u8], _out: &mut [u8]) -> usize {
        0
    }
}

#[test]
fn a_host_takes_a_compressor_of_the_users_own() {
    let calls = std::rc::Rc::new(std::cell::Cell::new(0));
    let mut s = HostSettings::<Declining>::default();
    s.peer_limit = 1;
    s.seed = Some(1);
    s.compressor = Some(Declining { calls: calls.clone() });
    let mut host: Host<SocketAddress, Declining> = Host::new(s, 0).unwrap();
    host.connect(address(9), 1, 0).unwrap();
    let mut socket = rusty_enet::read_write::ReadWrite::<SocketAddress>::new();
    host.flush(&mut socket, 1);
    assert!(calls.get() > 0);
    let (to, bytes) = socket.read().unwrap();
    assert_eq!(to, address(9));
    let header = parse_header(&bytes, false).unwrap();
    assert_eq!(header.flags & rusty_enet::protocol::PROTOCOL_HEADER_FLAG_COMPRESSED, 0);
}

/// A connect datagram from a host at port 9 to a host at port 7, its header size, and
/// the datagram marked as compressed.
fn connect_datagram() -> (Vec<u8>, usize, Vec<u8>) {
    let mut a = Host::<SocketAddress, RangeCoder>::new(settings(1), 0).unwrap();
    a.connect(address(7), 1, 0).unwrap();
    let mut socket = rusty_enet::read_write::ReadWrite::<SocketAddress>::new();
    a.flush(&mut socket, 1);
    let (_, bytes) = socket.read().unwrap();
    let hs = parse_header(&bytes, false).unwrap().header_size;
    let mut marked = bytes.clone();
    marked[0] |= 0x40;
    (bytes, hs, marked)
}

#[test]
fn a_decompressed_datagram_is_handled_as_its_plain_bytes() {
    let (bytes, hs, marked) = connect_datagram();
    let mut b = Host::<SocketAddress, RangeCoder>::new(settings(1), 0).unwrap();
    let body = bytes[hs..].to_vec();
    assert!(b.handle_datagram(address(9), &marked, body.len(), &body).is_none());
    assert_eq!(b.peers[0].state, PeerState::AcknowledgingConnect);
    let mut plain = Host::<SocketAddress, RangeCoder>::new(settings(1), 0).unwrap();
    assert!(plain.handle_incoming_commands(address(9), &bytes).is_none());
    assert_eq!(plain.peers[0].state, PeerState::AcknowledgingConnect);
}

#[test]
fn a_compressed_datagram_that_does_not_decompress_is_dropped() {
    let (bytes, hs, marked) = connect_datagram();
    let body = bytes[hs..].to_vec();
    for (unpacked, out) in [(0usize, body.clone()), (body.len() + 1, body.clone()), (5000, vec![0u8; 5000])] {
        let mut b = Host::<SocketAddress, RangeCoder>::new(settings(1), 0).unwrap();
        assert!(b.handle_datagram(address(9), &marked, unpacked, &out).is_none());
        assert_eq!(b.peers[0].state, PeerState::Disconnected);
    }
    let mut declining = HostSettings::<Declining>::default();
    declining.peer_limit = 1;
    declining.compressor = Some(Declining { calls: std::rc::Rc::new(std::cell::Cell::new(0)) });
    let mut b: Host<SocketAddress, Declining> = Host::new(declining, 0).unwrap();
    assert!(b.handle_incoming_commands(address(9), &marked).is_none());
    assert_eq!(b.peers[0].state, PeerState::Disconnected);
    let mut none = Host::<SocketAddress, RangeCoder>::new(settings(1), 0).unwrap();
    assert!(none.handle_incoming_commands(address(9), &marked).is_none());
    assert_eq!(none.peers[0].state, PeerState::Disconnected);
}

#[test]
fn bandwidth_throttle_shares_the_outgoing_bandwidth() {
    let mut s = settings(2);
    s.outgoing_bandwidth_limit = Some(10_000);
    let mut host = Host::<SocketAddress, RangeCoder>::new(s, 0).unwrap();
    for i in 0..2 {
        host.connect(address(20 + i as u16), 1, 0).unwrap();
        host.peers[i].state = PeerState::Connected;
        host.peers[i].incoming_bandwidth = 1_000;
    }
    host.connected_peers = 2;
    host.bandwidth_limited_peers = 2;
    host.peers[0].outgoing_data_total = 4_000;
    host.peers[1].outgoing_data_total = 20_000;
    host.bandwidth_throttle(1000);
    // Over a second the host sends 10000 bytes and its peers would send 24000: a packet
    // throttle of 32 * 10000 / 24000 = 13. Under it peer 0 would send 1625 bytes and peer 1
    // 8125, both more than the 1000 they take in, so each gets a limit in proportion:
    // 1000 * 32 / 4000 = 8 and 1000 * 32 / 20000 = 1.
    assert_eq!(host.peers[0].packet_throttle_limit, 8);
    assert_eq!(host.peers[1].packet_throttle_limit, 1);
    assert_eq!(host.peers[0].outgoing_data_total, 0);
    assert_eq!(host.peers[1].outgoing_data_total, 0);
}
