use rusty_enet::crc32::crc32;
use rusty_enet::os::{htonl, htons, ntohl, ntohs};
use rusty_enet::packet::{Packet, PacketKind, PACKET_FLAG_NO_ALLOCATE, PACKET_FLAG_RELIABLE};
use rusty_enet::protocol::enet_protocol_command_size;
use rusty_enet::socket::{received_length, PacketReceived, SocketOptions};
use rusty_enet::list::{enet_list_clear, ENetList, ENetListNode};
use rusty_enet::version::Version;

#[test]
fn version_is_1_3_18() {
    let v = Version::current();
    assert_eq!((v.major, v.minor, v.patch), (1, 3, 18));
}

#[test]
fn byte_order_round_trips() {
    assert_eq!(ntohs(htons(0x1234)), 0x1234);
    assert_eq!(ntohl(htonl(0x12345678)), 0x12345678);
    assert_eq!(htons(0x1234).to_ne_bytes(), [0x12, 0x34]);
    assert_eq!(htonl(0x12345678).to_ne_bytes(), [0x12, 0x34, 0x56, 0x78]);
}

#[test]
fn crc32_of_check_string() {
    let c = crc32(vec!["123456789".as_bytes()]);
    assert_eq!(c.to_ne_bytes(), 0xCBF43926u32.to_be_bytes());
    let split = crc32(vec!["1234".as_bytes(), "56789".as_bytes()]);
    assert_eq!(split, c);
    assert_eq!(crc32(vec![]).to_ne_bytes(), 0u32.to_be_bytes());
}

#[test]
fn command_sizes() {
    let sizes: Vec<usize> = (0u8..13).map(enet_protocol_command_size).collect();
    assert_eq!(sizes, vec![0, 8, 48, 44, 8, 4, 6, 8, 24, 8, 12, 16, 24]);
    assert_eq!(enet_protocol_command_size(0x80 | 6), 6);
}

#[test]
fn packet_kinds() {
    let p = Packet::reliable("hello world".as_bytes());
    assert_eq!(p.data(), "hello world".as_bytes());
    assert_eq!(p.kind(), PacketKind::Reliable);
    assert_eq!(p.flags(), PACKET_FLAG_RELIABLE | PACKET_FLAG_NO_ALLOCATE);
    assert_eq!(Packet::unreliable(vec![1u8]).kind(), PacketKind::Unreliable { sequenced: true });
    assert_eq!(
        Packet::unreliable_unsequenced(vec![1u8]).kind(),
        PacketKind::Unreliable { sequenced: false }
    );
    assert_eq!(
        Packet::always_unreliable(vec![1u8]).kind(),
        PacketKind::AlwaysUnreliable { sequenced: true }
    );
    assert_eq!(
        Packet::always_unreliable_unsequenced(vec![1u8]).kind(),
        PacketKind::AlwaysUnreliable { sequenced: false }
    );
    let mut sent = Packet::reliable(vec![1u8, 2, 3]);
    sent.mark_sent();
    assert_eq!(sent.kind(), PacketKind::Reliable);
}

#[test]
fn packet_write_at_stops_at_end() {
    let mut p = Packet::from_raw(vec![0u8; 5], 0);
    p.write_at(3, &[7, 8, 9]);
    assert_eq!(p.data(), &[0, 0, 0, 7, 8]);
    assert_eq!(p.data_length(), 5);
}

#[test]
fn received_datagrams() {
    assert_eq!(received_length(PacketReceived::Complete(100)), Some(100));
    assert_eq!(received_length(PacketReceived::Complete(4097)), None);
    assert_eq!(received_length(PacketReceived::Partial), None);
    let o = SocketOptions::host_defaults();
    assert_eq!((o.receive_buffer, o.send_buffer), (256 * 1024, 256 * 1024));
}

#[test]
fn lists() {
    let n = ENetListNode::zeroed();
    assert_eq!((n.next, n.previous), (None, None));
    let mut l: ENetList<u8> = ENetList::new();
    l.items.push(3);
    enet_list_clear(&mut l);
    assert!(l.items.is_empty());
}

#[test]
fn packet_from_boxed_bytes_and_its_clone_carry_the_data() {
    let boxed: Box<[u8]> = vec![7u8, 8, 9].into_boxed_slice();
    let p = Packet::reliable(boxed);
    let q = p.clone();
    assert_eq!(q.data(), &[7u8, 8, 9][..]);
    assert_eq!(q.kind(), PacketKind::Reliable);
}

#[test]
fn bad_parameter_message_names_parameter_and_method() {
    let e = rusty_enet::error::BadParameter { method: "Host::new", parameter: "settings.peer_limit" };
    assert_eq!(e.message(), "A bad parameter (settings.peer_limit) was passed to Host::new");
}
