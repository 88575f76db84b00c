use rusty_enet::compressor::RangeCoder;
use std::cell::RefCell;
use std::collections::VecDeque;
use std::rc::Rc;
use std::time::Duration;

use rusty_enet::address::SocketAddress;
use rusty_enet::connected::{Connection, ConnectionID, ConnectionKind, EventNoRef};
use rusty_enet::connected_host::ConnectedHost;
use rusty_enet::error::BadParameter;
use rusty_enet::host::HostSettings;
use rusty_enet::packet::Packet;
use rusty_enet::peer::PeerState;
use rusty_enet::socket::PacketReceived;

type Queue = Rc<RefCell<VecDeque<Vec<u8>>>>;

/// One end of an in-memory stream of datagrams.
struct Pipe {
    port: u16,
    to: Queue,
    from: Queue,
    broken: Rc<RefCell<bool>>,
}

fn pipes() -> (Pipe, Pipe, Rc<RefCell<bool>>) {
    let a: Queue = Rc::default();
    let b: Queue = Rc::default();
    let broken = Rc::new(RefCell::new(false));
    (
        Pipe { port: 1, to: a.clone(), from: b.clone(), broken: broken.clone() },
        Pipe { port: 2, to: b, from: a, broken: broken.clone() },
        broken,
    )
}

impl Connection for Pipe {
    type Address = SocketAddress;
    type Error = ();

    fn init(&mut self) -> Result<SocketAddress, ()> {
        Ok(SocketAddress::V4 { ip: 0x7f00_0001, port: self.port })
    }

    fn send(&mut self, buffer: &[u8]) -> Result<usize, ()> {
        if *self.broken.borrow() {
            return Err(());
        }
        self.to.borrow_mut().push_back(buffer.to_vec());
        Ok(buffer.len())
    }

    fn receive(&mut self, buffer: &mut [u8; 4096]) -> Result<Option<PacketReceived>, ()> {
        if *self.broken.borrow() {
            return Err(());
        }
        match self.from.borrow_mut().pop_front() {
            Some(data) => {
                buffer[..data.len()].copy_from_slice(&data);
                Ok(Some(PacketReceived::Complete(data.len())))
            }
            None => Ok(None),
        }
    }
}

fn settings() -> HostSettings<RangeCoder> {
    let mut s = HostSettings::<RangeCoder>::default();
    s.peer_limit = 2;
    s.seed = Some(3);
    s
}

fn run(a: &mut ConnectedHost<Pipe>, b: &mut ConnectedHost<Pipe>, from: u64, to: u64) -> Vec<(char, EventNoRef)> {
    let mut events = Vec::new();
    for now in from..to {
        while let Some(e) = a.service(now) {
            events.push(('a', e));
        }
        while let Some(e) = b.service(now) {
            events.push(('b', e));
        }
    }
    events
}

#[test]
fn connections_carry_a_session() {
    let mut a: ConnectedHost<Pipe> = ConnectedHost::new(settings(), 0).unwrap();
    let mut b: ConnectedHost<Pipe> = ConnectedHost::new(settings(), 0).unwrap();
    let (pa, pb, _broken) = pipes();
    let ida = a
        .add_connection(ConnectionKind::Initiator { connection: pa, channel_count: 2, data: 5 }, 0)
        .ok()
        .unwrap();
    let idb = b
        .add_connection(ConnectionKind::Receiver { connection: pb, timeout: Duration::from_secs(5) }, 0)
        .ok()
        .unwrap();
    assert_eq!((ida, idb), (ConnectionID(0), ConnectionID(0)));
    let events = run(&mut a, &mut b, 0, 5);
    assert_eq!(events.len(), 2);
    assert!(matches!(events[0], ('a', EventNoRef::Connect { peer: ConnectionID(0), data: 0 })));
    assert!(matches!(events[1], ('b', EventNoRef::Connect { peer: ConnectionID(0), data: 5 })));
    assert_eq!(a.state(ida), PeerState::Connected);
    assert_eq!(b.state(idb), PeerState::Connected);

    a.send(ida, 1, &Packet::reliable("over the pipe".as_bytes())).unwrap();
    let events = run(&mut a, &mut b, 5, 8);
    assert_eq!(events.len(), 1);
    match &events[0] {
        ('b', EventNoRef::Receive { peer: ConnectionID(0), channel_id: 1, packet }) => {
            assert_eq!(packet.data(), "over the pipe".as_bytes());
        }
        other => panic!("unexpected event {:?}", other),
    }

    a.disconnect(ida, 9, 8);
    let events = run(&mut a, &mut b, 8, 12);
    assert_eq!(events.len(), 2);
    assert!(matches!(events[0], ('b', EventNoRef::Disconnect { peer: ConnectionID(0), data: 9 })));
    assert!(matches!(events[1], ('a', EventNoRef::Disconnect { peer: ConnectionID(0), .. })));
}

#[test]
fn a_receiver_gives_up_after_its_time_out() {
    let mut b: ConnectedHost<Pipe> = ConnectedHost::new(settings(), 0).unwrap();
    let (_pa, pb, _broken) = pipes();
    let id = b
        .add_connection(ConnectionKind::Receiver { connection: pb, timeout: Duration::from_millis(100) }, 0)
        .ok()
        .unwrap();
    assert!(b.service(100).is_none());
    assert!(matches!(b.service(101), Some(EventNoRef::Disconnect { peer, data: 0 }) if peer == id));
    assert_eq!(b.state(id), PeerState::Disconnected);
}

#[test]
fn a_broken_connection_is_reset() {
    let mut a: ConnectedHost<Pipe> = ConnectedHost::new(settings(), 0).unwrap();
    let (pa, _pb, broken) = pipes();
    let id = a
        .add_connection(ConnectionKind::Initiator { connection: pa, channel_count: 1, data: 0 }, 0)
        .ok()
        .unwrap();
    *broken.borrow_mut() = true;
    assert!(matches!(a.service(1), Some(EventNoRef::Disconnect { peer, data: 0 }) if peer == id));
    assert!(a.peers[0].is_free());
}

#[test]
fn slots_run_out() {
    let mut a: ConnectedHost<Pipe> = ConnectedHost::new(settings(), 0).unwrap();
    for _ in 0..2 {
        let (p, _q, _b) = pipes();
        assert!(a.add_connection(ConnectionKind::Receiver { connection: p, timeout: Duration::from_secs(1) }, 0).is_ok());
    }
    let (p, _q, _b) = pipes();
    assert!(matches!(
        a.add_connection(ConnectionKind::Receiver { connection: p, timeout: Duration::from_secs(1) }, 0),
        Err(rusty_enet::connected::AddConnectionError::NoAvailablePeers)
    ));
}

#[test]
fn connected_host_refuses_a_peer_limit_outside_the_peer_ids() {
    for limit in [0usize, 4096] {
        let mut s = settings();
        s.peer_limit = limit;
        assert_eq!(
            ConnectedHost::<Pipe>::new(s, 0).err(),
            Some(BadParameter { method: "Host::new", parameter: "settings.peer_limit" })
        );
    }
    let mut s = settings();
    s.peer_limit = 0;
    s.channel_limit = 0;
    assert_eq!(
        ConnectedHost::<Pipe>::new(s, 0).err(),
        Some(BadParameter { method: "Host::new", parameter: "settings.channel_limit" })
    );
    let mut s = settings();
    s.peer_limit = 4095;
    assert!(ConnectedHost::<Pipe>::new(s, 0).is_ok());
}
