//! The transport a host runs on: what ENet asks of a socket, and what a socket reports.
use vstd::prelude::*;
use crate::address::Address;
use crate::consts::{HOST_RECEIVE_BUFFER_SIZE, HOST_SEND_BUFFER_SIZE, PROTOCOL_MAXIMUM_MTU};

verus! {

/// The maximum amount of bytes ENet will ever send or receive. Useful for allocating
/// buffers when sending and receiving.
pub const MTU_MAX: usize = 4096;

/// Socket options provided by ENet and passed to [`Socket::init`] when creating a host:
/// the sizes of the receive and send buffers that ENet asks for. A socket always runs in
/// non-blocking mode.
#[derive(Debug, Clone, Copy, PartialEq, Eq, Structural)]
pub struct SocketOptions {
    /// Size of the receive buffer desired by ENet.
    pub receive_buffer: usize,
    /// Size of the send buffer desired by ENet.
    pub send_buffer: usize,
}

impl SocketOptions {
    /// The options a host asks its socket for.
    pub fn host_defaults() -> (o: SocketOptions)
        ensures
            o.receive_buffer == HOST_RECEIVE_BUFFER_SIZE,
            o.send_buffer == HOST_SEND_BUFFER_SIZE,
    {
        SocketOptions {
            receive_buffer: HOST_RECEIVE_BUFFER_SIZE as usize,
            send_buffer: HOST_SEND_BUFFER_SIZE as usize,
        }
    }
}

/// What a socket received: a complete packet of the given size in bytes, or a partial
/// packet, which is discarded.
#[derive(Debug, Clone, Copy, PartialEq, Eq, Structural)]
pub enum PacketReceived {
    /// A complete packet was received. The inner value is the size of the packet in bytes.
    Complete(usize),
    /// A partial packet was received.
    Partial,
}

/// The underlying data transport layer ENet uses.
pub trait Socket: Sized {
    /// The address type to use.
    type PeerAddress: Address;
    /// Errors returned by this socket.
    type Error;

    /// Initialize the socket with options passed down by ENet.
    fn init(&mut self, socket_options: SocketOptions) -> Result<(), Self::Error>;

    /// Try to send data. Returns the number of bytes sent, or an error.
    fn send(&mut self, address: Self::PeerAddress, buffer: &[u8]) -> Result<usize, Self::Error>;

    /// Try to receive a packet into a buffer of size [`MTU_MAX`]: `None` when nothing was
    /// received, else the address of the sender and what was received.
    fn receive(&mut self, buffer: &mut [u8; 4096]) -> Result<
        Option<(Self::PeerAddress, PacketReceived)>,
        Self::Error,
    >;
}

/// Whether a received datagram is taken: only a complete one, no larger than a buffer.
pub fn received_length(received: PacketReceived) -> (r: Option<usize>)
    ensures
        r == match received {
            PacketReceived::Complete(n) => if n <= PROTOCOL_MAXIMUM_MTU {
                Some(n)
            } else {
                None
            },
            PacketReceived::Partial => None,
        },
{
    match received {
        PacketReceived::Complete(n) => if n <= PROTOCOL_MAXIMUM_MTU {
            Some(n)
        } else {
            None
        },
        PacketReceived::Partial => None,
    }
}

} // verus!
