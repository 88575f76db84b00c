//! Error types.
use vstd::prelude::*;
use vstd::string::StringExecFns;

verus! {

/// Error for creating a host.
#[derive(Debug, PartialEq, Eq)]
pub enum HostNewError<E> {
    /// Failed to create a new ENet host due to a bad parameter.
    BadParameter(BadParameter),
    /// Failed to create a new ENet host because socket initialization failed.
    FailedToInitializeSocket(E),
}

/// Error for sending a packet to a peer.
#[derive(Clone, Copy, Debug, PartialEq, Eq, Structural)]
pub enum PeerSendError {
    /// Cannot send to peer because it is not connected.
    NotConnected,
    /// Cannot send to peer on an invalid channel.
    InvalidChannel,
    /// Cannot send to peer because the packet is too large.
    PacketTooLarge,
    /// Cannot send to peer because the fragment count was exceeded.
    FragmentsExceeded,
    /// Cannot send to peer because the packet failed to queue.
    FailedToQueue,
}

impl PeerSendError {
    /// A sentence that describes the error.
    pub fn message(&self) -> (m: &'static str)
        ensures
            m == match *self {
                PeerSendError::NotConnected => "Cannot send to an ENet peer because it is not connected.",
                PeerSendError::InvalidChannel => "Cannot send to an ENet peer on an invalid channel.",
                PeerSendError::PacketTooLarge => "Cannot send to an ENet peer because the packet is too large.",
                PeerSendError::FragmentsExceeded => "Cannot send to an ENet peer because the fragment count was exceeded.",
                PeerSendError::FailedToQueue => "Cannot send to an ENet peer because the packet failed to queue.",
            },
    {
        match self {
            PeerSendError::NotConnected => "Cannot send to an ENet peer because it is not connected.",
            PeerSendError::InvalidChannel => "Cannot send to an ENet peer on an invalid channel.",
            PeerSendError::PacketTooLarge => "Cannot send to an ENet peer because the packet is too large.",
            PeerSendError::FragmentsExceeded => "Cannot send to an ENet peer because the fragment count was exceeded.",
            PeerSendError::FailedToQueue => "Cannot send to an ENet peer because the packet failed to queue.",
        }
    }
}

/// A bad parameter was passed to a method.
#[derive(Clone, Copy, Debug, PartialEq, Eq)]
pub struct BadParameter {
    /// The name of the method where this parameter was checked.
    pub method: &'static str,
    /// The name of the parameter itself.
    pub parameter: &'static str,
}

impl BadParameter {
    /// The message of the error: which parameter was bad, and the method it was passed to.
    pub fn message(&self) -> (m: String)
        ensures
            m@ == "A bad parameter ("@ + self.parameter@ + ") was passed to "@ + self.method@,
    {
        let m = String::from_str("A bad parameter (");
        let m = m.concat(self.parameter);
        let m = m.concat(") was passed to ");
        m.concat(self.method)
    }
}

/// Failed to connect because there were no available ENet peer slots.
#[derive(Clone, Copy, Debug, PartialEq, Eq, Structural)]
pub struct NoAvailablePeers;

impl NoAvailablePeers {
    /// A sentence that describes the error.
    pub fn message(&self) -> (m: &'static str)
        ensures
            m == "Failed to connect because there were no available ENet peer slots.",
    {
        "Failed to connect because there were no available ENet peer slots."
    }
}

} // verus!
