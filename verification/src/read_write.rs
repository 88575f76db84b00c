//! An in-memory socket, for hosts whose datagrams travel over something the application
//! runs: what the host sends is kept for the application to read, and what the
//! application writes is what the host receives.
use vstd::prelude::*;
use crate::address::Address;
use crate::outgoing::copy_range;
use crate::socket::{PacketReceived, Socket, SocketOptions};

verus! {

/// A socket made of two queues of datagrams with their addresses: `inbound`, written by
/// the application and received by the host, and `outbound`, sent by the host and read by
/// the application.
pub struct ReadWrite<A> {
    pub inbound: Vec<(A, Vec<u8>)>,
    pub outbound: Vec<(A, Vec<u8>)>,
}

impl<A> ReadWrite<A> {
    /// A socket with nothing queued.
    pub fn new() -> (r: Self)
        ensures
            r.inbound@.len() == 0,
            r.outbound@.len() == 0,
    {
        ReadWrite { inbound: Vec::new(), outbound: Vec::new() }
    }

    /// Queue datagram `data` from `address` for the host to receive.
    pub fn write(&mut self, address: A, data: Vec<u8>)
        ensures
            final(self).inbound@ == old(self).inbound@.push((address, data)),
            final(self).outbound@ == old(self).outbound@,
    {
        self.inbound.push((address, data));
    }

    /// Take the oldest datagram the host sent, with the address it was sent to.
    pub fn read(&mut self) -> (r: Option<(A, Vec<u8>)>)
        ensures
            old(self).outbound@.len() == 0 ==> r is None && final(self).outbound@ == old(self).outbound@,
            old(self).outbound@.len() > 0 ==> r == Some(old(self).outbound@[0]) && final(self).outbound@
                == old(self).outbound@.drop_first(),
            final(self).inbound@ == old(self).inbound@,
    {
        if self.outbound.len() == 0 {
            None
        } else {
            Some(self.outbound.remove(0))
        }
    }
}

/// The bytes of `data` put at the start of `buffer`, as far as they fit.
fn fill(buffer: &mut [u8; 4096], data: &Vec<u8>)
    requires
        data@.len() <= 4096,
    ensures
        final(buffer)@.len() == 4096,
        forall|k: int| 0 <= k < data@.len() ==> final(buffer)@[k] == data@[k],
{
    let mut k: usize = 0;
    while k < data.len()
        invariant
            k <= data@.len() <= 4096,
            buffer@.len() == 4096,
            forall|j: int| 0 <= j < k ==> buffer@[j] == data@[j],
        decreases data@.len() - k,
    {
        buffer[k] = data[k];
        k = k + 1;
    }
}

/// Sending queues the datagram as outbound; receiving takes the oldest inbound one, which
/// is partial when it is larger than a buffer.
impl<A: Address> Socket for ReadWrite<A> {
    type PeerAddress = A;
    type Error = ();

    fn init(&mut self, _socket_options: SocketOptions) -> (r: Result<(), ()>)
        ensures
            r == Ok::<(), ()>(()),
            final(self).inbound@ == old(self).inbound@,
            final(self).outbound@ == old(self).outbound@,
    {
        Ok(())
    }

    fn send(&mut self, address: A, buffer: &[u8]) -> (r: Result<usize, ()>)
        ensures
            r == Ok::<usize, ()>(buffer@.len() as usize),
            final(self).inbound@ == old(self).inbound@,
            final(self).outbound@.len() == old(self).outbound@.len() + 1,
            final(self).outbound@.take(old(self).outbound@.len() as int) == old(self).outbound@,
            final(self).outbound@.last().0 == address,
            final(self).outbound@.last().1@ == buffer@,
    {
        let data = copy_range(buffer, 0, buffer.len());
        self.outbound.push((address, data));
        Ok(buffer.len())
    }

    fn receive(&mut self, buffer: &mut [u8; 4096]) -> (r: Result<Option<(A, PacketReceived)>, ()>)
        ensures
            final(self).outbound@ == old(self).outbound@,
            old(self).inbound@.len() == 0 ==> r == Ok::<Option<(A, PacketReceived)>, ()>(None)
                && final(self).inbound@ == old(self).inbound@ && final(buffer)@ == old(buffer)@,
            old(self).inbound@.len() > 0 ==> {
                let (address, data) = old(self).inbound@[0];
                &&& final(self).inbound@ == old(self).inbound@.drop_first()
                &&& data@.len() > 4096 ==> r == Ok::<Option<(A, PacketReceived)>, ()>(
                    Some((address, PacketReceived::Partial)),
                ) && final(buffer)@ == old(buffer)@
                &&& data@.len() <= 4096 ==> r == Ok::<Option<(A, PacketReceived)>, ()>(
                    Some((address, PacketReceived::Complete(data@.len() as usize))),
                ) && final(buffer)@.take(data@.len() as int) == data@
            },
    {
        if self.inbound.len() == 0 {
            return Ok(None);
        }
        let (address, data) = self.inbound.remove(0);
        if data.len() > 4096 {
            return Ok(Some((address, PacketReceived::Partial)));
        }
        fill(buffer, &data);
        Ok(Some((address, PacketReceived::Complete(data.len()))))
    }
}

} // verus!
