//! Packets: the data sent to and received from peers, with the kind of delivery asked for.
use vstd::prelude::*;

verus! {

/// The packet must be received by the target peer and resent until delivered.
pub const PACKET_FLAG_RELIABLE: u32 = 1;
/// The packet is not sequenced with other packets.
pub const PACKET_FLAG_UNSEQUENCED: u32 = 2;
/// The packet's data is not copied; its buffer is handed over.
pub const PACKET_FLAG_NO_ALLOCATE: u32 = 4;
/// The packet is fragmented with unreliable fragments when it exceeds the MTU.
pub const PACKET_FLAG_UNRELIABLE_FRAGMENT: u32 = 8;
/// Whether the packet has been sent from all queues it has been entered into.
pub const PACKET_FLAG_SENT: u32 = 256;

/// Types of packets supported by ENet, used with [`Packet::new`].
///
/// An unreliable packet may be sequenced: a sequenced unreliable packet that arrives
/// after one of a higher sequence number is discarded. Unreliable packets are sent
/// reliably when they exceed the MTU, unless they are `AlwaysUnreliable`. A reliable
/// packet is always sequenced.
#[derive(Debug, Clone, Copy, PartialEq, Eq, Hash, Structural)]
pub enum PacketKind {
    /// An unreliable packet, with optional sequencing.
    Unreliable { sequenced: bool },
    /// An unreliable packet, with optional sequencing, whose fragments are unreliable too.
    AlwaysUnreliable { sequenced: bool },
    /// A reliable packet, with enforced sequencing.
    Reliable,
}

/// The packet flags that stand for a packet kind.
pub open spec fn kind_flags(kind: PacketKind) -> u32 {
    match kind {
        PacketKind::Unreliable { sequenced } => if sequenced {
            0
        } else {
            PACKET_FLAG_UNSEQUENCED
        },
        PacketKind::AlwaysUnreliable { sequenced } => if sequenced {
            PACKET_FLAG_UNRELIABLE_FRAGMENT
        } else {
            PACKET_FLAG_UNRELIABLE_FRAGMENT | PACKET_FLAG_UNSEQUENCED
        },
        PacketKind::Reliable => PACKET_FLAG_RELIABLE,
    }
}

/// The packet kind that a set of packet flags stands for (the `SENT` flag is ignored).
pub open spec fn flags_kind(flags: u32) -> PacketKind {
    let sequenced = flags & PACKET_FLAG_UNSEQUENCED == 0;
    if flags & PACKET_FLAG_RELIABLE != 0 {
        PacketKind::Reliable
    } else if flags & PACKET_FLAG_UNRELIABLE_FRAGMENT != 0 {
        PacketKind::AlwaysUnreliable { sequenced }
    } else {
        PacketKind::Unreliable { sequenced }
    }
}

/// Raw packet data, owned by the packet it is handed to.
pub struct RawPacket {
    /// The underlying data.
    pub data: Vec<u8>,
}

/// A byte buffer that can be wrapped in a [`Packet`].
pub trait ToRawPacket: Sized {
    /// The bytes the buffer holds.
    spec fn spec_bytes(&self) -> Seq<u8>;

    /// Take ownership of this value and convert it into raw packet data.
    fn into_packet_data(self) -> (r: RawPacket)
        ensures
            r.data@ == self.spec_bytes(),
    ;
}

impl ToRawPacket for Vec<u8> {
    open spec fn spec_bytes(&self) -> Seq<u8> {
        self@
    }

    fn into_packet_data(self) -> (r: RawPacket) {
        RawPacket { data: self }
    }
}

impl<'a> ToRawPacket for &'a [u8] {
    open spec fn spec_bytes(&self) -> Seq<u8> {
        self@
    }

    fn into_packet_data(self) -> (r: RawPacket) {
        let mut data: Vec<u8> = Vec::new();
        let mut i: usize = 0;
        while i < self.len()
            invariant
                i <= self@.len(),
                data@ == self@.take(i as int),
            decreases self@.len() - i,
        {
            data.push(self[i]);
            assert(self@.take(i + 1) =~= self@.take(i as int).push(self@[i as int]));
            i = i + 1;
        }
        assert(self@.take(self@.len() as int) =~= self@);
        RawPacket { data }
    }
}

impl ToRawPacket for Box<[u8]> {
    open spec fn spec_bytes(&self) -> Seq<u8> {
        (**self)@
    }

    fn into_packet_data(self) -> (r: RawPacket) {
        let bytes: &[u8] = &*self;
        bytes.into_packet_data()
    }
}

/// An ENet data packet that may be sent to or received from a peer.
#[derive(Debug)]
pub struct Packet {
    pub(crate) data: Vec<u8>,
    pub(crate) flags: u32,
}

impl Clone for Packet {
    /// A packet with the same bytes and flags.
    fn clone(&self) -> (r: Self)
        ensures
            r.bytes() == self.bytes(),
            r.spec_flags() == self.spec_flags(),
    {
        let mut data: Vec<u8> = Vec::new();
        let mut i: usize = 0;
        while i < self.data.len()
            invariant
                i <= self.data@.len(),
                data@ == self.data@.take(i as int),
            decreases self.data@.len() - i,
        {
            data.push(self.data[i]);
            assert(self.data@.take(i + 1) =~= self.data@.take(i as int).push(self.data@[i as int]));
            i = i + 1;
        }
        assert(self.data@.take(self.data@.len() as int) =~= self.data@);
        Packet { data, flags: self.flags }
    }
}

impl Packet {
    /// The bytes that the packet carries.
    pub closed spec fn bytes(&self) -> Seq<u8> {
        self.data@
    }

    /// The packet's flags.
    pub closed spec fn spec_flags(&self) -> u32 {
        self.flags
    }

    /// Create a new packet from its data and kind.
    pub fn new<P: ToRawPacket>(data: P, kind: PacketKind) -> (p: Packet)
        ensures
            p.bytes() == data.spec_bytes(),
            p.spec_flags() == kind_flags(kind) | PACKET_FLAG_NO_ALLOCATE,
    {
        let kind_flags: u32 = match kind {
            PacketKind::Unreliable { sequenced: true } => 0,
            PacketKind::Unreliable { sequenced: false } => PACKET_FLAG_UNSEQUENCED,
            PacketKind::AlwaysUnreliable { sequenced: true } => PACKET_FLAG_UNRELIABLE_FRAGMENT,
            PacketKind::AlwaysUnreliable { sequenced: false } => PACKET_FLAG_UNRELIABLE_FRAGMENT
                | PACKET_FLAG_UNSEQUENCED,
            PacketKind::Reliable => PACKET_FLAG_RELIABLE,
        };
        Packet { data: data.into_packet_data().data, flags: kind_flags | PACKET_FLAG_NO_ALLOCATE }
    }

    /// A packet with the given data and raw packet flags, as received from a peer.
    pub fn from_raw(data: Vec<u8>, flags: u32) -> (p: Packet)
        ensures
            p.bytes() == data@,
            p.spec_flags() == flags,
    {
        Packet { data, flags }
    }

    /// Create a new sequenced unreliable packet.
    pub fn unreliable<P: ToRawPacket>(data: P) -> (p: Packet)
        ensures
            p.bytes() == data.spec_bytes(),
            p.spec_flags() == kind_flags(PacketKind::Unreliable { sequenced: true })
                | PACKET_FLAG_NO_ALLOCATE,
    {
        Self::new(data, PacketKind::Unreliable { sequenced: true })
    }

    /// Create a new unsequenced unreliable packet.
    pub fn unreliable_unsequenced<P: ToRawPacket>(data: P) -> (p: Packet)
        ensures
            p.bytes() == data.spec_bytes(),
            p.spec_flags() == kind_flags(PacketKind::Unreliable { sequenced: false })
                | PACKET_FLAG_NO_ALLOCATE,
    {
        Self::new(data, PacketKind::Unreliable { sequenced: false })
    }

    /// Create a new sequenced, always unreliable packet.
    pub fn always_unreliable<P: ToRawPacket>(data: P) -> (p: Packet)
        ensures
            p.bytes() == data.spec_bytes(),
            p.spec_flags() == kind_flags(PacketKind::AlwaysUnreliable { sequenced: true })
                | PACKET_FLAG_NO_ALLOCATE,
    {
        Self::new(data, PacketKind::AlwaysUnreliable { sequenced: true })
    }

    /// Create a new unsequenced, always unreliable packet.
    pub fn always_unreliable_unsequenced<P: ToRawPacket>(data: P) -> (p: Packet)
        ensures
            p.bytes() == data.spec_bytes(),
            p.spec_flags() == kind_flags(PacketKind::AlwaysUnreliable { sequenced: false })
                | PACKET_FLAG_NO_ALLOCATE,
    {
        Self::new(data, PacketKind::AlwaysUnreliable { sequenced: false })
    }

    /// Create a new reliable packet.
    pub fn reliable<P: ToRawPacket>(data: P) -> (p: Packet)
        ensures
            p.bytes() == data.spec_bytes(),
            p.spec_flags() == kind_flags(PacketKind::Reliable) | PACKET_FLAG_NO_ALLOCATE,
    {
        Self::new(data, PacketKind::Reliable)
    }

    /// Get this packet's [`PacketKind`].
    pub fn kind(&self) -> (k: PacketKind)
        ensures
            k == flags_kind(self.spec_flags()),
    {
        let raw = self.flags;
        let flags = raw & !PACKET_FLAG_SENT;
        let sequenced = flags & PACKET_FLAG_UNSEQUENCED == 0;
        assert(flags & 2 == raw & 2 && flags & 1 == raw & 1 && flags & 8 == raw & 8)
            by (bit_vector)
            requires
                flags == raw & !256u32,
        ;
        if flags & PACKET_FLAG_RELIABLE != 0 {
            PacketKind::Reliable
        } else if flags & PACKET_FLAG_UNRELIABLE_FRAGMENT != 0 {
            PacketKind::AlwaysUnreliable { sequenced }
        } else {
            PacketKind::Unreliable { sequenced }
        }
    }

    /// Get the byte array contained in this packet.
    pub fn data(&self) -> (d: &[u8])
        ensures
            d@ == self.bytes(),
    {
        self.data.as_slice()
    }

    /// The packet's flags.
    pub fn flags(&self) -> (f: u32)
        ensures
            f == self.spec_flags(),
    {
        self.flags
    }

    /// The number of bytes in this packet.
    pub fn data_length(&self) -> (n: usize)
        ensures
            n == self.bytes().len(),
    {
        self.data.len()
    }

    /// Write `src` into the packet's data at `offset`, as far as the data reaches.
    pub fn write_at(&mut self, offset: usize, src: &[u8])
        requires
            offset <= old(self).bytes().len(),
        ensures
            ({
                let d = old(self).bytes();
                let n = if src@.len() <= d.len() - offset {
                    src@.len() as int
                } else {
                    d.len() - offset
                };
                final(self).bytes() == d.subrange(0, offset as int) + src@.take(n) + d.subrange(
                    offset + n,
                    d.len() as int,
                )
            }),
            final(self).spec_flags() == old(self).spec_flags(),
    {
        let ghost d = self.data@;
        let len = self.data.len();
        let n = if src.len() <= len - offset {
            src.len()
        } else {
            len - offset
        };
        let mut i: usize = 0;
        while i < n
            invariant
                n <= src@.len(),
                offset + n <= len,
                len == d.len(),
                self.data@.len() == len,
                i <= n,
                self.flags == old(self).flags,
                self.data@ == d.subrange(0, offset as int) + src@.take(i as int) + d.subrange(
                    offset + i,
                    len as int,
                ),
            decreases n - i,
        {
            self.data.set(offset + i, src[i]);
            assert(self.data@ =~= d.subrange(0, offset as int) + src@.take(i + 1) + d.subrange(
                offset + i + 1,
                len as int,
            ));
            i = i + 1;
        }
    }

    /// Mark the packet as sent from all queues.
    pub fn mark_sent(&mut self)
        ensures
            final(self).bytes() == old(self).bytes(),
            final(self).spec_flags() == old(self).spec_flags() | PACKET_FLAG_SENT,
    {
        self.flags = self.flags | PACKET_FLAG_SENT;
    }
}

/// A packet made of some kind reports that kind back, whatever flags it later gains
/// from being sent.
pub proof fn law_packet_kind_roundtrip(kind: PacketKind, extra_sent: bool)
    ensures
        flags_kind(
            (kind_flags(kind) | PACKET_FLAG_NO_ALLOCATE) | (if extra_sent {
                PACKET_FLAG_SENT
            } else {
                0
            }),
        ) == kind,
{
    let s: u32 = if extra_sent { 256 } else { 0 };
    assert(((0u32 | 4u32) | s) & 1 == 0 && ((0u32 | 4u32) | s) & 8 == 0 && ((0u32 | 4u32) | s)
        & 2 == 0) by (bit_vector)
        requires
            s == 0 || s == 256,
    ;
    assert(((2u32 | 4u32) | s) & 1 == 0 && ((2u32 | 4u32) | s) & 8 == 0 && ((2u32 | 4u32) | s)
        & 2 != 0) by (bit_vector)
        requires
            s == 0 || s == 256,
    ;
    assert(((8u32 | 4u32) | s) & 1 == 0 && ((8u32 | 4u32) | s) & 8 != 0 && ((8u32 | 4u32) | s)
        & 2 == 0) by (bit_vector)
        requires
            s == 0 || s == 256,
    ;
    assert((((8u32 | 2u32) | 4u32) | s) & 1 == 0 && (((8u32 | 2u32) | 4u32) | s) & 8 != 0 && (((
    8u32 | 2u32) | 4u32) | s) & 2 != 0) by (bit_vector)
        requires
            s == 0 || s == 256,
    ;
    assert(((1u32 | 4u32) | s) & 1 != 0) by (bit_vector)
        requires
            s == 0 || s == 256,
    ;
}

} // verus!
