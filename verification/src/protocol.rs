//! The ENet wire protocol: command numbers, flags and the byte layout of each command.
use vstd::prelude::*;
use crate::consts::PROTOCOL_MAXIMUM_PEER_ID;

verus! {

pub const PROTOCOL_COMMAND_NONE: u8 = 0;
pub const PROTOCOL_COMMAND_ACKNOWLEDGE: u8 = 1;
pub const PROTOCOL_COMMAND_CONNECT: u8 = 2;
pub const PROTOCOL_COMMAND_VERIFY_CONNECT: u8 = 3;
pub const PROTOCOL_COMMAND_DISCONNECT: u8 = 4;
pub const PROTOCOL_COMMAND_PING: u8 = 5;
pub const PROTOCOL_COMMAND_SEND_RELIABLE: u8 = 6;
pub const PROTOCOL_COMMAND_SEND_UNRELIABLE: u8 = 7;
pub const PROTOCOL_COMMAND_SEND_FRAGMENT: u8 = 8;
pub const PROTOCOL_COMMAND_SEND_UNSEQUENCED: u8 = 9;
pub const PROTOCOL_COMMAND_BANDWIDTH_LIMIT: u8 = 10;
pub const PROTOCOL_COMMAND_THROTTLE_CONFIGURE: u8 = 11;
pub const PROTOCOL_COMMAND_SEND_UNRELIABLE_FRAGMENT: u8 = 12;
pub const PROTOCOL_COMMAND_COUNT: u8 = 13;
pub const PROTOCOL_COMMAND_MASK: u8 = 15;

pub const PROTOCOL_COMMAND_FLAG_ACKNOWLEDGE: u8 = 128;
pub const PROTOCOL_COMMAND_FLAG_UNSEQUENCED: u8 = 64;

pub const PROTOCOL_HEADER_FLAG_COMPRESSED: u16 = 16384;
pub const PROTOCOL_HEADER_FLAG_SENT_TIME: u16 = 32768;
pub const PROTOCOL_HEADER_FLAG_MASK: u16 = 49152;
pub const PROTOCOL_HEADER_SESSION_MASK: u16 = 12288;
pub const PROTOCOL_HEADER_SESSION_SHIFT: u16 = 12;

/// The command number held in the low four bits of a command byte.
pub open spec fn command_number(command: u8) -> u8 {
    command & PROTOCOL_COMMAND_MASK
}


/// The two bytes of `x`, most significant first.
pub open spec fn u16_bytes(x: u16) -> Seq<u8> {
    seq![(x / 256) as u8, (x % 256) as u8]
}

/// The four bytes of `x`, most significant first.
pub open spec fn u32_bytes(x: u32) -> Seq<u8> {
    seq![(x / 16777216) as u8, ((x / 65536) % 256) as u8, ((x / 256) % 256) as u8, (x % 256) as u8]
}

/// The 16-bit big-endian value at index `i` of `s`.
pub open spec fn u16_at(s: Seq<u8>, i: int) -> u16 {
    (s[i] * 256 + s[i + 1]) as u16
}

/// The 32-bit big-endian value at index `i` of `s`.
pub open spec fn u32_at(s: Seq<u8>, i: int) -> u32 {
    (s[i] * 16777216 + s[i + 1] * 65536 + s[i + 2] * 256 + s[i + 3]) as u32
}

/// The fields shared by the connect and verify-connect commands.
#[derive(Debug, Clone, Copy, PartialEq, Eq, Structural)]
pub struct ConnectFields {
    pub outgoing_peer_id: u16,
    pub incoming_session_id: u8,
    pub outgoing_session_id: u8,
    pub mtu: u32,
    pub window_size: u32,
    pub channel_count: u32,
    pub incoming_bandwidth: u32,
    pub outgoing_bandwidth: u32,
    pub packet_throttle_interval: u32,
    pub packet_throttle_acceleration: u32,
    pub packet_throttle_deceleration: u32,
    /// Carried in the sender's native byte order, as ENet does.
    pub connect_id: u32,
}

/// The fields of a fragment of a packet.
#[derive(Debug, Clone, Copy, PartialEq, Eq, Structural)]
pub struct FragmentFields {
    pub start_sequence_number: u16,
    pub data_length: u16,
    pub fragment_count: u32,
    pub fragment_number: u32,
    pub total_length: u32,
    pub fragment_offset: u32,
}

/// The body of a protocol command: what follows the command header.
#[derive(Debug, Clone, Copy, PartialEq, Eq, Structural)]
pub enum Command {
    Acknowledge { received_reliable_sequence_number: u16, received_sent_time: u16 },
    Connect { fields: ConnectFields, data: u32 },
    VerifyConnect { fields: ConnectFields },
    Disconnect { data: u32 },
    Ping,
    SendReliable { data_length: u16 },
    SendUnreliable { unreliable_sequence_number: u16, data_length: u16 },
    SendFragment { fragment: FragmentFields },
    SendUnsequenced { unsequenced_group: u16, data_length: u16 },
    BandwidthLimit { incoming_bandwidth: u32, outgoing_bandwidth: u32 },
    ThrottleConfigure {
        packet_throttle_interval: u32,
        packet_throttle_acceleration: u32,
        packet_throttle_deceleration: u32,
    },
    SendUnreliableFragment { fragment: FragmentFields },
}

/// A protocol command: its header (the command byte with its flags, the channel and the
/// reliable sequence number) and its body.
#[derive(Debug, Clone, Copy, PartialEq, Eq, Structural)]
pub struct ProtocolCommand {
    pub command: u8,
    pub channel_id: u8,
    pub reliable_sequence_number: u16,
    pub body: Command,
}

/// The command number of a command body.
pub open spec fn body_number(c: Command) -> u8 {
    match c {
        Command::Acknowledge { .. } => PROTOCOL_COMMAND_ACKNOWLEDGE,
        Command::Connect { .. } => PROTOCOL_COMMAND_CONNECT,
        Command::VerifyConnect { .. } => PROTOCOL_COMMAND_VERIFY_CONNECT,
        Command::Disconnect { .. } => PROTOCOL_COMMAND_DISCONNECT,
        Command::Ping => PROTOCOL_COMMAND_PING,
        Command::SendReliable { .. } => PROTOCOL_COMMAND_SEND_RELIABLE,
        Command::SendUnreliable { .. } => PROTOCOL_COMMAND_SEND_UNRELIABLE,
        Command::SendFragment { .. } => PROTOCOL_COMMAND_SEND_FRAGMENT,
        Command::SendUnsequenced { .. } => PROTOCOL_COMMAND_SEND_UNSEQUENCED,
        Command::BandwidthLimit { .. } => PROTOCOL_COMMAND_BANDWIDTH_LIMIT,
        Command::ThrottleConfigure { .. } => PROTOCOL_COMMAND_THROTTLE_CONFIGURE,
        Command::SendUnreliableFragment { .. } => PROTOCOL_COMMAND_SEND_UNRELIABLE_FRAGMENT,
    }
}

/// The size in bytes of each command, header included, by command number.
pub open spec fn command_size_of(n: u8) -> nat {
    if n == 1 {
        8
    } else if n == 2 {
        48
    } else if n == 3 {
        44
    } else if n == 4 {
        8
    } else if n == 5 {
        4
    } else if n == 6 {
        6
    } else if n == 7 {
        8
    } else if n == 8 {
        24
    } else if n == 9 {
        8
    } else if n == 10 {
        12
    } else if n == 11 {
        16
    } else if n == 12 {
        24
    } else {
        0
    }
}

/// The size in bytes of the command whose command byte is `command_number`.
pub fn enet_protocol_command_size(command_number: u8) -> (size: usize)
    requires
        command_number & PROTOCOL_COMMAND_MASK < PROTOCOL_COMMAND_COUNT,
    ensures
        size == command_size_of(command_number & PROTOCOL_COMMAND_MASK),
{
    let sizes: [usize; 13] = [0, 8, 48, 44, 8, 4, 6, 8, 24, 8, 12, 16, 24];
    sizes[(command_number & PROTOCOL_COMMAND_MASK) as usize]
}

/// Whether a protocol command's command byte names the command that its body is.
pub open spec fn well_formed(pc: ProtocolCommand) -> bool {
    command_number(pc.command) == body_number(pc.body)
}

/// The command number of a command body.
pub fn body_number_of(c: &Command) -> (n: u8)
    ensures
        n == body_number(*c),
{
    match c {
        Command::Acknowledge { .. } => PROTOCOL_COMMAND_ACKNOWLEDGE,
        Command::Connect { .. } => PROTOCOL_COMMAND_CONNECT,
        Command::VerifyConnect { .. } => PROTOCOL_COMMAND_VERIFY_CONNECT,
        Command::Disconnect { .. } => PROTOCOL_COMMAND_DISCONNECT,
        Command::Ping => PROTOCOL_COMMAND_PING,
        Command::SendReliable { .. } => PROTOCOL_COMMAND_SEND_RELIABLE,
        Command::SendUnreliable { .. } => PROTOCOL_COMMAND_SEND_UNRELIABLE,
        Command::SendFragment { .. } => PROTOCOL_COMMAND_SEND_FRAGMENT,
        Command::SendUnsequenced { .. } => PROTOCOL_COMMAND_SEND_UNSEQUENCED,
        Command::BandwidthLimit { .. } => PROTOCOL_COMMAND_BANDWIDTH_LIMIT,
        Command::ThrottleConfigure { .. } => PROTOCOL_COMMAND_THROTTLE_CONFIGURE,
        Command::SendUnreliableFragment { .. } => PROTOCOL_COMMAND_SEND_UNRELIABLE_FRAGMENT,
    }
}

/// The bytes of the connect fields.
pub open spec fn connect_fields_bytes(f: ConnectFields) -> Seq<u8> {
    u16_bytes(f.outgoing_peer_id) + seq![f.incoming_session_id, f.outgoing_session_id] + u32_bytes(
        f.mtu,
    ) + u32_bytes(f.window_size) + u32_bytes(f.channel_count) + u32_bytes(f.incoming_bandwidth)
        + u32_bytes(f.outgoing_bandwidth) + u32_bytes(f.packet_throttle_interval) + u32_bytes(
        f.packet_throttle_acceleration,
    ) + u32_bytes(f.packet_throttle_deceleration) + u32_bytes(crate::os::be32(f.connect_id))
}

/// The bytes of the fragment fields.
pub open spec fn fragment_fields_bytes(f: FragmentFields) -> Seq<u8> {
    u16_bytes(f.start_sequence_number) + u16_bytes(f.data_length) + u32_bytes(f.fragment_count)
        + u32_bytes(f.fragment_number) + u32_bytes(f.total_length) + u32_bytes(f.fragment_offset)
}

/// The bytes of a command body, in network byte order.
pub open spec fn body_bytes(c: Command) -> Seq<u8> {
    match c {
        Command::Acknowledge { received_reliable_sequence_number, received_sent_time } => u16_bytes(
            received_reliable_sequence_number,
        ) + u16_bytes(received_sent_time),
        Command::Connect { fields, data } => connect_fields_bytes(fields) + u32_bytes(data),
        Command::VerifyConnect { fields } => connect_fields_bytes(fields),
        Command::Disconnect { data } => u32_bytes(data),
        Command::Ping => Seq::empty(),
        Command::SendReliable { data_length } => u16_bytes(data_length),
        Command::SendUnreliable { unreliable_sequence_number, data_length } => u16_bytes(
            unreliable_sequence_number,
        ) + u16_bytes(data_length),
        Command::SendFragment { fragment } => fragment_fields_bytes(fragment),
        Command::SendUnsequenced { unsequenced_group, data_length } => u16_bytes(unsequenced_group)
            + u16_bytes(data_length),
        Command::BandwidthLimit { incoming_bandwidth, outgoing_bandwidth } => u32_bytes(
            incoming_bandwidth,
        ) + u32_bytes(outgoing_bandwidth),
        Command::ThrottleConfigure {
            packet_throttle_interval,
            packet_throttle_acceleration,
            packet_throttle_deceleration,
        } => u32_bytes(packet_throttle_interval) + u32_bytes(packet_throttle_acceleration)
            + u32_bytes(packet_throttle_deceleration),
        Command::SendUnreliableFragment { fragment } => fragment_fields_bytes(fragment),
    }
}

/// The bytes of a protocol command: the command byte, the channel, the reliable sequence
/// number and the body.
pub open spec fn command_bytes(pc: ProtocolCommand) -> Seq<u8> {
    seq![pc.command, pc.channel_id] + u16_bytes(pc.reliable_sequence_number) + body_bytes(pc.body)
}

/// The connect fields read from `s` at index `i`.
pub open spec fn connect_fields_at(s: Seq<u8>, i: int) -> ConnectFields {
    ConnectFields {
        outgoing_peer_id: u16_at(s, i),
        incoming_session_id: s[i + 2],
        outgoing_session_id: s[i + 3],
        mtu: u32_at(s, i + 4),
        window_size: u32_at(s, i + 8),
        channel_count: u32_at(s, i + 12),
        incoming_bandwidth: u32_at(s, i + 16),
        outgoing_bandwidth: u32_at(s, i + 20),
        packet_throttle_interval: u32_at(s, i + 24),
        packet_throttle_acceleration: u32_at(s, i + 28),
        packet_throttle_deceleration: u32_at(s, i + 32),
        connect_id: crate::os::be32(u32_at(s, i + 36)),
    }
}

/// The fragment fields read from `s` at index `i`.
pub open spec fn fragment_fields_at(s: Seq<u8>, i: int) -> FragmentFields {
    FragmentFields {
        start_sequence_number: u16_at(s, i),
        data_length: u16_at(s, i + 2),
        fragment_count: u32_at(s, i + 4),
        fragment_number: u32_at(s, i + 8),
        total_length: u32_at(s, i + 12),
        fragment_offset: u32_at(s, i + 16),
    }
}

/// The body of a command numbered `n`, read from `s` at index `i` (just after the header).
pub open spec fn body_at(s: Seq<u8>, i: int, n: u8) -> Command {
    if n == 1 {
        Command::Acknowledge {
            received_reliable_sequence_number: u16_at(s, i),
            received_sent_time: u16_at(s, i + 2),
        }
    } else if n == 2 {
        Command::Connect { fields: connect_fields_at(s, i), data: u32_at(s, i + 40) }
    } else if n == 3 {
        Command::VerifyConnect { fields: connect_fields_at(s, i) }
    } else if n == 4 {
        Command::Disconnect { data: u32_at(s, i) }
    } else if n == 5 {
        Command::Ping
    } else if n == 6 {
        Command::SendReliable { data_length: u16_at(s, i) }
    } else if n == 7 {
        Command::SendUnreliable {
            unreliable_sequence_number: u16_at(s, i),
            data_length: u16_at(s, i + 2),
        }
    } else if n == 8 {
        Command::SendFragment { fragment: fragment_fields_at(s, i) }
    } else if n == 9 {
        Command::SendUnsequenced { unsequenced_group: u16_at(s, i), data_length: u16_at(s, i + 2) }
    } else if n == 10 {
        Command::BandwidthLimit {
            incoming_bandwidth: u32_at(s, i),
            outgoing_bandwidth: u32_at(s, i + 4),
        }
    } else if n == 11 {
        Command::ThrottleConfigure {
            packet_throttle_interval: u32_at(s, i),
            packet_throttle_acceleration: u32_at(s, i + 4),
            packet_throttle_deceleration: u32_at(s, i + 8),
        }
    } else {
        Command::SendUnreliableFragment { fragment: fragment_fields_at(s, i) }
    }
}

/// The command that starts at index `i` of `s`, with its size: none when its header does
/// not fit, its number is not that of a command, or its body does not fit.
pub open spec fn command_at(s: Seq<u8>, i: int) -> Option<(ProtocolCommand, nat)> {
    if i < 0 || i + 4 > s.len() {
        None
    } else {
        let n = command_number(s[i]);
        let size = command_size_of(n);
        if n >= PROTOCOL_COMMAND_COUNT || size == 0 || i + size > s.len() {
            None
        } else {
            Some(
                (
                    ProtocolCommand {
                        command: s[i],
                        channel_id: s[i + 1],
                        reliable_sequence_number: u16_at(s, i + 2),
                        body: body_at(s, i + 4, n),
                    },
                    size,
                ),
            )
        }
    }
}


pub(crate) fn push_u16(out: &mut Vec<u8>, x: u16)
    ensures
        final(out)@ == old(out)@ + u16_bytes(x),
{
    out.push((x / 256) as u8);
    out.push((x % 256) as u8);
    assert(out@ =~= old(out)@ + u16_bytes(x));
}

pub(crate) fn push_u32(out: &mut Vec<u8>, x: u32)
    ensures
        final(out)@ == old(out)@ + u32_bytes(x),
{
    out.push((x / 16777216) as u8);
    out.push(((x / 65536) % 256) as u8);
    out.push(((x / 256) % 256) as u8);
    out.push((x % 256) as u8);
    assert(out@ =~= old(out)@ + u32_bytes(x));
}

pub(crate) fn read_u16(s: &[u8], i: usize) -> (r: u16)
    requires
        i + 2 <= s@.len(),
    ensures
        r == u16_at(s@, i as int),
{
    (s[i] as u16) * 256 + s[i + 1] as u16
}

pub(crate) fn read_u32(s: &[u8], i: usize) -> (r: u32)
    requires
        i + 4 <= s@.len(),
    ensures
        r == u32_at(s@, i as int),
{
    (s[i] as u32) * 16777216 + (s[i + 1] as u32) * 65536 + (s[i + 2] as u32) * 256 + s[i
        + 3] as u32
}

fn push_connect_fields(out: &mut Vec<u8>, f: &ConnectFields)
    ensures
        final(out)@ == old(out)@ + connect_fields_bytes(*f),
{
    push_u16(out, f.outgoing_peer_id);
    out.push(f.incoming_session_id);
    out.push(f.outgoing_session_id);
    push_u32(out, f.mtu);
    push_u32(out, f.window_size);
    push_u32(out, f.channel_count);
    push_u32(out, f.incoming_bandwidth);
    push_u32(out, f.outgoing_bandwidth);
    push_u32(out, f.packet_throttle_interval);
    push_u32(out, f.packet_throttle_acceleration);
    push_u32(out, f.packet_throttle_deceleration);
    push_u32(out, crate::os::htonl(f.connect_id));
    assert(out@ =~= old(out)@ + connect_fields_bytes(*f));
}

fn push_fragment_fields(out: &mut Vec<u8>, f: &FragmentFields)
    ensures
        final(out)@ == old(out)@ + fragment_fields_bytes(*f),
{
    push_u16(out, f.start_sequence_number);
    push_u16(out, f.data_length);
    push_u32(out, f.fragment_count);
    push_u32(out, f.fragment_number);
    push_u32(out, f.total_length);
    push_u32(out, f.fragment_offset);
    assert(out@ =~= old(out)@ + fragment_fields_bytes(*f));
}

/// Append the bytes of a protocol command, in network byte order, to `out`.
pub fn encode_command(pc: &ProtocolCommand, out: &mut Vec<u8>)
    ensures
        final(out)@ == old(out)@ + command_bytes(*pc),
{
    let ghost start = out@;
    out.push(pc.command);
    out.push(pc.channel_id);
    push_u16(out, pc.reliable_sequence_number);
    let ghost mid = out@;
    match &pc.body {
        Command::Acknowledge { received_reliable_sequence_number, received_sent_time } => {
            push_u16(out, *received_reliable_sequence_number);
            push_u16(out, *received_sent_time);
        },
        Command::Connect { fields, data } => {
            push_connect_fields(out, fields);
            push_u32(out, *data);
        },
        Command::VerifyConnect { fields } => {
            push_connect_fields(out, fields);
        },
        Command::Disconnect { data } => {
            push_u32(out, *data);
        },
        Command::Ping => {},
        Command::SendReliable { data_length } => {
            push_u16(out, *data_length);
        },
        Command::SendUnreliable { unreliable_sequence_number, data_length } => {
            push_u16(out, *unreliable_sequence_number);
            push_u16(out, *data_length);
        },
        Command::SendFragment { fragment } => {
            push_fragment_fields(out, fragment);
        },
        Command::SendUnsequenced { unsequenced_group, data_length } => {
            push_u16(out, *unsequenced_group);
            push_u16(out, *data_length);
        },
        Command::BandwidthLimit { incoming_bandwidth, outgoing_bandwidth } => {
            push_u32(out, *incoming_bandwidth);
            push_u32(out, *outgoing_bandwidth);
        },
        Command::ThrottleConfigure {
            packet_throttle_interval,
            packet_throttle_acceleration,
            packet_throttle_deceleration,
        } => {
            push_u32(out, *packet_throttle_interval);
            push_u32(out, *packet_throttle_acceleration);
            push_u32(out, *packet_throttle_deceleration);
        },
        Command::SendUnreliableFragment { fragment } => {
            push_fragment_fields(out, fragment);
        },
    }
    assert(out@ =~= start + command_bytes(*pc));
}

fn read_connect_fields(s: &[u8], i: usize) -> (f: ConnectFields)
    requires
        i + 40 <= s@.len(),
    ensures
        f == connect_fields_at(s@, i as int),
{
    let _len = s.len();
    ConnectFields {
        outgoing_peer_id: read_u16(s, i),
        incoming_session_id: s[i + 2],
        outgoing_session_id: s[i + 3],
        mtu: read_u32(s, i + 4),
        window_size: read_u32(s, i + 8),
        channel_count: read_u32(s, i + 12),
        incoming_bandwidth: read_u32(s, i + 16),
        outgoing_bandwidth: read_u32(s, i + 20),
        packet_throttle_interval: read_u32(s, i + 24),
        packet_throttle_acceleration: read_u32(s, i + 28),
        packet_throttle_deceleration: read_u32(s, i + 32),
        connect_id: crate::os::ntohl(read_u32(s, i + 36)),
    }
}

fn read_fragment_fields(s: &[u8], i: usize) -> (f: FragmentFields)
    requires
        i + 20 <= s@.len(),
    ensures
        f == fragment_fields_at(s@, i as int),
{
    let _len = s.len();
    FragmentFields {
        start_sequence_number: read_u16(s, i),
        data_length: read_u16(s, i + 2),
        fragment_count: read_u32(s, i + 4),
        fragment_number: read_u32(s, i + 8),
        total_length: read_u32(s, i + 12),
        fragment_offset: read_u32(s, i + 16),
    }
}

/// Read the protocol command that starts at index `i` of `s`, with its size in bytes.
/// Returns `None` when its header does not fit, its number is not that of a command, or
/// its body does not fit in `s`.
pub fn decode_command(s: &[u8], i: usize) -> (r: Option<(ProtocolCommand, usize)>)
    ensures
        match r {
            Some((pc, size)) => command_at(s@, i as int) == Some((pc, size as nat)),
            None => command_at(s@, i as int) is None,
        },
{
    if i > s.len() || s.len() - i < 4 {
        return None;
    }
    let n = s[i] & PROTOCOL_COMMAND_MASK;
    if n >= PROTOCOL_COMMAND_COUNT {
        return None;
    }
    let size = enet_protocol_command_size(s[i]);
    if size == 0 || s.len() - i < size {
        return None;
    }
    let b = i + 4;
    let body = if n == 1 {
        Command::Acknowledge {
            received_reliable_sequence_number: read_u16(s, b),
            received_sent_time: read_u16(s, b + 2),
        }
    } else if n == 2 {
        Command::Connect { fields: read_connect_fields(s, b), data: read_u32(s, b + 40) }
    } else if n == 3 {
        Command::VerifyConnect { fields: read_connect_fields(s, b) }
    } else if n == 4 {
        Command::Disconnect { data: read_u32(s, b) }
    } else if n == 5 {
        Command::Ping
    } else if n == 6 {
        Command::SendReliable { data_length: read_u16(s, b) }
    } else if n == 7 {
        Command::SendUnreliable {
            unreliable_sequence_number: read_u16(s, b),
            data_length: read_u16(s, b + 2),
        }
    } else if n == 8 {
        Command::SendFragment { fragment: read_fragment_fields(s, b) }
    } else if n == 9 {
        Command::SendUnsequenced {
            unsequenced_group: read_u16(s, b),
            data_length: read_u16(s, b + 2),
        }
    } else if n == 10 {
        Command::BandwidthLimit {
            incoming_bandwidth: read_u32(s, b),
            outgoing_bandwidth: read_u32(s, b + 4),
        }
    } else if n == 11 {
        Command::ThrottleConfigure {
            packet_throttle_interval: read_u32(s, b),
            packet_throttle_acceleration: read_u32(s, b + 4),
            packet_throttle_deceleration: read_u32(s, b + 8),
        }
    } else {
        Command::SendUnreliableFragment { fragment: read_fragment_fields(s, b) }
    };
    let pc = ProtocolCommand {
        command: s[i],
        channel_id: s[i + 1],
        reliable_sequence_number: read_u16(s, i + 2),
        body,
    };
    Some((pc, size))
}


proof fn lemma_u16_in(s: Seq<u8>, off: int, x: u16)
    requires
        0 <= off,
        off + 2 <= s.len(),
        s.subrange(off, off + 2) == u16_bytes(x),
    ensures
        u16_at(s, off) == x,
{
    assert(s[off] == s.subrange(off, off + 2)[0]);
    assert(s[off + 1] == s.subrange(off, off + 2)[1]);
}

proof fn lemma_u32_in(s: Seq<u8>, off: int, x: u32)
    requires
        0 <= off,
        off + 4 <= s.len(),
        s.subrange(off, off + 4) == u32_bytes(x),
    ensures
        u32_at(s, off) == x,
{
    assert(s[off] == s.subrange(off, off + 4)[0]);
    assert(s[off + 1] == s.subrange(off, off + 4)[1]);
    assert(s[off + 2] == s.subrange(off, off + 4)[2]);
    assert(s[off + 3] == s.subrange(off, off + 4)[3]);
    let a = x / 16777216;
    let b = (x / 65536) % 256;
    let c = (x / 256) % 256;
    let d = x % 256;
    assert(a * 16777216 + b * 65536 + c * 256 + d == x) by (nonlinear_arith)
        requires
            a == x / 16777216,
            b == (x / 65536) % 256,
            c == (x / 256) % 256,
            d == x % 256,
    ;
}

#[verifier::spinoff_prover]
#[verifier::rlimit(50)]
proof fn lemma_connect_fields(f: ConnectFields, t: Seq<u8>)
    ensures
        connect_fields_bytes(f).len() == 40,
        connect_fields_at(connect_fields_bytes(f) + t, 0) == f,
{
    let s = connect_fields_bytes(f) + t;
    assert(s.subrange(0int, 2int) =~= u16_bytes(f.outgoing_peer_id));
    lemma_u16_in(s, 0, f.outgoing_peer_id);
    assert(s[2] == f.incoming_session_id && s[3] == f.outgoing_session_id);
    assert(s.subrange(4int, 8int) =~= u32_bytes(f.mtu));
    lemma_u32_in(s, 4, f.mtu);
    assert(s.subrange(8int, 12int) =~= u32_bytes(f.window_size));
    lemma_u32_in(s, 8, f.window_size);
    assert(s.subrange(12int, 16int) =~= u32_bytes(f.channel_count));
    lemma_u32_in(s, 12, f.channel_count);
    assert(s.subrange(16int, 20int) =~= u32_bytes(f.incoming_bandwidth));
    lemma_u32_in(s, 16, f.incoming_bandwidth);
    assert(s.subrange(20int, 24int) =~= u32_bytes(f.outgoing_bandwidth));
    lemma_u32_in(s, 20, f.outgoing_bandwidth);
    assert(s.subrange(24int, 28int) =~= u32_bytes(f.packet_throttle_interval));
    lemma_u32_in(s, 24, f.packet_throttle_interval);
    assert(s.subrange(28int, 32int) =~= u32_bytes(f.packet_throttle_acceleration));
    lemma_u32_in(s, 28, f.packet_throttle_acceleration);
    assert(s.subrange(32int, 36int) =~= u32_bytes(f.packet_throttle_deceleration));
    lemma_u32_in(s, 32, f.packet_throttle_deceleration);
    assert(s.subrange(36int, 40int) =~= u32_bytes(crate::os::be32(f.connect_id)));
    lemma_u32_in(s, 36, crate::os::be32(f.connect_id));
    crate::os::law_ntohl_htonl(f.connect_id);
}

#[verifier::spinoff_prover]
proof fn lemma_fragment_fields(f: FragmentFields, t: Seq<u8>)
    ensures
        fragment_fields_bytes(f).len() == 20,
        fragment_fields_at(fragment_fields_bytes(f) + t, 0) == f,
{
    let s = fragment_fields_bytes(f) + t;
    assert(s.subrange(0int, 2int) =~= u16_bytes(f.start_sequence_number));
    lemma_u16_in(s, 0, f.start_sequence_number);
    assert(s.subrange(2int, 4int) =~= u16_bytes(f.data_length));
    lemma_u16_in(s, 2, f.data_length);
    assert(s.subrange(4int, 8int) =~= u32_bytes(f.fragment_count));
    lemma_u32_in(s, 4, f.fragment_count);
    assert(s.subrange(8int, 12int) =~= u32_bytes(f.fragment_number));
    lemma_u32_in(s, 8, f.fragment_number);
    assert(s.subrange(12int, 16int) =~= u32_bytes(f.total_length));
    lemma_u32_in(s, 12, f.total_length);
    assert(s.subrange(16int, 20int) =~= u32_bytes(f.fragment_offset));
    lemma_u32_in(s, 16, f.fragment_offset);
}

proof fn lemma_shift_u16(p: Seq<u8>, u: Seq<u8>, k: int)
    requires
        0 <= k,
        k + 2 <= u.len(),
    ensures
        u16_at(p + u, p.len() + k) == u16_at(u, k),
{
    assert((p + u)[p.len() + k] == u[k]);
    assert((p + u)[p.len() + k + 1] == u[k + 1]);
}

proof fn lemma_shift_u32(p: Seq<u8>, u: Seq<u8>, k: int)
    requires
        0 <= k,
        k + 4 <= u.len(),
    ensures
        u32_at(p + u, p.len() + k) == u32_at(u, k),
{
    assert((p + u)[p.len() + k] == u[k]);
    assert((p + u)[p.len() + k + 1] == u[k + 1]);
    assert((p + u)[p.len() + k + 2] == u[k + 2]);
    assert((p + u)[p.len() + k + 3] == u[k + 3]);
}

proof fn lemma_shift_connect(p: Seq<u8>, u: Seq<u8>)
    requires
        40 <= u.len(),
    ensures
        connect_fields_at(p + u, p.len() as int) == connect_fields_at(u, 0),
{
    lemma_shift_u16(p, u, 0);
    assert((p + u)[p.len() + 2int] == u[2]);
    assert((p + u)[p.len() + 3int] == u[3]);
    lemma_shift_u32(p, u, 4);
    lemma_shift_u32(p, u, 8);
    lemma_shift_u32(p, u, 12);
    lemma_shift_u32(p, u, 16);
    lemma_shift_u32(p, u, 20);
    lemma_shift_u32(p, u, 24);
    lemma_shift_u32(p, u, 28);
    lemma_shift_u32(p, u, 32);
    lemma_shift_u32(p, u, 36);
}

proof fn lemma_shift_fragment(p: Seq<u8>, u: Seq<u8>)
    requires
        20 <= u.len(),
    ensures
        fragment_fields_at(p + u, p.len() as int) == fragment_fields_at(u, 0),
{
    lemma_shift_u16(p, u, 0);
    lemma_shift_u16(p, u, 2);
    lemma_shift_u32(p, u, 4);
    lemma_shift_u32(p, u, 8);
    lemma_shift_u32(p, u, 12);
    lemma_shift_u32(p, u, 16);
}

proof fn lemma_u16_prefix(x: u16, t: Seq<u8>)
    ensures
        u16_at(u16_bytes(x) + t, 0) == x,
{
    let s = u16_bytes(x) + t;
    assert(s.subrange(0, 2) =~= u16_bytes(x));
    lemma_u16_in(s, 0, x);
}

proof fn lemma_u32_prefix(x: u32, t: Seq<u8>)
    ensures
        u32_at(u32_bytes(x) + t, 0) == x,
{
    let s = u32_bytes(x) + t;
    assert(s.subrange(0, 4) =~= u32_bytes(x));
    lemma_u32_in(s, 0, x);
}

/// Reading a command body back from its bytes gives the body.
#[verifier::spinoff_prover]
#[verifier::rlimit(40)]
proof fn lemma_body(c: Command, t: Seq<u8>)
    ensures
        body_bytes(c).len() + 4 == command_size_of(body_number(c)),
        body_at(body_bytes(c) + t, 0, body_number(c)) == c,
{
    match c {
        Command::Acknowledge { received_reliable_sequence_number: a, received_sent_time: b } => {
            assert(body_bytes(c) + t =~= u16_bytes(a) + (u16_bytes(b) + t));
            lemma_u16_prefix(a, u16_bytes(b) + t);
            lemma_shift_u16(u16_bytes(a), u16_bytes(b) + t, 0);
            lemma_u16_prefix(b, t);
        },
        Command::Connect { fields, data } => {
            assert(body_bytes(c) + t =~= connect_fields_bytes(fields) + (u32_bytes(data) + t));
            lemma_connect_fields(fields, u32_bytes(data) + t);
            lemma_shift_u32(connect_fields_bytes(fields), u32_bytes(data) + t, 0);
            lemma_u32_prefix(data, t);
        },
        Command::VerifyConnect { fields } => {
            lemma_connect_fields(fields, t);
        },
        Command::Disconnect { data } => {
            lemma_u32_prefix(data, t);
        },
        Command::Ping => {},
        Command::SendReliable { data_length } => {
            lemma_u16_prefix(data_length, t);
        },
        Command::SendUnreliable { unreliable_sequence_number: a, data_length: b } => {
            assert(body_bytes(c) + t =~= u16_bytes(a) + (u16_bytes(b) + t));
            lemma_u16_prefix(a, u16_bytes(b) + t);
            lemma_shift_u16(u16_bytes(a), u16_bytes(b) + t, 0);
            lemma_u16_prefix(b, t);
        },
        Command::SendFragment { fragment } => {
            lemma_fragment_fields(fragment, t);
        },
        Command::SendUnsequenced { unsequenced_group: a, data_length: b } => {
            assert(body_bytes(c) + t =~= u16_bytes(a) + (u16_bytes(b) + t));
            lemma_u16_prefix(a, u16_bytes(b) + t);
            lemma_shift_u16(u16_bytes(a), u16_bytes(b) + t, 0);
            lemma_u16_prefix(b, t);
        },
        Command::BandwidthLimit { incoming_bandwidth: a, outgoing_bandwidth: b } => {
            assert(body_bytes(c) + t =~= u32_bytes(a) + (u32_bytes(b) + t));
            lemma_u32_prefix(a, u32_bytes(b) + t);
            lemma_shift_u32(u32_bytes(a), u32_bytes(b) + t, 0);
            lemma_u32_prefix(b, t);
        },
        Command::ThrottleConfigure {
            packet_throttle_interval: a,
            packet_throttle_acceleration: b,
            packet_throttle_deceleration: d,
        } => {
            assert(body_bytes(c) + t =~= u32_bytes(a) + (u32_bytes(b) + (u32_bytes(d) + t)));
            lemma_u32_prefix(a, u32_bytes(b) + (u32_bytes(d) + t));
            lemma_shift_u32(u32_bytes(a), u32_bytes(b) + (u32_bytes(d) + t), 0);
            lemma_u32_prefix(b, u32_bytes(d) + t);
            lemma_shift_u32(u32_bytes(a), u32_bytes(b) + (u32_bytes(d) + t), 4);
            lemma_shift_u32(u32_bytes(b), u32_bytes(d) + t, 0);
            lemma_u32_prefix(d, t);
        },
        Command::SendUnreliableFragment { fragment } => {
            lemma_fragment_fields(fragment, t);
        },
    }
}

proof fn lemma_body_shift(p: Seq<u8>, u: Seq<u8>, n: u8)
    requires
        1 <= n < PROTOCOL_COMMAND_COUNT,
        command_size_of(n) <= u.len() + 4,
    ensures
        body_at(p + u, p.len() as int, n) == body_at(u, 0, n),
{
    if n == 1 || n == 7 || n == 9 {
        lemma_shift_u16(p, u, 0);
        lemma_shift_u16(p, u, 2);
    } else if n == 2 || n == 3 {
        lemma_shift_connect(p, u);
        if n == 2 {
            lemma_shift_u32(p, u, 40);
        }
    } else if n == 4 {
        lemma_shift_u32(p, u, 0);
    } else if n == 6 {
        lemma_shift_u16(p, u, 0);
    } else if n == 8 || n == 12 {
        lemma_shift_fragment(p, u);
    } else if n == 10 {
        lemma_shift_u32(p, u, 0);
        lemma_shift_u32(p, u, 4);
    } else if n == 11 {
        lemma_shift_u32(p, u, 0);
        lemma_shift_u32(p, u, 4);
        lemma_shift_u32(p, u, 8);
    }
}

/// Reading back the bytes of a well-formed protocol command gives the command and its
/// size, whatever bytes follow it.
pub proof fn law_command_roundtrip(pc: ProtocolCommand, rest: Seq<u8>)
    requires
        well_formed(pc),
    ensures
        command_bytes(pc).len() == command_size_of(body_number(pc.body)),
        command_at(command_bytes(pc) + rest, 0) == Some((pc, command_bytes(pc).len())),
{
    let h = seq![pc.command, pc.channel_id] + u16_bytes(pc.reliable_sequence_number);
    let u = body_bytes(pc.body) + rest;
    let s = command_bytes(pc) + rest;
    assert(s =~= h + u);
    lemma_body(pc.body, rest);
    let n = body_number(pc.body);
    lemma_body_shift(h, u, n);
    assert(s.subrange(2, 4) =~= u16_bytes(pc.reliable_sequence_number));
    lemma_u16_in(s, 2, pc.reliable_sequence_number);
    assert(s[0] == pc.command);
}


/// The number of payload bytes that follow a send command, as its header says; `None` for
/// the commands that carry no payload.
pub open spec fn payload_length(c: Command) -> Option<int> {
    match c {
        Command::SendReliable { data_length } => Some(data_length as int),
        Command::SendUnreliable { data_length, .. } => Some(data_length as int),
        Command::SendUnsequenced { data_length, .. } => Some(data_length as int),
        Command::SendFragment { fragment } => Some(fragment.data_length as int),
        Command::SendUnreliableFragment { fragment } => Some(fragment.data_length as int),
        _ => None,
    }
}

/// Whether a payload length is acceptable for a send command: no more than the largest
/// packet the host takes, and not empty for a reliable fragment.
pub open spec fn payload_ok(c: Command, len: int, maximum_packet_size: int) -> bool {
    len <= maximum_packet_size && (c is SendFragment ==> len > 0)
}

/// The commands of a datagram `s`, read from index `off`: each command with the index and
/// length of its payload. Reading stops at the end of the datagram, at a command that does
/// not fit or is not one, and at a send command whose payload does not fit or is refused.
pub open spec fn commands_at(s: Seq<u8>, off: int, maximum_packet_size: int) -> Seq<
    (ProtocolCommand, int, int),
>
    decreases s.len() - off,
{
    if off < 0 || off >= s.len() {
        Seq::empty()
    } else {
        match command_at(s, off) {
            None => Seq::empty(),
            Some((pc, size)) => {
                let next = off + size;
                match payload_length(pc.body) {
                    None => seq![(pc, next, 0int)] + commands_at(s, next, maximum_packet_size),
                    Some(len) => if payload_ok(pc.body, len, maximum_packet_size) && next + len
                        <= s.len() {
                        seq![(pc, next, len)] + commands_at(s, next + len, maximum_packet_size)
                    } else {
                        Seq::empty()
                    },
                }
            },
        }
    }
}

/// Every command read from a datagram is well formed, and its payload lies within the
/// datagram, has the length its command gives, and is one the host takes.
pub proof fn lemma_commands_at_facts(s: Seq<u8>, off: int, maximum_packet_size: int)
    ensures
        forall|k: int|
            0 <= k < commands_at(s, off, maximum_packet_size).len() ==> {
                let (pc, o, l) = #[trigger] commands_at(s, off, maximum_packet_size)[k];
                &&& well_formed(pc)
                &&& 0 <= o
                &&& 0 <= l
                &&& o + l <= s.len()
                &&& match payload_length(pc.body) {
                    Some(x) => x == l && payload_ok(pc.body, l, maximum_packet_size),
                    None => l == 0,
                }
            },
    decreases s.len() - off,
{
    if !(off < 0 || off >= s.len()) {
        match command_at(s, off) {
            None => {},
            Some((pc, size)) => {
                let next = off + size;
                let n = command_number(s[off]);
                assert(well_formed(pc));
                match payload_length(pc.body) {
                    None => {
                        lemma_commands_at_facts(s, next, maximum_packet_size);
                        let r = commands_at(s, next, maximum_packet_size);
                        assert forall|k: int| 0 <= k < commands_at(s, off, maximum_packet_size).len() implies {
                            let (pc, o, l) = #[trigger] commands_at(s, off, maximum_packet_size)[k];
                            &&& well_formed(pc)
                            &&& 0 <= o
                            &&& 0 <= l
                            &&& o + l <= s.len()
                            &&& match payload_length(pc.body) {
                                Some(x) => x == l && payload_ok(pc.body, l, maximum_packet_size),
                                None => l == 0,
                            }
                        } by {
                            if k > 0 {
                                assert(commands_at(s, off, maximum_packet_size)[k] == r[k - 1]);
                            }
                        }
                    },
                    Some(len) => if payload_ok(pc.body, len, maximum_packet_size) && next + len
                        <= s.len() {
                        lemma_commands_at_facts(s, next + len, maximum_packet_size);
                        let r = commands_at(s, next + len, maximum_packet_size);
                        assert forall|k: int| 0 <= k < commands_at(s, off, maximum_packet_size).len() implies {
                            let (pc, o, l) = #[trigger] commands_at(s, off, maximum_packet_size)[k];
                            &&& well_formed(pc)
                            &&& 0 <= o
                            &&& 0 <= l
                            &&& o + l <= s.len()
                            &&& match payload_length(pc.body) {
                                Some(x) => x == l && payload_ok(pc.body, l, maximum_packet_size),
                                None => l == 0,
                            }
                        } by {
                            if k > 0 {
                                assert(commands_at(s, off, maximum_packet_size)[k] == r[k - 1]);
                            }
                        }
                    } else {
                    },
                }
            },
        }
    }
}

/// A command read from a datagram, with where its payload lies in the datagram.
#[derive(Debug, Clone, Copy, PartialEq, Eq, Structural)]
pub struct ReceivedCommand {
    pub command: ProtocolCommand,
    pub payload_offset: usize,
    pub payload_length: usize,
}

/// The received commands as mathematical triples.
pub open spec fn received_view(v: Seq<ReceivedCommand>) -> Seq<(ProtocolCommand, int, int)> {
    Seq::new(
        v.len(),
        |i: int| (v[i].command, v[i].payload_offset as int, v[i].payload_length as int),
    )
}

fn payload_len(c: &Command) -> (r: Option<usize>)
    ensures
        match r {
            Some(n) => payload_length(*c) == Some(n as int),
            None => payload_length(*c) is None,
        },
{
    match c {
        Command::SendReliable { data_length } => Some(*data_length as usize),
        Command::SendUnreliable { data_length, .. } => Some(*data_length as usize),
        Command::SendUnsequenced { data_length, .. } => Some(*data_length as usize),
        Command::SendFragment { fragment } => Some(fragment.data_length as usize),
        Command::SendUnreliableFragment { fragment } => Some(fragment.data_length as usize),
        _ => None,
    }
}

/// Read the commands of a datagram `s` from index `start` (just after the datagram header):
/// each command with where its payload lies. Reading stops at the end, at bytes that are not
/// a whole command, and at a send command whose payload does not fit in the datagram, is
/// larger than `maximum_packet_size`, or is an empty reliable fragment.
pub fn parse_commands(s: &[u8], start: usize, maximum_packet_size: usize) -> (r: Vec<
    ReceivedCommand,
>)
    ensures
        received_view(r@) == commands_at(s@, start as int, maximum_packet_size as int),
{
    let mut out: Vec<ReceivedCommand> = Vec::new();
    let mut off = start;
    let n = s.len();
    while off < n
        invariant
            n == s@.len(),
            received_view(out@) + commands_at(s@, off as int, maximum_packet_size as int)
                == commands_at(s@, start as int, maximum_packet_size as int),
        ensures
            received_view(out@) == commands_at(s@, start as int, maximum_packet_size as int),
        decreases n - off,
    {
        let ghost before = out@;
        match decode_command(s, off) {
            None => {
                assert(received_view(out@) + Seq::<(ProtocolCommand, int, int)>::empty()
                    =~= received_view(out@));
                break;
            },
            Some((pc, size)) => {
                let next = off + size;
                match payload_len(&pc.body) {
                    None => {
                        out.push(ReceivedCommand { command: pc, payload_offset: next, payload_length: 0 });
                        assert(received_view(out@) =~= received_view(before).push(
                            (pc, next as int, 0int),
                        ));
                        assert(received_view(out@) + commands_at(s@, next as int, maximum_packet_size as int)
                            =~= received_view(before) + (seq![(pc, next as int, 0int)]
                            + commands_at(s@, next as int, maximum_packet_size as int)));
                        off = next;
                    },
                    Some(len) => {
                        let fragment_ok = match &pc.body {
                            Command::SendFragment { .. } => len > 0,
                            _ => true,
                        };
                        if len <= maximum_packet_size && fragment_ok && len <= n - next {
                            out.push(
                                ReceivedCommand {
                                    command: pc,
                                    payload_offset: next,
                                    payload_length: len,
                                },
                            );
                            assert(received_view(out@) =~= received_view(before).push(
                                (pc, next as int, len as int),
                            ));
                            assert(received_view(out@) + commands_at(s@, (next + len) as int, maximum_packet_size as int)
                                =~= received_view(before) + (seq![(pc, next as int, len as int)]
                                + commands_at(s@, (next + len) as int, maximum_packet_size as int)));
                            off = next + len;
                        } else {
                            assert(received_view(out@) + Seq::<(ProtocolCommand, int, int)>::empty()
                                =~= received_view(out@));
                            break;
                        }
                    },
                }
            },
        }
    }
    proof {
        if off >= n {
            assert(received_view(out@) + Seq::<(ProtocolCommand, int, int)>::empty()
                =~= received_view(out@));
        }
    }
    out
}


/// A command to send together with its payload.
pub struct OutgoingFrame {
    pub command: ProtocolCommand,
    pub payload: Vec<u8>,
}

/// The bytes of a sequence of commands with their payloads, one after the other.
pub open spec fn frames_bytes(fs: Seq<(ProtocolCommand, Seq<u8>)>) -> Seq<u8>
    decreases fs.len(),
{
    if fs.len() == 0 {
        Seq::empty()
    } else {
        command_bytes(fs[0].0) + fs[0].1 + frames_bytes(fs.skip(1))
    }
}

/// What reading the bytes of the commands `fs` at index `off` is meant to give back: each
/// command with the index and length of its payload.
pub open spec fn frames_received(fs: Seq<(ProtocolCommand, Seq<u8>)>, off: int) -> Seq<
    (ProtocolCommand, int, int),
>
    decreases fs.len(),
{
    if fs.len() == 0 {
        Seq::empty()
    } else {
        let next = off + command_bytes(fs[0].0).len();
        seq![(fs[0].0, next, fs[0].1.len() as int)] + frames_received(
            fs.skip(1),
            next + fs[0].1.len(),
        )
    }
}

/// Whether a command and its payload can be sent and read back: the command is well
/// formed, a send command's payload has the length that its header gives and is one the
/// host takes, and other commands carry no payload.
pub open spec fn frame_ok(f: (ProtocolCommand, Seq<u8>), maximum_packet_size: int) -> bool {
    &&& well_formed(f.0)
    &&& match payload_length(f.0.body) {
        None => f.1.len() == 0,
        Some(n) => f.1.len() == n && payload_ok(f.0.body, n, maximum_packet_size),
    }
}

/// The frames as mathematical pairs.
pub open spec fn frames_view(v: Seq<OutgoingFrame>) -> Seq<(ProtocolCommand, Seq<u8>)> {
    Seq::new(v.len(), |i: int| (v[i].command, v[i].payload@))
}

/// Append the bytes of each command followed by its payload to `out`.
pub fn encode_frames(frames: &Vec<OutgoingFrame>, out: &mut Vec<u8>)
    ensures
        final(out)@ == old(out)@ + frames_bytes(frames_view(frames@)),
{
    let ghost fs = frames_view(frames@);
    let mut i: usize = 0;
    assert(fs.skip(0) =~= fs);
    while i < frames.len()
        invariant
            i <= frames@.len(),
            fs == frames_view(frames@),
            old(out)@ + frames_bytes(fs) == out@ + frames_bytes(fs.skip(i as int)),
        decreases frames@.len() - i,
    {
        let ghost before = out@;
        encode_command(&frames[i].command, out);
        let payload = frames[i].payload.as_slice();
        let mut j: usize = 0;
        while j < payload.len()
            invariant
                j <= payload@.len(),
                payload@ == frames@[i as int].payload@,
                out@ == before + command_bytes(frames@[i as int].command) + payload@.take(
                    j as int,
                ),
            decreases payload@.len() - j,
        {
            out.push(payload[j]);
            assert(payload@.take(j + 1) =~= payload@.take(j as int).push(payload@[j as int]));
            j = j + 1;
        }
        assert(payload@.take(payload@.len() as int) =~= payload@);
        assert(fs.skip(i as int).skip(1) =~= fs.skip(i + 1));
        assert(fs.skip(i as int)[0] == fs[i as int]);
        assert(frames_bytes(fs.skip(i as int)) == command_bytes(fs[i as int].0) + fs[i as int].1
            + frames_bytes(fs.skip(i + 1)));
        assert(out@ + frames_bytes(fs.skip(i + 1)) =~= before + frames_bytes(fs.skip(i as int)));
        i = i + 1;
    }
    assert(fs.skip(i as int) =~= Seq::<(ProtocolCommand, Seq<u8>)>::empty());
    assert(out@ + Seq::<u8>::empty() =~= out@);
}

proof fn lemma_command_at_shift(p: Seq<u8>, u: Seq<u8>)
    requires
        command_at(u, 0) is Some,
    ensures
        command_at(p + u, p.len() as int) == command_at(u, 0),
{
    let s = p + u;
    let i = p.len() as int;
    assert(s[i] == u[0]);
    assert(s[i + 1] == u[1]);
    lemma_shift_u16(p, u, 2);
    let n = command_number(u[0]);
    let q = p + seq![u[0], u[1], u[2], u[3]];
    let v = u.skip(4);
    assert(s =~= q + v);
    assert(u =~= seq![u[0], u[1], u[2], u[3]] + v);
    lemma_body_shift(q, v, n);
    lemma_body_shift(seq![u[0], u[1], u[2], u[3]], v, n);
}

/// Reading back the bytes of a sequence of commands with their payloads gives each command
/// with where its payload lies, whatever bytes come before them.
pub proof fn law_frames_roundtrip(
    p: Seq<u8>,
    fs: Seq<(ProtocolCommand, Seq<u8>)>,
    maximum_packet_size: int,
)
    requires
        forall|i: int| 0 <= i < fs.len() ==> frame_ok(#[trigger] fs[i], maximum_packet_size),
    ensures
        commands_at(p + frames_bytes(fs), p.len() as int, maximum_packet_size) == frames_received(
            fs,
            p.len() as int,
        ),
    decreases fs.len(),
{
    if fs.len() == 0 {
        assert(p + frames_bytes(fs) =~= p);
    } else {
        let f = fs[0];
        assert(frame_ok(f, maximum_packet_size));
        let cb = command_bytes(f.0);
        let rest = frames_bytes(fs.skip(1));
        let u = cb + (f.1 + rest);
        assert(frames_bytes(fs) =~= u);
        law_command_roundtrip(f.0, f.1 + rest);
        lemma_command_at_shift(p, u);
        let s = p + frames_bytes(fs);
        assert(s =~= p + u);
        let p2 = p + cb + f.1;
        assert(p2 + rest =~= s);
        assert forall|i: int| 0 <= i < fs.skip(1).len() implies frame_ok(
            #[trigger] fs.skip(1)[i],
            maximum_packet_size,
        ) by {
            assert(fs.skip(1)[i] == fs[i + 1]);
        }
        law_frames_roundtrip(p2, fs.skip(1), maximum_packet_size);
        let next = p.len() + cb.len();
        assert(p2.len() == next + f.1.len());
    }
}


/// The header of a datagram, as read: the peer it is for, the session, the header flags,
/// the time it was sent (zero when it does not say), and the size of the header in bytes.
#[derive(Debug, Clone, Copy, PartialEq, Eq, Structural)]
pub struct ProtocolHeader {
    pub peer_id: u16,
    pub session_id: u8,
    pub flags: u16,
    pub sent_time: u16,
    pub header_size: usize,
}

/// The header of datagram `s`, when the datagram is long enough to hold the peer field.
/// A checksum, when the host uses one, takes four more bytes of header.
pub open spec fn header_of(s: Seq<u8>, checksum: bool) -> Option<ProtocolHeader> {
    if s.len() < 2 {
        None
    } else {
        let raw = u16_at(s, 0);
        let flags = raw & PROTOCOL_HEADER_FLAG_MASK;
        let has_time = flags & PROTOCOL_HEADER_FLAG_SENT_TIME != 0;
        Some(
            ProtocolHeader {
                peer_id: raw & !(PROTOCOL_HEADER_FLAG_MASK | PROTOCOL_HEADER_SESSION_MASK),
                session_id: ((raw & PROTOCOL_HEADER_SESSION_MASK) >> PROTOCOL_HEADER_SESSION_SHIFT) as u8,
                flags,
                sent_time: if has_time && s.len() >= 4 {
                    u16_at(s, 2)
                } else {
                    0
                },
                header_size: ((if has_time {
                    4int
                } else {
                    2int
                }) + (if checksum {
                    4int
                } else {
                    0int
                })) as usize,
            },
        )
    }
}

/// Read the header of a datagram. Returns `None` when the datagram is shorter than the
/// peer field.
pub fn parse_header(s: &[u8], checksum: bool) -> (r: Option<ProtocolHeader>)
    ensures
        r == header_of(s@, checksum),
{
    if s.len() < 2 {
        return None;
    }
    let raw = read_u16(s, 0);
    let flags = raw & PROTOCOL_HEADER_FLAG_MASK;
    let has_time = flags & PROTOCOL_HEADER_FLAG_SENT_TIME != 0;
    let sent_time = if has_time && s.len() >= 4 {
        read_u16(s, 2)
    } else {
        0
    };
    let base: usize = if has_time {
        4
    } else {
        2
    };
    let header_size: usize = if checksum {
        base + 4
    } else {
        base
    };
    Some(
        ProtocolHeader {
            peer_id: raw & !(PROTOCOL_HEADER_FLAG_MASK | PROTOCOL_HEADER_SESSION_MASK),
            session_id: ((raw & PROTOCOL_HEADER_SESSION_MASK) >> PROTOCOL_HEADER_SESSION_SHIFT) as u8,
            flags,
            sent_time,
            header_size,
        },
    )
}

/// The peer field of an outgoing datagram header: the peer id the remote host knows us
/// by, with the header flags and, once that id is known, the session.
pub open spec fn header_peer_field(outgoing_peer_id: u16, header_flags: u16, session: u8) -> u16 {
    if outgoing_peer_id < PROTOCOL_MAXIMUM_PEER_ID as u16 {
        outgoing_peer_id | (header_flags | ((session as u16) << PROTOCOL_HEADER_SESSION_SHIFT))
    } else {
        outgoing_peer_id | header_flags
    }
}

/// Append the header of an outgoing datagram to `out`: the peer field, then the time of
/// sending (its low 16 bits) when the header flags ask for it.
pub fn encode_header(
    outgoing_peer_id: u16,
    header_flags: u16,
    session: u8,
    service_time: u32,
    out: &mut Vec<u8>,
)
    ensures
        final(out)@ == old(out)@ + u16_bytes(header_peer_field(outgoing_peer_id, header_flags, session))
            + if header_flags & PROTOCOL_HEADER_FLAG_SENT_TIME != 0 {
            u16_bytes((service_time % 65536) as u16)
        } else {
            Seq::empty()
        },
{
    let ghost start = out@;
    let field = if outgoing_peer_id < 4095 {
        outgoing_peer_id | (header_flags | ((session as u16) << 12u16))
    } else {
        outgoing_peer_id | header_flags
    };
    push_u16(out, field);
    if header_flags & PROTOCOL_HEADER_FLAG_SENT_TIME != 0 {
        push_u16(out, (service_time % 65536) as u16);
    } else {
        assert(out@ + Seq::<u8>::empty() =~= out@);
    }
}

/// Reading back the header of a datagram that holds a peer id, a session and header flags
/// gives them back, with the time of sending when the flags carry it.
pub proof fn law_header_roundtrip(
    peer_id: u16,
    header_flags: u16,
    session: u8,
    sent: u16,
    rest: Seq<u8>,
    checksum: bool,
)
    requires
        peer_id < PROTOCOL_MAXIMUM_PEER_ID,
        session < 4,
        header_flags & !PROTOCOL_HEADER_FLAG_MASK == 0,
    ensures
        ({
            let has_time = header_flags & PROTOCOL_HEADER_FLAG_SENT_TIME != 0;
            let bytes = u16_bytes(header_peer_field(peer_id, header_flags, session)) + if has_time {
                u16_bytes(sent)
            } else {
                Seq::empty()
            } + rest;
            let h = header_of(bytes, checksum);
            &&& h is Some
            &&& h->0.peer_id == peer_id
            &&& h->0.session_id == session
            &&& h->0.flags == header_flags
            &&& has_time ==> h->0.sent_time == sent
        }),
{
    let has_time = header_flags & PROTOCOL_HEADER_FLAG_SENT_TIME != 0;
    let field = header_peer_field(peer_id, header_flags, session);
    let tail = if has_time {
        u16_bytes(sent)
    } else {
        Seq::empty()
    } + rest;
    let bytes = u16_bytes(field) + tail;
    lemma_u16_prefix(field, tail);
    let s16 = session as u16;
    assert(field == peer_id | (header_flags | (s16 << 12u16)));
    assert((field & 49152u16) == header_flags && (field & !(49152u16 | 12288u16)) == peer_id && ((
    field & 12288u16) >> 12u16) == s16) by (bit_vector)
        requires
            field == peer_id | (header_flags | (s16 << 12u16)),
            peer_id < 4095,
            s16 < 4,
            header_flags & !49152u16 == 0,
    ;
    if has_time {
        assert(tail =~= u16_bytes(sent) + rest);
        lemma_shift_u16(u16_bytes(field), tail, 0);
        lemma_u16_prefix(sent, rest);
    }
}

} // verus!
