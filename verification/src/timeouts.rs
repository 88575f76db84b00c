//! Time outs of reliable commands: a sent command that is not acknowledged within its
//! round trip time out is sent again, with the time out doubled, until the peer has gone
//! unanswered for too long and counts as disconnected.
use vstd::prelude::*;
use crate::peer::{time_difference, OutgoingCommand, Peer};
use crate::control::same_link;

verus! {

/// How much the send attempts of a command weigh against a peer's time out limit: two to
/// the power of one less than the attempts.
pub open spec fn attempts_weight(send_attempts: u16) -> u32 {
    if send_attempts == 0 {
        0
    } else if send_attempts - 1 < 32 {
        (1u32 << ((send_attempts - 1) as u32)) as u32
    } else {
        u32::MAX
    }
}

/// Whether peer `p`, first left unanswered at `earliest`, has timed out at `service_time`
/// over a command sent `send_attempts` times: it has gone unanswered for its maximum time
/// out, or for its minimum one with the command sent often enough.
pub open spec fn gave_up(p: Peer, earliest: u32, service_time: u32, send_attempts: u16) -> bool {
    let d = time_difference(service_time, earliest);
    earliest != 0 && (d >= p.timeout_maximum || (attempts_weight(send_attempts) >= p.timeout_limit
        && d >= p.timeout_minimum))
}

/// The scan of the sent reliable commands `l` of peer `p` from index `i` at `service_time`,
/// with the earliest time out, packets lost, reliable data in transit, the commands kept,
/// the commands to resend with packet data and without, and the next time out found so
/// far. Returns whether the peer timed out, those values after the scan, and the index
/// where it stopped. A command whose time out has not passed is kept; otherwise, unless
/// the peer times out, it counts as lost and is to be resent with its time out doubled.
pub open spec fn timeout_scan(
    l: Seq<OutgoingCommand>,
    i: int,
    p: Peer,
    service_time: u32,
    earliest: u32,
    lost: u32,
    transit: u32,
    kept: Seq<OutgoingCommand>,
    resend_data: Seq<OutgoingCommand>,
    resend: Seq<OutgoingCommand>,
    next: u32,
) -> (bool, u32, u32, u32, Seq<OutgoingCommand>, Seq<OutgoingCommand>, Seq<OutgoingCommand>, u32, int)
    decreases l.len() - i,
{
    if i < 0 || i >= l.len() {
        (false, earliest, lost, transit, kept, resend_data, resend, next, i)
    } else {
        let c = l[i];
        if time_difference(service_time, c.sent_time) < c.round_trip_timeout {
            timeout_scan(
                l,
                i + 1,
                p,
                service_time,
                earliest,
                lost,
                transit,
                kept.push(c),
                resend_data,
                resend,
                next,
            )
        } else {
            let e = if earliest == 0 || c.sent_time.wrapping_sub(earliest) >= 86400000 {
                c.sent_time
            } else {
                earliest
            };
            if gave_up(p, e, service_time, c.send_attempts) {
                (true, e, lost, transit, kept, resend_data, resend, next, i)
            } else {
                let c2 = OutgoingCommand {
                    round_trip_timeout: c.round_trip_timeout.wrapping_mul(2),
                    ..c
                };
                let next2 = if kept.len() == 0 && i + 1 < l.len() {
                    l[i + 1].sent_time.wrapping_add(l[i + 1].round_trip_timeout)
                } else {
                    next
                };
                if c.has_packet {
                    timeout_scan(
                        l,
                        i + 1,
                        p,
                        service_time,
                        e,
                        lost.wrapping_add(1),
                        transit.wrapping_sub(c.fragment_length as u32),
                        kept,
                        resend_data.push(c2),
                        resend,
                        next2,
                    )
                } else {
                    timeout_scan(
                        l,
                        i + 1,
                        p,
                        service_time,
                        e,
                        lost.wrapping_add(1),
                        transit,
                        kept,
                        resend_data,
                        resend.push(c2),
                        next2,
                    )
                }
            }
        }
    }
}

/// Whether `p1` and `timed_out` are what checking the time outs of peer `p0` at
/// `service_time` gives (see [`timeout_scan`]): the commands to resend go, in order, to the
/// front of the queue they came from (with packet data, or without), and the commands
/// that were not scanned stay sent.
pub open spec fn timeouts_checked(p0: Peer, p1: Peer, service_time: u32, timed_out: bool) -> bool {
    let s = timeout_scan(
        p0.sent_reliable_commands@,
        0,
        p0,
        service_time,
        p0.earliest_timeout,
        p0.packets_lost,
        p0.reliable_data_in_transit,
        Seq::empty(),
        Seq::empty(),
        Seq::empty(),
        p0.next_timeout,
    );
    &&& timed_out == s.0
    &&& p1.sent_reliable_commands@ == s.4 + p0.sent_reliable_commands@.skip(s.8)
    &&& p1.outgoing_send_reliable_commands@ == s.5 + p0.outgoing_send_reliable_commands@
    &&& p1.outgoing_commands@ == s.6 + p0.outgoing_commands@
    &&& p1 == (Peer {
        sent_reliable_commands: p1.sent_reliable_commands,
        outgoing_send_reliable_commands: p1.outgoing_send_reliable_commands,
        outgoing_commands: p1.outgoing_commands,
        earliest_timeout: s.1,
        packets_lost: s.2,
        reliable_data_in_transit: s.3,
        next_timeout: s.7,
        ..p0
    })
}

fn weight(send_attempts: u16) -> (w: u32)
    ensures
        w == attempts_weight(send_attempts),
{
    if send_attempts == 0 {
        0
    } else if send_attempts - 1 < 32 {
        1u32 << ((send_attempts - 1) as u32)
    } else {
        u32::MAX
    }
}

proof fn lemma_scan_stop(
    l: Seq<OutgoingCommand>,
    i: int,
    p: Peer,
    service_time: u32,
    earliest: u32,
    lost: u32,
    transit: u32,
    kept: Seq<OutgoingCommand>,
    resend_data: Seq<OutgoingCommand>,
    resend: Seq<OutgoingCommand>,
    next: u32,
)
    requires
        0 <= i <= l.len(),
    ensures
        ({
            let s = timeout_scan(l, i, p, service_time, earliest, lost, transit, kept, resend_data, resend, next);
            &&& i <= s.8 <= l.len()
            &&& !s.0 ==> s.8 == l.len()
        }),
    decreases l.len() - i,
{
    if i < l.len() {
        let c = l[i];
        let e = if earliest == 0 || c.sent_time.wrapping_sub(earliest) >= 86400000 {
            c.sent_time
        } else {
            earliest
        };
        let c2 = OutgoingCommand { round_trip_timeout: c.round_trip_timeout.wrapping_mul(2), ..c };
        let next2 = if kept.len() == 0 && i + 1 < l.len() {
            l[i + 1].sent_time.wrapping_add(l[i + 1].round_trip_timeout)
        } else {
            next
        };
        lemma_scan_stop(l, i + 1, p, service_time, earliest, lost, transit, kept.push(c), resend_data, resend, next);
        lemma_scan_stop(l, i + 1, p, service_time, e, lost.wrapping_add(1), transit.wrapping_sub(c.fragment_length as u32), kept, resend_data.push(c2), resend, next2);
        lemma_scan_stop(l, i + 1, p, service_time, e, lost.wrapping_add(1), transit, kept, resend_data, resend.push(c2), next2);
    }
}

impl Peer {
    /// Check the time outs of the sent reliable commands at `service_time` (see
    /// [`timeouts_checked`]). Returns whether the peer timed out; the host then reports
    /// its disconnection.
    pub fn check_timeouts(&mut self, service_time: u32) -> (timed_out: bool)
        ensures
            same_link(*old(self), *final(self)),
            timeouts_checked(*old(self), *final(self), service_time, timed_out),
    {
        let ghost p0 = *self;
        let ghost l = self.sent_reliable_commands@;
        let mut rest: Vec<OutgoingCommand> = Vec::new();
        core::mem::swap(&mut rest, &mut self.sent_reliable_commands);
        let mut kept: Vec<OutgoingCommand> = Vec::new();
        let mut resend_data: Vec<OutgoingCommand> = Vec::new();
        let mut resend: Vec<OutgoingCommand> = Vec::new();
        let mut earliest = self.earliest_timeout;
        let mut lost = self.packets_lost;
        let mut transit = self.reliable_data_in_transit;
        let mut next = self.next_timeout;
        let mut timed_out = false;
        let ghost mut i: int = 0;
        proof {
            lemma_scan_stop(l, 0, p0, service_time, earliest, lost, transit, kept@, resend_data@, resend@, next);
        }
        assert(l.skip(0) =~= l);
        while rest.len() > 0
            invariant_except_break
                !timed_out,
            invariant
                0 <= i <= l.len(),
                rest@ == l.skip(i),
                self.sent_reliable_commands@.len() == 0,
                *self == (Peer { sent_reliable_commands: self.sent_reliable_commands, ..p0 }),
                timeout_scan(l, i, p0, service_time, earliest, lost, transit, kept@, resend_data@, resend@, next)
                    == timeout_scan(l, 0, p0, service_time, p0.earliest_timeout, p0.packets_lost,
                        p0.reliable_data_in_transit, Seq::empty(), Seq::empty(), Seq::empty(), p0.next_timeout),
            ensures
                0 <= i <= l.len(),
                rest@ == l.skip(i),
                self.sent_reliable_commands@.len() == 0,
                *self == (Peer { sent_reliable_commands: self.sent_reliable_commands, ..p0 }),
                timeout_scan(l, 0, p0, service_time, p0.earliest_timeout, p0.packets_lost,
                    p0.reliable_data_in_transit, Seq::empty(), Seq::empty(), Seq::empty(), p0.next_timeout)
                    == (timed_out, earliest, lost, transit, kept@, resend_data@, resend@, next, i),
            decreases rest@.len(),
        {
            let diff = if service_time.wrapping_sub(rest[0].sent_time) >= 86400000 {
                rest[0].sent_time.wrapping_sub(service_time)
            } else {
                service_time.wrapping_sub(rest[0].sent_time)
            };
            assert(rest@[0] == l[i]);
            if diff < rest[0].round_trip_timeout {
                let c = rest.remove(0);
                kept.push(c);
                proof {
                    assert(rest@ =~= l.skip(i + 1));
                    i = i + 1;
                }
                continue;
            }
            let sent_time = rest[0].sent_time;
            if earliest == 0 || sent_time.wrapping_sub(earliest) >= 86400000 {
                earliest = sent_time;
            }
            let d = if service_time.wrapping_sub(earliest) >= 86400000 {
                earliest.wrapping_sub(service_time)
            } else {
                service_time.wrapping_sub(earliest)
            };
            if earliest != 0 && (d >= self.timeout_maximum || (weight(rest[0].send_attempts)
                >= self.timeout_limit && d >= self.timeout_minimum)) {
                timed_out = true;
                break;
            }
            lost = lost.wrapping_add(1);
            let mut c = rest.remove(0);
            c.round_trip_timeout = c.round_trip_timeout.wrapping_mul(2);
            if kept.len() == 0 && rest.len() > 0 {
                next = rest[0].sent_time.wrapping_add(rest[0].round_trip_timeout);
                assert(rest@[0] == l[i + 1]);
            }
            if c.has_packet {
                transit = transit.wrapping_sub(c.fragment_length as u32);
                resend_data.push(c);
            } else {
                resend.push(c);
            }
            proof {
                assert(rest@ =~= l.skip(i + 1));
                i = i + 1;
            }
        }
        kept.append(&mut rest);
        self.sent_reliable_commands = kept;
        resend_data.append(&mut self.outgoing_send_reliable_commands);
        self.outgoing_send_reliable_commands = resend_data;
        resend.append(&mut self.outgoing_commands);
        self.outgoing_commands = resend;
        self.earliest_timeout = earliest;
        self.packets_lost = lost;
        self.reliable_data_in_transit = transit;
        self.next_timeout = next;
        timed_out
    }
}

} // verus!
