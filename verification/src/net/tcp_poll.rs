//! What a connection does on each poll: host events, held guest data, windowed sends,
//! retransmission, the FIN, and the end.

use vstd::prelude::*;

use crate::net::config::{bump, contents, one_more, NetCounters};
use crate::net::host::{EventView, HostEvent};
use crate::net::ipv4::Ipv4Address;
use crate::net::tcp_conn::{
    advance, advanced, close_reset, delay, later, lemma_events, lemma_segments, lemma_segments_push, line, mss_option,
    offer, scene, send, send_ack, ConnView, Line, Offer, OutSeg, OutSegView, Scene, TcpConn, LINGER_TIMEOUT,
    MAX_RETRANSMITS, MAX_UNACKED_SEGMENTS, OUR_WINDOW, RETRANSMIT_TIMEOUT, TCP_PENDING_CAP,
};
use crate::net::tcp_segment::{FLAG_ACK, FLAG_FIN, FLAG_RST, FLAG_SYN, OUR_MSS};

verus! {

/// The flags of a reset.
pub const RESET: u8 = 0x14;

/// The flags of the answer to a SYN.
pub const SYN_ACK: u8 = 0x12;

/// The flags of our FIN.
pub const FIN_ACK: u8 = 0x11;

/// The combined flags hold the single ones.
pub proof fn combined_flags()
    ensures
        RESET == FLAG_RST + FLAG_ACK,
        SYN_ACK == FLAG_SYN + FLAG_ACK,
        FIN_ACK == FLAG_FIN + FLAG_ACK,
{
}

impl ConnView {
    /// With the answer to the SYN in the retransmission queue.
    pub open spec fn after_syn_ack(self, now: u64) -> ConnView {
        ConnView {
            unacked: self.unacked.push(OutSegView { seq: self.our_isn, bytes: Seq::empty(), syn: true }),
            retransmit_deadline: Some(later(now, RETRANSMIT_TIMEOUT)),
            ..self
        }
    }

    pub open spec fn after_eof(self) -> ConnView {
        ConnView { host_eof: true, fin_pending: true, ..self }
    }
}

impl Scene {
    /// After one host event.
    pub open spec fn after_event(self, event: EventView, now: u64, guest_ip: Ipv4Address) -> Scene {
        match event {
            EventView::Connected => {
                if !self.conn.established && self.conn.unacked.len() == 0 {
                    Scene {
                        conn: self.conn.after_syn_ack(now),
                        ..self.sent(self.conn.our_isn, SYN_ACK, OUR_WINDOW, mss_option(), Seq::empty(), guest_ip)
                    }
                } else {
                    self
                }
            },
            EventView::ConnectFailed(message) => self.sent(
                self.conn.our_isn,
                RESET,
                0,
                Seq::empty(),
                Seq::empty(),
                guest_ip,
            ).reset(),
            EventView::Data(bytes) => Scene {
                conn: ConnView { pending: self.conn.pending + bytes, ..self.conn },
                ..self
            },
            EventView::Eof => Scene { conn: self.conn.after_eof(), ..self },
        }
    }

    /// After the first of the host events that wait.
    pub open spec fn after_first_event(self, now: u64, guest_ip: Ipv4Address) -> Scene {
        Scene { conn: ConnView { from_host: self.conn.from_host.skip(1), ..self.conn }, ..self }.after_event(
            self.conn.from_host[0],
            now,
            guest_ip,
        )
    }

    /// Whether a host event waits and the buffer towards the guest has room.
    pub open spec fn drains(self) -> bool {
        self.conn.pending.len() < TCP_PENDING_CAP && self.conn.from_host.len() > 0
    }

    /// After all events have been taken: a host side that will send no more has closed.
    pub open spec fn after_last_event(self) -> Scene {
        if self.conn.pending.len() < TCP_PENDING_CAP && self.conn.host_silent {
            Scene { conn: self.conn.after_eof(), ..self }
        } else {
            self
        }
    }

    /// After the host events, as far as the buffer towards the guest lets them in.
    #[verifier::opaque]
    pub open spec fn drained(self, now: u64, guest_ip: Ipv4Address) -> Scene
        decreases self.conn.from_host.len(),
    {
        if self.drains() {
            self.after_first_event(now, guest_ip).drained(now, guest_ip)
        } else {
            self.after_last_event()
        }
    }
}

/// One step of draining.
proof fn lemma_drain(here: Scene, now: u64, guest_ip: Ipv4Address)
    ensures
        here.drained(now, guest_ip) == if here.drains() {
            here.after_first_event(now, guest_ip).drained(now, guest_ip)
        } else {
            here.after_last_event()
        },
        here.drains() ==> here.after_first_event(now, guest_ip).conn.from_host.len() == here.conn.from_host.len() - 1,
        here.conn.wf() ==> here.after_first_event(now, guest_ip).conn.wf(),
        here.conn.wf() ==> here.after_last_event().conn.wf(),
{
    reveal(Scene::drained);
}

/// Answers the guest's SYN.
fn send_syn_ack(conn: &mut TcpConn, now: u64, guest_ip: Ipv4Address, ip_id: &mut u16, frames: &mut Vec<Vec<u8>>)
    ensures
        final(conn)@ == old(conn)@.after_syn_ack(now),
        *final(ip_id) == old(ip_id).wrapping_add(1),
        contents(final(frames)@) == contents(old(frames)@).push(
            old(conn)@.packet(
                old(conn)@.our_isn,
                SYN_ACK,
                OUR_WINDOW,
                mss_option(),
                Seq::empty(),
                guest_ip,
                *old(ip_id),
            ),
        ),
{
    let option: Vec<u8> = vec![2, 4, 5, 0xB4];
    let none: Vec<u8> = Vec::new();
    assert(option@ =~= mss_option());
    assert(none@ =~= Seq::<u8>::empty());
    send(conn, conn.our_isn, SYN_ACK, OUR_WINDOW, option.as_slice(), none.as_slice(), guest_ip, ip_id, frames);
    let segment = OutSeg { seq: conn.our_isn, bytes: none, syn: true };
    proof {
        lemma_segments_push(conn.unacked@, segment);
    }
    conn.unacked.push_back(segment);
    conn.retransmit_deadline = Some(delay(now, RETRANSMIT_TIMEOUT));
}

/// Sends a reset from sequence number `seq`.
fn send_reset(conn: &TcpConn, seq: u32, guest_ip: Ipv4Address, ip_id: &mut u16, frames: &mut Vec<Vec<u8>>)
    ensures
        *final(ip_id) == old(ip_id).wrapping_add(1),
        contents(final(frames)@) == contents(old(frames)@).push(
            conn@.packet(seq, RESET, 0, Seq::empty(), Seq::empty(), guest_ip, *old(ip_id)),
        ),
{
    let none: Vec<u8> = Vec::new();
    assert(none@ =~= Seq::<u8>::empty());
    send(conn, seq, RESET, 0, none.as_slice(), none.as_slice(), guest_ip, ip_id, frames);
}

/// Notes that the host has closed.
fn mark_eof(conn: &mut TcpConn)
    ensures
        final(conn)@ == old(conn)@.after_eof(),
{
    conn.host_eof = true;
    conn.fin_pending = true;
}

/// Buffers host data.
fn buffer(conn: &mut TcpConn, bytes: Vec<u8>)
    ensures
        final(conn)@ == (ConnView { pending: old(conn)@.pending + bytes@, ..old(conn)@ }),
{
    let ghost waiting = conn.pending@;
    conn.pending.extend_from_slice(bytes.as_slice());
    assert(conn.pending@ =~= waiting + bytes@);
}

/// Takes one host event.
fn take_event(
    conn: &mut TcpConn,
    event: HostEvent,
    now: u64,
    guest_ip: Ipv4Address,
    ip_id: &mut u16,
    counters: &mut NetCounters,
    frames: &mut Vec<Vec<u8>>,
)
    ensures
        scene(*final(conn), *final(ip_id), *final(counters), *final(frames)) == scene(
            *old(conn),
            *old(ip_id),
            *old(counters),
            *old(frames),
        ).after_event(event@, now, guest_ip),
{
    proof {
        lemma_segments(conn.unacked@);
    }
    match event {
        HostEvent::Connected => {
            if !conn.established && conn.unacked.len() == 0 {
                send_syn_ack(conn, now, guest_ip, ip_id, frames);
            }
        },
        HostEvent::ConnectFailed(_) => {
            send_reset(conn, conn.our_isn, guest_ip, ip_id, frames);
            close_reset(conn, counters);
        },
        HostEvent::Data(bytes) => buffer(conn, bytes),
        HostEvent::Eof => mark_eof(conn),
    }
}

/// The next host event.
fn next_event(conn: &mut TcpConn) -> (event: Option<HostEvent>)
    ensures
        event is Some == (old(conn)@.from_host.len() > 0),
        event matches Some(event) ==> event@ == old(conn)@.from_host[0] && final(conn)@ == (ConnView {
            from_host: old(conn)@.from_host.skip(1),
            ..old(conn)@
        }),
        event is None ==> final(conn)@ == old(conn)@,
{
    let ghost queue = conn.from_host@;
    proof {
        lemma_events(queue);
    }
    let event = conn.from_host.pop_front();
    assert(queue.len() > 0 ==> conn.from_host@ =~= queue.skip(1));
    event
}

/// Takes the next host event, if one waits and the buffer has room.
fn drain_one(
    conn: &mut TcpConn,
    now: u64,
    guest_ip: Ipv4Address,
    ip_id: &mut u16,
    counters: &mut NetCounters,
    frames: &mut Vec<Vec<u8>>,
) -> (more: bool)
    ensures
        more == scene(*old(conn), *old(ip_id), *old(counters), *old(frames)).drains(),
        scene(*final(conn), *final(ip_id), *final(counters), *final(frames)) == if more {
            scene(*old(conn), *old(ip_id), *old(counters), *old(frames)).after_first_event(now, guest_ip)
        } else {
            scene(*old(conn), *old(ip_id), *old(counters), *old(frames)).after_last_event()
        },
{
    if conn.pending.len() >= TCP_PENDING_CAP {
        return false;
    }
    match next_event(conn) {
        None => {
            if conn.host_silent {
                mark_eof(conn);
            }
            false
        },
        Some(event) => {
            take_event(conn, event, now, guest_ip, ip_id, counters, frames);
            true
        },
    }
}

/// Takes the host events that wait. At the cap of the buffer towards the guest the rest
/// stay in the queue, which then stalls the host side.
pub fn drain_host_events(
    conn: &mut TcpConn,
    now: u64,
    guest_ip: Ipv4Address,
    ip_id: &mut u16,
    counters: &mut NetCounters,
    frames: &mut Vec<Vec<u8>>,
)
    ensures
        scene(*final(conn), *final(ip_id), *final(counters), *final(frames)) == scene(
            *old(conn),
            *old(ip_id),
            *old(counters),
            *old(frames),
        ).drained(now, guest_ip),
        old(conn)@.wf() ==> final(conn)@.wf(),
{
    let ghost start = scene(*conn, *ip_id, *counters, *frames);
    loop
        invariant
            scene(*conn, *ip_id, *counters, *frames).drained(now, guest_ip) == start.drained(now, guest_ip),
            start == scene(*old(conn), *old(ip_id), *old(counters), *old(frames)),
            old(conn)@.wf() ==> conn@.wf(),
        decreases conn@.from_host.len(),
    {
        proof {
            lemma_drain(scene(*conn, *ip_id, *counters, *frames), now, guest_ip);
        }
        if !drain_one(conn, now, guest_ip, ip_id, counters, frames) {
            return;
        }
    }
}

impl Line {
    /// After the held guest data has been offered to the host side again.
    #[verifier::opaque]
    pub open spec fn retried(self, guest_ip: Ipv4Address) -> Line {
        match self.conn.held_guest {
            None => self,
            Some(data) => match self.conn.offer() {
                Offer::Taken => Line { conn: self.conn.after_data(data), ..self }.acknowledged(guest_ip),
                Offer::Full => self,
                Offer::Gone => Line { conn: ConnView { held_guest: None, closed: true, ..self.conn }, ..self },
            },
        }
    }
}

/// Offers the held guest data to the host side again.
pub fn retry_held(conn: &mut TcpConn, guest_ip: Ipv4Address, ip_id: &mut u16, frames: &mut Vec<Vec<u8>>)
    ensures
        line(*final(conn), *final(ip_id), *final(frames)) == line(*old(conn), *old(ip_id), *old(frames)).retried(
            guest_ip,
        ),
        old(conn)@.wf() ==> final(conn)@.wf(),
{
    reveal(Line::retried);
    if let Some(data) = conn.held_guest.take() {
        match offer(conn, data) {
            Offer::Taken => {
                send_ack(conn, guest_ip, ip_id, frames);
            },
            Offer::Full => {},
            Offer::Gone => {
                conn.closed = true;
            },
        }
    }
}

impl ConnView {
    /// The bytes in flight.
    pub open spec fn in_flight(self) -> u32 {
        self.our_next.wrapping_sub(self.our_una)
    }

    /// How much of the pending data may go out in one segment now: none while too many
    /// segments wait or the guest's window is full, else as much as the MSS and the window
    /// allow.
    pub open spec fn sendable(self) -> int {
        if self.unacked.len() >= MAX_UNACKED_SEGMENTS || self.in_flight() >= self.guest_window {
            0
        } else {
            let room = self.guest_window - self.in_flight();
            let piece = if self.guest_mss < room { self.guest_mss as int } else { room };
            if self.pending.len() < piece { self.pending.len() as int } else { piece }
        }
    }

    /// After the first `count` pending bytes have gone out.
    pub open spec fn after_chunk(self, count: int, now: u64) -> ConnView {
        ConnView {
            pending: self.pending.skip(count),
            unacked: self.unacked.push(
                OutSegView { seq: self.our_next, bytes: self.pending.take(count), syn: false },
            ),
            our_next: advanced(self.our_next, count as nat),
            retransmit_deadline: Some(later(now, RETRANSMIT_TIMEOUT)),
            ..self
        }
    }
}

impl Line {
    /// After one segment of pending data.
    pub open spec fn after_chunk(self, now: u64, guest_ip: Ipv4Address) -> Line {
        let count = self.conn.sendable();
        Line {
            conn: self.conn.after_chunk(count, now),
            ..self.sent(
                self.conn.our_next,
                FLAG_ACK,
                OUR_WINDOW,
                Seq::empty(),
                self.conn.pending.take(count),
                guest_ip,
            )
        }
    }

    /// After as much pending data as may be sent.
    #[verifier::opaque]
    pub open spec fn flushed(self, now: u64, guest_ip: Ipv4Address) -> Line
        decreases self.conn.pending.len(),
    {
        if self.conn.sendable() > 0 {
            self.after_chunk(now, guest_ip).flushed(now, guest_ip)
        } else {
            self
        }
    }
}

/// One step of sending.
proof fn lemma_flush(here: Line, now: u64, guest_ip: Ipv4Address)
    ensures
        here.flushed(now, guest_ip) == if here.conn.sendable() > 0 {
            here.after_chunk(now, guest_ip).flushed(now, guest_ip)
        } else {
            here
        },
        here.conn.sendable() > 0 ==> here.after_chunk(now, guest_ip).conn.pending.len() < here.conn.pending.len(),
        here.conn.wf() ==> here.after_chunk(now, guest_ip).conn.wf(),
{
    reveal(Line::flushed);
    let after = here.after_chunk(now, guest_ip).conn;
    if here.conn.wf() {
        assert forall|i: int| 0 <= i < after.unacked.len() implies (#[trigger] after.unacked[i]).bytes.len() <= OUR_MSS by {
            if i < here.conn.unacked.len() {
                assert(after.unacked[i] == here.conn.unacked[i]);
            }
        }
    }
}

/// How much of the pending data may go out in one segment now.
fn sendable(conn: &TcpConn) -> (count: usize)
    ensures
        count == conn@.sendable(),
        count <= conn.pending@.len(),
        count <= 0xFFFF,
{
    proof {
        lemma_segments(conn.unacked@);
    }
    let in_flight = conn.our_next.wrapping_sub(conn.our_una);
    if conn.unacked.len() >= MAX_UNACKED_SEGMENTS || in_flight >= conn.guest_window {
        return 0;
    }
    let room = conn.guest_window - in_flight;
    let piece = if (conn.guest_mss as u32) < room {
        conn.guest_mss as u32
    } else {
        room
    };
    let waiting = conn.pending.len();
    if waiting < piece as usize {
        waiting
    } else {
        piece as usize
    }
}

/// Sends one segment of pending data.
fn send_chunk(
    conn: &mut TcpConn,
    count: usize,
    now: u64,
    guest_ip: Ipv4Address,
    ip_id: &mut u16,
    frames: &mut Vec<Vec<u8>>,
)
    requires
        count == old(conn)@.sendable(),
        count <= old(conn).pending@.len(),
        count <= 0xFFFF,
    ensures
        line(*final(conn), *final(ip_id), *final(frames)) == line(*old(conn), *old(ip_id), *old(frames)).after_chunk(
            now,
            guest_ip,
        ),
{
    let none: Vec<u8> = Vec::new();
    assert(none@ =~= Seq::<u8>::empty());
    let ghost waiting = conn.pending@;
    let mut bytes = conn.pending.split_off(count);
    assert(bytes@ =~= waiting.skip(count as int));
    assert(conn.pending@ =~= waiting.take(count as int));
    std::mem::swap(&mut bytes, &mut conn.pending);
    send(conn, conn.our_next, FLAG_ACK, OUR_WINDOW, none.as_slice(), bytes.as_slice(), guest_ip, ip_id, frames);
    let segment = OutSeg { seq: conn.our_next, bytes, syn: false };
    proof {
        lemma_segments_push(conn.unacked@, segment);
    }
    conn.unacked.push_back(segment);
    conn.our_next = advance(conn.our_next, count);
    conn.retransmit_deadline = Some(delay(now, RETRANSMIT_TIMEOUT));
}

/// Sends pending data as far as the guest's window and the queue of unacknowledged
/// segments allow.
pub fn send_pending(conn: &mut TcpConn, now: u64, guest_ip: Ipv4Address, ip_id: &mut u16, frames: &mut Vec<Vec<u8>>)
    ensures
        line(*final(conn), *final(ip_id), *final(frames)) == line(*old(conn), *old(ip_id), *old(frames)).flushed(
            now,
            guest_ip,
        ),
        old(conn)@.wf() ==> final(conn)@.wf(),
{
    let ghost start = line(*conn, *ip_id, *frames);
    loop
        invariant
            line(*conn, *ip_id, *frames).flushed(now, guest_ip) == start.flushed(now, guest_ip),
            start == line(*old(conn), *old(ip_id), *old(frames)),
            old(conn)@.wf() ==> conn@.wf(),
        decreases conn@.pending.len(),
    {
        proof {
            lemma_flush(line(*conn, *ip_id, *frames), now, guest_ip);
        }
        let count = sendable(conn);
        if count == 0 {
            return;
        }
        send_chunk(conn, count, now, guest_ip, ip_id, frames);
    }
}

impl Line {
    /// After one unacknowledged segment has gone out again: the answer to the SYN with its
    /// flag and option, data without.
    pub open spec fn after_resend(self, index: int, guest_ip: Ipv4Address) -> Line {
        let segment = self.conn.unacked[index];
        self.sent(
            segment.seq,
            if segment.syn { SYN_ACK } else { FLAG_ACK },
            OUR_WINDOW,
            if segment.syn { mss_option() } else { Seq::empty() },
            segment.bytes,
            guest_ip,
        )
    }

    /// After the unacknowledged segments from `index` on have gone out again.
    #[verifier::opaque]
    pub open spec fn resent(self, index: int, guest_ip: Ipv4Address) -> Line
        decreases self.conn.unacked.len() - index,
    {
        if 0 <= index < self.conn.unacked.len() {
            self.after_resend(index, guest_ip).resent(index + 1, guest_ip)
        } else {
            self
        }
    }
}

/// One step of resending; the connection stays as it is.
proof fn lemma_resend(here: Line, index: int, guest_ip: Ipv4Address)
    ensures
        here.resent(index, guest_ip) == if 0 <= index < here.conn.unacked.len() {
            here.after_resend(index, guest_ip).resent(index + 1, guest_ip)
        } else {
            here
        },
{
    reveal(Line::resent);
}

/// Sends one unacknowledged segment again.
fn resend_one(conn: &TcpConn, index: usize, guest_ip: Ipv4Address, ip_id: &mut u16, frames: &mut Vec<Vec<u8>>)
    requires
        index < conn.unacked@.len(),
        conn@.wf(),
    ensures
        line(*conn, *final(ip_id), *final(frames)) == line(*conn, *old(ip_id), *old(frames)).after_resend(
            index as int,
            guest_ip,
        ),
{
    proof {
        lemma_segments(conn.unacked@);
        assert(conn@.unacked[index as int] == conn.unacked@[index as int]@);
    }
    let segment = &conn.unacked[index];
    if segment.syn {
        let option: Vec<u8> = vec![2, 4, 5, 0xB4];
        assert(option@ =~= mss_option());
        send(
            conn,
            segment.seq,
            SYN_ACK,
            OUR_WINDOW,
            option.as_slice(),
            segment.bytes.as_slice(),
            guest_ip,
            ip_id,
            frames,
        );
    } else {
        let none: Vec<u8> = Vec::new();
        assert(none@ =~= Seq::<u8>::empty());
        send(
            conn,
            segment.seq,
            FLAG_ACK,
            OUR_WINDOW,
            none.as_slice(),
            segment.bytes.as_slice(),
            guest_ip,
            ip_id,
            frames,
        );
    }
}

/// Sends every unacknowledged segment again.
fn resend_all(conn: &TcpConn, guest_ip: Ipv4Address, ip_id: &mut u16, frames: &mut Vec<Vec<u8>>)
    requires
        conn@.wf(),
    ensures
        line(*conn, *final(ip_id), *final(frames)) == line(*conn, *old(ip_id), *old(frames)).resent(0, guest_ip),
{
    let ghost start = line(*conn, *ip_id, *frames);
    let count = conn.unacked.len();
    proof {
        lemma_segments(conn.unacked@);
    }
    let mut index: usize = 0;
    while index < count
        invariant
            index <= count,
            count == conn.unacked@.len(),
            count == conn@.unacked.len(),
            conn@.wf(),
            line(*conn, *ip_id, *frames).resent(index as int, guest_ip) == start.resent(0, guest_ip),
        decreases count - index,
    {
        proof {
            lemma_resend(line(*conn, *ip_id, *frames), index as int, guest_ip);
        }
        resend_one(conn, index, guest_ip, ip_id, frames);
        index = index + 1;
    }
    proof {
        lemma_resend(line(*conn, *ip_id, *frames), index as int, guest_ip);
    }
}

/// Sends our FIN from sequence number `seq`.
fn send_fin(conn: &TcpConn, seq: u32, guest_ip: Ipv4Address, ip_id: &mut u16, frames: &mut Vec<Vec<u8>>)
    ensures
        line(*conn, *final(ip_id), *final(frames)) == line(*conn, *old(ip_id), *old(frames)).sent(
            seq,
            FIN_ACK,
            OUR_WINDOW,
            Seq::empty(),
            Seq::empty(),
            guest_ip,
        ),
{
    let none: Vec<u8> = Vec::new();
    assert(none@ =~= Seq::<u8>::empty());
    send(conn, seq, FIN_ACK, OUR_WINDOW, none.as_slice(), none.as_slice(), guest_ip, ip_id, frames);
}

impl ConnView {
    /// Whether the retransmission timer has run out.
    pub open spec fn fires(self, now: u64) -> bool {
        self.retransmit_deadline matches Some(deadline) && now >= deadline
    }

    /// How often the timer has run out, with this time.
    pub open spec fn tries(self) -> u32 {
        if self.retransmits == u32::MAX {
            u32::MAX
        } else {
            (self.retransmits + 1) as u32
        }
    }
}

impl Scene {
    /// With a retransmission counted and the timer set again.
    pub open spec fn rearmed(self, now: u64) -> Scene {
        Scene {
            conn: ConnView { retransmit_deadline: Some(later(now, RETRANSMIT_TIMEOUT)), ..self.conn },
            counters: NetCounters {
                tcp_retransmits: one_more(self.counters.tcp_retransmits),
                ..self.counters
            },
            ..self
        }
    }

    /// After the retransmission timer has run out: past the retry budget a reset, else the
    /// unacknowledged segments again, or else an unacknowledged FIN again.
    #[verifier::opaque]
    pub open spec fn after_try(self, now: u64, guest_ip: Ipv4Address) -> Scene {
        if self.conn.retransmits > MAX_RETRANSMITS {
            self.sent(self.conn.our_next, RESET, 0, Seq::empty(), Seq::empty(), guest_ip).reset()
        } else if self.conn.unacked.len() > 0 {
            self.line().resent(0, guest_ip).counting(self.counters).rearmed(now)
        } else if self.conn.fin_sent && !self.conn.fin_acked {
            self.sent(
                self.conn.fin_seq,
                FIN_ACK,
                OUR_WINDOW,
                Seq::empty(),
                Seq::empty(),
                guest_ip,
            ).rearmed(now)
        } else {
            Scene { conn: ConnView { retransmit_deadline: None, ..self.conn }, ..self }
        }
    }

    /// After the retransmission timer, if its time has come.
    #[verifier::opaque]
    pub open spec fn after_timer(self, now: u64, guest_ip: Ipv4Address) -> Scene {
        if self.conn.fires(now) {
            Scene { conn: ConnView { retransmits: self.conn.tries(), ..self.conn }, ..self }.after_try(now, guest_ip)
        } else {
            self
        }
    }
}

/// Counts a retransmission and sets the timer again.
fn rearm(conn: &mut TcpConn, now: u64, counters: &mut NetCounters)
    ensures
        final(conn)@ == (ConnView { retransmit_deadline: Some(later(now, RETRANSMIT_TIMEOUT)), ..old(conn)@ }),
        *final(counters) == (NetCounters {
            tcp_retransmits: one_more(old(counters).tcp_retransmits),
            ..*old(counters)
        }),
{
    conn.retransmit_deadline = Some(delay(now, RETRANSMIT_TIMEOUT));
    counters.tcp_retransmits = bump(counters.tcp_retransmits);
}

/// Does what the retransmission timer asks for.
fn try_again(
    conn: &mut TcpConn,
    now: u64,
    guest_ip: Ipv4Address,
    ip_id: &mut u16,
    counters: &mut NetCounters,
    frames: &mut Vec<Vec<u8>>,
)
    requires
        old(conn)@.wf(),
    ensures
        scene(*final(conn), *final(ip_id), *final(counters), *final(frames)) == scene(
            *old(conn),
            *old(ip_id),
            *old(counters),
            *old(frames),
        ).after_try(now, guest_ip),
        final(conn)@.wf(),
{
    reveal(Scene::after_try);
    proof {
        lemma_segments(conn.unacked@);
    }
    if conn.retransmits > MAX_RETRANSMITS {
        send_reset(conn, conn.our_next, guest_ip, ip_id, frames);
        close_reset(conn, counters);
    } else if conn.unacked.len() > 0 {
        proof {
            crate::net::tcp_laws::resending_changes_nothing(line(*conn, *ip_id, *frames), 0, guest_ip);
        }
        resend_all(conn, guest_ip, ip_id, frames);
        rearm(conn, now, counters);
    } else if conn.fin_sent && !conn.fin_acked {
        send_fin(conn, conn.fin_seq, guest_ip, ip_id, frames);
        rearm(conn, now, counters);
    } else {
        conn.retransmit_deadline = None;
    }
}

/// Counts that the timer has run out.
fn count_try(conn: &mut TcpConn)
    ensures
        final(conn)@ == (ConnView { retransmits: old(conn)@.tries(), ..old(conn)@ }),
{
    if conn.retransmits < u32::MAX {
        conn.retransmits = conn.retransmits + 1;
    }
}

/// Lets the retransmission timer run out, if its time has come.
pub fn retransmit(
    conn: &mut TcpConn,
    now: u64,
    guest_ip: Ipv4Address,
    ip_id: &mut u16,
    counters: &mut NetCounters,
    frames: &mut Vec<Vec<u8>>,
)
    requires
        old(conn)@.wf(),
    ensures
        scene(*final(conn), *final(ip_id), *final(counters), *final(frames)) == scene(
            *old(conn),
            *old(ip_id),
            *old(counters),
            *old(frames),
        ).after_timer(now, guest_ip),
        final(conn)@.wf(),
{
    reveal(Scene::after_timer);
    let fires = match conn.retransmit_deadline {
        None => false,
        Some(deadline) => now >= deadline,
    };
    if fires {
        count_try(conn);
        try_again(conn, now, guest_ip, ip_id, counters, frames);
    }
}

impl Line {
    /// After our FIN, if it is due: the host has closed, and all of its data has been
    /// delivered and acknowledged.
    #[verifier::opaque]
    pub open spec fn after_own_fin(self, now: u64, guest_ip: Ipv4Address) -> Line {
        if self.conn.fin_sent || !self.conn.fin_pending || self.conn.pending.len() > 0 || self.conn.unacked.len() > 0 {
            self
        } else {
            Line {
                conn: ConnView {
                    fin_seq: self.conn.our_next,
                    our_next: self.conn.our_next.wrapping_add(1),
                    fin_sent: true,
                    retransmit_deadline: Some(later(now, RETRANSMIT_TIMEOUT)),
                    ..self.conn
                },
                ..self.sent(self.conn.our_next, FIN_ACK, OUR_WINDOW, Seq::empty(), Seq::empty(), guest_ip)
            }
        }
    }
}

/// Sends our FIN, if it is due.
pub fn maybe_send_fin(conn: &mut TcpConn, now: u64, guest_ip: Ipv4Address, ip_id: &mut u16, frames: &mut Vec<Vec<u8>>)
    ensures
        line(*final(conn), *final(ip_id), *final(frames)) == line(*old(conn), *old(ip_id), *old(frames)).after_own_fin(
            now,
            guest_ip,
        ),
        old(conn)@.wf() ==> final(conn)@.wf(),
{
    reveal(Line::after_own_fin);
    proof {
        lemma_segments(conn.unacked@);
    }
    if conn.fin_sent || !conn.fin_pending || conn.pending.len() > 0 || conn.unacked.len() > 0 {
        return;
    }
    send_fin(conn, conn.our_next, guest_ip, ip_id, frames);
    conn.fin_seq = conn.our_next;
    conn.our_next = conn.our_next.wrapping_add(1);
    conn.fin_sent = true;
    conn.retransmit_deadline = Some(delay(now, RETRANSMIT_TIMEOUT));
}

impl ConnView {
    /// After the end of a poll: closed once both FINs are acknowledged, or after lingering
    /// for the guest's.
    pub open spec fn after_teardown(self, now: u64) -> ConnView {
        if self.fin_sent && self.fin_acked && self.guest_fin && self.guest_fin_acked {
            ConnView { closed: true, ..self }
        } else if self.fin_acked && !self.guest_fin {
            let deadline = match self.linger_deadline {
                Some(deadline) => deadline,
                None => later(now, LINGER_TIMEOUT),
            };
            ConnView {
                linger_deadline: Some(deadline),
                closed: self.closed || now >= deadline,
                ..self
            }
        } else {
            self
        }
    }
}

/// Closes a connection whose end has come.
fn tear_down(conn: &mut TcpConn, now: u64)
    ensures
        final(conn)@ == old(conn)@.after_teardown(now),
{
    if conn.fin_sent && conn.fin_acked && conn.guest_fin && conn.guest_fin_acked {
        conn.closed = true;
    } else if conn.fin_acked && !conn.guest_fin {
        let deadline = match conn.linger_deadline {
            Some(deadline) => deadline,
            None => delay(now, LINGER_TIMEOUT),
        };
        conn.linger_deadline = Some(deadline);
        conn.closed = conn.closed || now >= deadline;
    }
}

impl Scene {
    /// The second half of a poll.
    #[verifier::opaque]
    pub open spec fn ended(self, now: u64, guest_ip: Ipv4Address) -> Scene {
        let timed = self.after_timer(now, guest_ip);
        if timed.conn.closed {
            timed
        } else {
            let fin = timed.line().after_own_fin(now, guest_ip);
            Line { conn: fin.conn.after_teardown(now), ..fin }.counting(timed.counters)
        }
    }

    /// After one poll.
    pub open spec fn polled(self, now: u64, guest_ip: Ipv4Address) -> Scene {
        let drained = self.drained(now, guest_ip);
        if drained.conn.closed {
            drained
        } else {
            let retried = drained.line().retried(guest_ip);
            if retried.conn.closed {
                retried.counting(drained.counters)
            } else {
                retried.flushed(now, guest_ip).counting(drained.counters).ended(now, guest_ip)
            }
        }
    }
}

/// Sending closes nothing.
proof fn lemma_flushed_closed(here: Line, now: u64, guest_ip: Ipv4Address)
    ensures
        here.flushed(now, guest_ip).conn.closed == here.conn.closed,
        here.flushed(now, guest_ip).conn.key == here.conn.key,
    decreases here.conn.pending.len(),
{
    lemma_flush(here, now, guest_ip);
    if here.conn.sendable() > 0 {
        lemma_flushed_closed(here.after_chunk(now, guest_ip), now, guest_ip);
    }
}

/// Draining changes nothing of which connection it is.
proof fn lemma_drained_key(here: Scene, now: u64, guest_ip: Ipv4Address)
    ensures
        here.drained(now, guest_ip).conn.key == here.conn.key,
    decreases here.conn.from_host.len(),
{
    lemma_drain(here, now, guest_ip);
    if here.drains() {
        lemma_drained_key(here.after_first_event(now, guest_ip), now, guest_ip);
    }
}

/// A poll changes nothing of which connection it is.
pub proof fn polling_keeps_the_key(here: Scene, now: u64, guest_ip: Ipv4Address)
    ensures
        here.polled(now, guest_ip).conn.key == here.conn.key,
{
    reveal(Line::retried);
    reveal(Scene::after_try);
    reveal(Scene::after_timer);
    reveal(Line::after_own_fin);
    reveal(Scene::ended);
    lemma_drained_key(here, now, guest_ip);
    let drained = here.drained(now, guest_ip);
    let retried = drained.line().retried(guest_ip);
    lemma_flushed_closed(retried, now, guest_ip);
    let flushed = retried.flushed(now, guest_ip).counting(drained.counters);
    let tried = Scene { conn: ConnView { retransmits: flushed.conn.tries(), ..flushed.conn }, ..flushed };
    crate::net::tcp_laws::resending_changes_nothing(tried.line(), 0, guest_ip);
}

/// The second half of a poll: the timer, our FIN, and the end.
fn end_poll(
    conn: &mut TcpConn,
    now: u64,
    guest_ip: Ipv4Address,
    ip_id: &mut u16,
    counters: &mut NetCounters,
    frames: &mut Vec<Vec<u8>>,
)
    requires
        old(conn)@.wf(),
    ensures
        scene(*final(conn), *final(ip_id), *final(counters), *final(frames)) == scene(
            *old(conn),
            *old(ip_id),
            *old(counters),
            *old(frames),
        ).ended(now, guest_ip),
        final(conn)@.wf(),
{
    reveal(Scene::ended);
    retransmit(conn, now, guest_ip, ip_id, counters, frames);
    if conn.closed {
        return;
    }
    maybe_send_fin(conn, now, guest_ip, ip_id, frames);
    tear_down(conn, now);
}

/// Polls one connection.
pub fn poll_conn(
    conn: &mut TcpConn,
    now: u64,
    guest_ip: Ipv4Address,
    ip_id: &mut u16,
    counters: &mut NetCounters,
    frames: &mut Vec<Vec<u8>>,
)
    requires
        old(conn)@.wf(),
    ensures
        scene(*final(conn), *final(ip_id), *final(counters), *final(frames)) == scene(
            *old(conn),
            *old(ip_id),
            *old(counters),
            *old(frames),
        ).polled(now, guest_ip),
        final(conn)@.wf(),
        final(conn)@.key == old(conn)@.key,
{
    proof {
        polling_keeps_the_key(scene(*conn, *ip_id, *counters, *frames), now, guest_ip);
    }
    drain_host_events(conn, now, guest_ip, ip_id, counters, frames);
    if conn.closed {
        return;
    }
    retry_held(conn, guest_ip, ip_id, frames);
    if conn.closed {
        return;
    }
    send_pending(conn, now, guest_ip, ip_id, frames);
    end_poll(conn, now, guest_ip, ip_id, counters, frames);
}

} // verus!
