//! One proxied TCP connection: the guest's segments on one side, the queues of the host
//! side on the other.
//!
//! - No out-of-order reassembly: a segment ahead of the expected sequence is ignored and
//!   the sender's retransmission closes the gap. Duplicate segments are acknowledged
//!   again, not replayed.
//! - One retransmission timer per connection resends every unacknowledged segment; after
//!   the retry budget the connection is reset.
//! - Once the guest has sent its FIN its data is no longer accepted, but host data keeps
//!   flowing until the host closes, then a FIN goes back.
//! - Backpressure: a full queue towards the host holds a segment without acknowledging
//!   it; a full buffer towards the guest stops the draining of host events.

use std::collections::VecDeque;

use vstd::prelude::*;

use crate::net::config::{bump, contents, lemma_contents, lemma_contents_push, one_more, push_packet, NetCounters};
use crate::net::host::{EventView, HostEvent, QUEUE_LENGTH};
use crate::net::ipv4::{next_identification, wrap_tcp, Ipv4Address};
use crate::net::tcp_segment::{build_segment, test_flag, Segment, FLAG_ACK, FLAG_FIN, FLAG_RST, OUR_MSS};

verus! {

/// The window that is advertised for data towards the host.
pub const OUR_WINDOW: u16 = 0xFFFF;

/// The retransmission timeout, in milliseconds.
pub const RETRANSMIT_TIMEOUT: u64 = 750;

/// How often the timer may fire before the connection is reset.
pub const MAX_RETRANSMITS: u32 = 8;

/// How long, in milliseconds, a half-closed connection is kept whose FIN is acknowledged
/// while the guest's FIN has not been seen.
pub const LINGER_TIMEOUT: u64 = 30_000;

/// How many segments may wait for an acknowledgement.
pub const MAX_UNACKED_SEGMENTS: usize = 64;

/// The bytes that are buffered towards the guest before host events are left waiting.
pub const TCP_PENDING_CAP: usize = 262_144;

/// One connection: the guest's port and the remote end that it dialed.
#[derive(Clone, Copy, PartialEq, Eq, Hash, Structural, Debug)]
pub struct ConnKey {
    /// Guest-side source port.
    pub local_port: u16,
    /// Remote host that the guest dialed.
    pub remote_addr: Ipv4Address,
    pub remote_port: u16,
}

/// One transmitted, not yet acknowledged segment: payload, or the answer to the SYN.
#[derive(Debug)]
pub struct OutSeg {
    pub seq: u32,
    /// Payload bytes, kept verbatim for retransmission.
    pub bytes: Vec<u8>,
    /// Whether this is the answer to the SYN.
    pub syn: bool,
}

#[verifier::ext_equal]
pub struct OutSegView {
    pub seq: u32,
    pub bytes: Seq<u8>,
    pub syn: bool,
}

impl View for OutSeg {
    type V = OutSegView;

    open spec fn view(&self) -> OutSegView {
        OutSegView { seq: self.seq, bytes: self.bytes@, syn: self.syn }
    }
}

#[derive(Debug)]
pub struct TcpConn {
    pub key: ConnKey,
    /// Whether the answer to the SYN is acknowledged: data flows.
    pub established: bool,
    /// Next sequence number expected from the guest.
    pub guest_next: u32,
    /// Latest window that the guest advertised.
    pub guest_window: u32,
    /// The guest's MSS, no larger than ours.
    pub guest_mss: u16,
    pub our_isn: u32,
    /// Next sequence number to be assigned.
    pub our_next: u32,
    /// First unacknowledged sequence number of our stream.
    pub our_una: u32,
    /// Host bytes not yet sent to the guest.
    pub pending: Vec<u8>,
    /// Segments sent, awaiting the guest's acknowledgement.
    pub unacked: VecDeque<OutSeg>,
    pub retransmit_deadline: Option<u64>,
    pub retransmits: u32,
    /// Guest data that the queue towards the host could not take yet.
    pub held_guest: Option<Vec<u8>>,
    /// Guest data on the way to the host side.
    pub to_host: VecDeque<Vec<u8>>,
    /// Whether the host side takes no more data.
    pub host_gone: bool,
    /// Events from the host side.
    pub from_host: VecDeque<HostEvent>,
    /// Whether no event will follow those that wait.
    pub host_silent: bool,
    pub fin_sent: bool,
    pub fin_acked: bool,
    pub fin_seq: u32,
    pub fin_pending: bool,
    pub guest_fin: bool,
    pub guest_fin_acked: bool,
    pub host_eof: bool,
    pub linger_deadline: Option<u64>,
    pub closed: bool,
}

pub struct ConnView {
    pub key: ConnKey,
    pub established: bool,
    pub guest_next: u32,
    pub guest_window: u32,
    pub guest_mss: u16,
    pub our_isn: u32,
    pub our_next: u32,
    pub our_una: u32,
    pub pending: Seq<u8>,
    pub unacked: Seq<OutSegView>,
    pub retransmit_deadline: Option<u64>,
    pub retransmits: u32,
    pub held_guest: Option<Seq<u8>>,
    pub to_host: Seq<Seq<u8>>,
    pub host_gone: bool,
    pub from_host: Seq<EventView>,
    pub host_silent: bool,
    pub fin_sent: bool,
    pub fin_acked: bool,
    pub fin_seq: u32,
    pub fin_pending: bool,
    pub guest_fin: bool,
    pub guest_fin_acked: bool,
    pub host_eof: bool,
    pub linger_deadline: Option<u64>,
    pub closed: bool,
}

/// The readings of the segments in a queue.
#[verifier::opaque]
pub open spec fn segments(queue: Seq<OutSeg>) -> Seq<OutSegView> {
    queue.map_values(|segment: OutSeg| segment@)
}

pub proof fn lemma_segments(queue: Seq<OutSeg>)
    ensures
        segments(queue).len() == queue.len(),
        queue.len() > 0 ==> segments(queue.skip(1)) == segments(queue).skip(1),
        forall|i: int| 0 <= i < queue.len() ==> #[trigger] segments(queue)[i] == queue[i]@,
{
    reveal(segments);
    if queue.len() > 0 {
        assert(segments(queue.skip(1)) =~= segments(queue).skip(1));
    }
}

pub proof fn lemma_segments_push(queue: Seq<OutSeg>, segment: OutSeg)
    ensures
        segments(queue.push(segment)) == segments(queue).push(segment@),
{
    reveal(segments);
    assert(segments(queue.push(segment)) =~= segments(queue).push(segment@));
}

/// The readings of the events in a queue.
#[verifier::opaque]
pub open spec fn events(queue: Seq<HostEvent>) -> Seq<EventView> {
    queue.map_values(|event: HostEvent| event@)
}

pub proof fn lemma_events(queue: Seq<HostEvent>)
    ensures
        events(queue).len() == queue.len(),
        queue.len() > 0 ==> events(queue)[0] == queue[0]@,
        queue.len() > 0 ==> events(queue.skip(1)) == events(queue).skip(1),
{
    reveal(events);
    if queue.len() > 0 {
        assert(events(queue.skip(1)) =~= events(queue).skip(1));
    }
}

pub proof fn lemma_events_push(queue: Seq<HostEvent>, event: HostEvent)
    ensures
        events(queue.push(event)) == events(queue).push(event@),
{
    reveal(events);
    assert(events(queue.push(event)) =~= events(queue).push(event@));
}

pub open spec fn held(bytes: Option<Vec<u8>>) -> Option<Seq<u8>> {
    match bytes {
        None => None,
        Some(data) => Some(data@),
    }
}

impl View for TcpConn {
    type V = ConnView;

    open spec fn view(&self) -> ConnView {
        ConnView {
            key: self.key,
            established: self.established,
            guest_next: self.guest_next,
            guest_window: self.guest_window,
            guest_mss: self.guest_mss,
            our_isn: self.our_isn,
            our_next: self.our_next,
            our_una: self.our_una,
            pending: self.pending@,
            unacked: segments(self.unacked@),
            retransmit_deadline: self.retransmit_deadline,
            retransmits: self.retransmits,
            held_guest: held(self.held_guest),
            to_host: contents(self.to_host@),
            host_gone: self.host_gone,
            from_host: events(self.from_host@),
            host_silent: self.host_silent,
            fin_sent: self.fin_sent,
            fin_acked: self.fin_acked,
            fin_seq: self.fin_seq,
            fin_pending: self.fin_pending,
            guest_fin: self.guest_fin,
            guest_fin_acked: self.guest_fin_acked,
            host_eof: self.host_eof,
            linger_deadline: self.linger_deadline,
            closed: self.closed,
        }
    }
}

/// A sequence number some bytes on, in the wrapping space.
pub open spec fn advanced(seq: u32, count: nat) -> u32 {
    ((seq + count) % 0x1_0000_0000) as u32
}

pub(crate) fn advance(seq: u32, count: usize) -> (next: u32)
    ensures
        next == advanced(seq, count as nat),
{
    ((seq as u128 + count as u128) % 0x1_0000_0000) as u32
}

/// Whether one sequence number comes after another, within half the space.
pub open spec fn after(seq: u32, other: u32) -> bool {
    0 < seq.wrapping_sub(other) < 0x8000_0000
}

/// Whether one sequence number is another or comes after it, within half the space.
pub open spec fn at_or_after(seq: u32, other: u32) -> bool {
    seq.wrapping_sub(other) < 0x8000_0000
}

/// Whether one sequence number comes before another.
pub open spec fn before(seq: u32, other: u32) -> bool {
    seq.wrapping_sub(other) >= 0x8000_0000
}

pub fn seq_gt(a: u32, b: u32) -> (held: bool)
    ensures
        held == after(a, b),
{
    let distance = a.wrapping_sub(b);
    0 < distance && distance < 0x8000_0000
}

pub fn seq_ge(a: u32, b: u32) -> (held: bool)
    ensures
        held == at_or_after(a, b),
{
    a.wrapping_sub(b) < 0x8000_0000
}

pub fn seq_lt(a: u32, b: u32) -> (held: bool)
    ensures
        held == before(a, b),
{
    a.wrapping_sub(b) >= 0x8000_0000
}

/// The comparisons of sequence numbers order the wrapping space: they do not change when
/// both numbers move on alike, no two numbers come after each other, and a number comes
/// before another just where it is neither that one nor after it.
pub proof fn sequence_numbers_are_ordered(a: u32, b: u32, step: u32)
    ensures
        after(a, b) <==> 0 < a.wrapping_sub(b) < 0x8000_0000,
        after(a.wrapping_add(step), b.wrapping_add(step)) == after(a, b),
        at_or_after(a.wrapping_add(step), b.wrapping_add(step)) == at_or_after(a, b),
        before(a.wrapping_add(step), b.wrapping_add(step)) == before(a, b),
        !(after(a, b) && after(b, a)),
        at_or_after(a, b) == (a == b || after(a, b)),
        before(a, b) == !at_or_after(a, b),
        after(b, a) ==> before(a, b),
{
}

/// Whether an acknowledgement lies between the first unacknowledged sequence number and
/// the next one to be assigned.
pub open spec fn in_window(ack: u32, una: u32, next: u32) -> bool {
    ack.wrapping_sub(una) <= next.wrapping_sub(una)
}

/// A time some milliseconds on.
pub open spec fn later(now: u64, by: u64) -> u64 {
    if now + by > u64::MAX {
        u64::MAX
    } else {
        (now + by) as u64
    }
}

pub(crate) fn delay(now: u64, by: u64) -> (time: u64)
    ensures
        time == later(now, by),
{
    if by > u64::MAX - now {
        u64::MAX
    } else {
        now + by
    }
}

/// A connection together with the packets to the guest and the identification of the next
/// one.
pub struct Line {
    pub conn: ConnView,
    pub ip_id: u16,
    pub frames: Seq<Seq<u8>>,
}

pub open spec fn line(conn: TcpConn, ip_id: u16, frames: Vec<Vec<u8>>) -> Line {
    Line { conn: conn@, ip_id, frames: contents(frames@) }
}

/// A connection together with all that a step of it may touch.
pub struct Scene {
    pub conn: ConnView,
    pub ip_id: u16,
    pub counters: NetCounters,
    pub frames: Seq<Seq<u8>>,
}

pub open spec fn scene(conn: TcpConn, ip_id: u16, counters: NetCounters, frames: Vec<Vec<u8>>) -> Scene {
    line(conn, ip_id, frames).counting(counters)
}

/// The option that tells our MSS.
pub open spec fn mss_option() -> Seq<u8> {
    seq![2u8, 4, 5, 0xB4]
}

impl ConnView {
    /// Whether every segment to the guest, those that wait and those to come, fits in a
    /// packet of the device.
    pub open spec fn wf(self) -> bool {
        &&& self.guest_mss <= OUR_MSS
        &&& forall|i: int| 0 <= i < self.unacked.len() ==> (#[trigger] self.unacked[i]).bytes.len() <= OUR_MSS
    }

    /// A packet from the remote end to the guest that acknowledges what was received.
    pub open spec fn packet(
        self,
        seq: u32,
        flags: u8,
        window: u16,
        options: Seq<u8>,
        payload: Seq<u8>,
        guest_ip: Ipv4Address,
        ip_id: u16,
    ) -> Seq<u8> {
        tcp_packet(self.key, seq, self.guest_next, flags, window, options, payload, guest_ip, ip_id)
    }
}

/// A packet from the remote end of a connection to the guest.
#[verifier::opaque]
pub open spec fn tcp_packet(
    key: ConnKey,
    seq: u32,
    ack: u32,
    flags: u8,
    window: u16,
    options: Seq<u8>,
    payload: Seq<u8>,
    guest_ip: Ipv4Address,
    ip_id: u16,
) -> Seq<u8> {
    let segment = crate::net::tcp_segment::segment_bytes(
        key.remote_port,
        key.local_port,
        seq,
        ack,
        flags,
        window,
        options,
        payload,
    );
    crate::net::ipv4::packet_with(
        crate::net::ipv4::PROTOCOL_TCP,
        key.remote_addr,
        guest_ip,
        crate::net::ipv4::checked_segment(key.remote_addr, guest_ip, segment),
        ip_id,
    )
}

impl Line {
    /// With one more packet to the guest.
    pub open spec fn sent(
        self,
        seq: u32,
        flags: u8,
        window: u16,
        options: Seq<u8>,
        payload: Seq<u8>,
        guest_ip: Ipv4Address,
    ) -> Line {
        Line {
            frames: self.frames.push(
                self.conn.packet(seq, flags, window, options, payload, guest_ip, self.ip_id),
            ),
            ip_id: self.ip_id.wrapping_add(1),
            ..self
        }
    }

    /// With an acknowledgement of all that was received.
    pub open spec fn acknowledged(self, guest_ip: Ipv4Address) -> Line {
        self.sent(self.conn.our_next, FLAG_ACK, OUR_WINDOW, Seq::empty(), Seq::empty(), guest_ip)
    }

    /// Together with the counters.
    pub open spec fn counting(self, counters: NetCounters) -> Scene {
        Scene { conn: self.conn, ip_id: self.ip_id, counters, frames: self.frames }
    }
}

impl Scene {
    pub open spec fn line(self) -> Line {
        Line { conn: self.conn, ip_id: self.ip_id, frames: self.frames }
    }

    /// With one more packet to the guest.
    pub open spec fn sent(
        self,
        seq: u32,
        flags: u8,
        window: u16,
        options: Seq<u8>,
        payload: Seq<u8>,
        guest_ip: Ipv4Address,
    ) -> Scene {
        self.line().sent(seq, flags, window, options, payload, guest_ip).counting(self.counters)
    }

    /// With a reset counted and the connection closed.
    pub open spec fn reset(self) -> Scene {
        Scene {
            conn: ConnView { closed: true, ..self.conn },
            counters: NetCounters { tcp_resets: one_more(self.counters.tcp_resets), ..self.counters },
            ..self
        }
    }

    /// With an acknowledgement of all that was received.
    pub open spec fn acknowledged(self, guest_ip: Ipv4Address) -> Scene {
        self.line().acknowledged(guest_ip).counting(self.counters)
    }
}

/// Sends one packet to the guest.
pub(crate) fn send(
    conn: &TcpConn,
    seq: u32,
    flags: u8,
    window: u16,
    options: &[u8],
    payload: &[u8],
    guest_ip: Ipv4Address,
    ip_id: &mut u16,
    frames: &mut Vec<Vec<u8>>,
)
    requires
        options@.len() <= 40,
        payload@.len() <= 0xFFFF,
    ensures
        *final(ip_id) == old(ip_id).wrapping_add(1),
        contents(final(frames)@) == contents(old(frames)@).push(
            conn@.packet(seq, flags, window, options@, payload@, guest_ip, *old(ip_id)),
        ),
{
    reveal(tcp_packet);
    let segment = build_segment(
        conn.key.remote_port,
        conn.key.local_port,
        seq,
        conn.guest_next,
        flags,
        window,
        options,
        payload,
    );
    let id = next_identification(ip_id);
    push_packet(frames, wrap_tcp(conn.key.remote_addr, guest_ip, segment.as_slice(), id));
}

/// Acknowledges all that was received.
pub(crate) fn send_ack(conn: &TcpConn, guest_ip: Ipv4Address, ip_id: &mut u16, frames: &mut Vec<Vec<u8>>)
    ensures
        line(*conn, *final(ip_id), *final(frames)) == line(*conn, *old(ip_id), *old(frames)).acknowledged(guest_ip),
{
    let none: Vec<u8> = Vec::new();
    send(conn, conn.our_next, FLAG_ACK, OUR_WINDOW, none.as_slice(), none.as_slice(), guest_ip, ip_id, frames);
    assert(none@ =~= Seq::<u8>::empty());
}

/// The segments that are left once `ack` has come: those in front that end at or before it
/// are gone.
pub open spec fn trimmed(unacked: Seq<OutSegView>, ack: u32) -> Seq<OutSegView>
    decreases unacked.len(),
{
    if unacked.len() > 0 && at_or_after(ack, segment_end(unacked[0])) {
        trimmed(unacked.skip(1), ack)
    } else {
        unacked
    }
}

/// The sequence number after a segment; the answer to the SYN takes one.
pub open spec fn segment_end(segment: OutSegView) -> u32 {
    advanced(segment.seq, segment.bytes.len() + if segment.syn { 1nat } else { 0nat })
}

impl ConnView {
    /// After an acknowledgement of something new.
    pub open spec fn after_progress(self, ack: u32) -> ConnView {
        let left = trimmed(self.unacked, ack);
        ConnView {
            unacked: left,
            our_una: ack,
            retransmits: 0,
            retransmit_deadline: if left.len() == 0 {
                None
            } else {
                self.retransmit_deadline
            },
            ..self
        }
    }

    /// After an acknowledgement. Only one within the window touches anything but the
    /// window that the guest advertises.
    #[verifier::opaque]
    pub open spec fn after_ack(self, ack: u32, window: u16) -> ConnView {
        let seen = ConnView { guest_window: window as u32, ..self };
        if !in_window(ack, self.our_una, self.our_next) {
            seen
        } else {
            let moved = if ack == self.our_una {
                seen
            } else {
                seen.after_progress(ack)
            };
            ConnView {
                established: self.established || ack == self.our_isn.wrapping_add(1),
                fin_acked: self.fin_acked || (self.fin_sent && ack == self.our_next),
                ..moved
            }
        }
    }

    /// Whether the payload is the next in order and may still be taken.
    pub open spec fn takes(self, seq: u32) -> bool {
        seq == self.guest_next && self.established && !self.guest_fin
    }
}

/// Drops the acknowledged segments from the front.
fn trim(unacked: &mut VecDeque<OutSeg>, ack: u32)
    ensures
        segments(final(unacked)@) == trimmed(segments(old(unacked)@), ack),
{
    while unacked.len() > 0
        invariant
            trimmed(segments(unacked@), ack) == trimmed(segments(old(unacked)@), ack),
        decreases unacked@.len(),
    {
        proof {
            lemma_segments(unacked@);
        }
        let front = &unacked[0];
        let length = front.bytes.len();
        let mut end = advance(front.seq, length);
        if front.syn {
            end = advance(end, 1);
        }
        assert(end == segment_end(segments(unacked@)[0]));
        if !seq_ge(ack, end) {
            return;
        }
        let ghost whole = unacked@;
        let _ = unacked.pop_front();
        assert(unacked@ =~= whole.skip(1));
    }
    proof {
        lemma_segments(unacked@);
    }
}

/// Moves the first unacknowledged sequence number on.
fn take_progress(conn: &mut TcpConn, ack: u32)
    ensures
        final(conn)@ == old(conn)@.after_progress(ack),
{
    trim(&mut conn.unacked, ack);
    conn.our_una = ack;
    conn.retransmits = 0;
    proof {
        lemma_segments(conn.unacked@);
    }
    if conn.unacked.len() == 0 {
        conn.retransmit_deadline = None;
    }
}

/// Notes what an acknowledgement says of the handshake and of our FIN.
fn note_ack(conn: &mut TcpConn, established: bool, fin_acked: bool)
    ensures
        final(conn)@ == (ConnView { established, fin_acked, ..old(conn)@ }),
{
    conn.established = established;
    conn.fin_acked = fin_acked;
}

/// Notes the window that the guest advertises.
fn note_window(conn: &mut TcpConn, window: u16)
    ensures
        final(conn)@ == (ConnView { guest_window: window as u32, ..old(conn)@ }),
{
    conn.guest_window = window as u32;
}

/// Takes an acknowledgement and the window that came with it.
fn take_ack(conn: &mut TcpConn, ack: u32, window: u16)
    ensures
        final(conn)@ == old(conn)@.after_ack(ack, window),
{
    reveal(ConnView::after_ack);
    let known = ack.wrapping_sub(conn.our_una) <= conn.our_next.wrapping_sub(conn.our_una);
    let established = conn.established || ack == conn.our_isn.wrapping_add(1);
    let fin_acked = conn.fin_acked || (conn.fin_sent && ack == conn.our_next);
    let moves = ack != conn.our_una;
    note_window(conn, window);
    if !known {
        return;
    }
    if moves {
        take_progress(conn, ack);
    }
    note_ack(conn, established, fin_acked);
}

/// What became of data offered to the host side.
#[derive(Clone, Copy, PartialEq, Eq, Structural, Debug)]
pub enum Offer {
    Taken,
    Full,
    Gone,
}

impl ConnView {
    /// What becomes of data offered to the host side.
    pub open spec fn offer(self) -> Offer {
        if self.host_gone {
            Offer::Gone
        } else if self.to_host.len() >= QUEUE_LENGTH {
            Offer::Full
        } else {
            Offer::Taken
        }
    }

    /// After the host side has taken data.
    pub open spec fn after_data(self, data: Seq<u8>) -> ConnView {
        ConnView {
            guest_next: advanced(self.guest_next, data.len()),
            to_host: self.to_host.push(data),
            held_guest: None,
            ..self
        }
    }
}

/// Offers data to the host side.
pub(crate) fn offer(conn: &mut TcpConn, data: Vec<u8>) -> (outcome: Offer)
    ensures
        outcome == old(conn)@.offer(),
        final(conn)@ == match old(conn)@.offer() {
            Offer::Taken => old(conn)@.after_data(data@),
            Offer::Full => (ConnView { held_guest: Some(data@), ..old(conn)@ }),
            Offer::Gone => (ConnView { held_guest: None, ..old(conn)@ }),
        },
{
    proof {
        lemma_contents(conn.to_host@);
        lemma_contents_push(conn.to_host@, data);
    }
    conn.held_guest = None;
    if conn.host_gone {
        Offer::Gone
    } else if conn.to_host.len() >= QUEUE_LENGTH {
        conn.held_guest = Some(data);
        Offer::Full
    } else {
        conn.guest_next = advance(conn.guest_next, data.len());
        conn.to_host.push_back(data);
        Offer::Taken
    }
}

impl ConnView {
    /// After a segment's payload: whether it is to be acknowledged, or none if the host
    /// side is gone and the connection with it.
    pub open spec fn after_payload(self, seq: u32, payload: Seq<u8>) -> (ConnView, Option<bool>) {
        if payload.len() == 0 {
            (self, Some(false))
        } else if self.takes(seq) {
            match self.offer() {
                Offer::Taken => (self.after_data(payload), Some(true)),
                Offer::Full => (ConnView { held_guest: Some(payload), ..self }, Some(false)),
                Offer::Gone => (ConnView { held_guest: None, ..self }, None),
            }
        } else {
            (self, Some(before(seq, self.guest_next)))
        }
    }

    /// After a FIN at sequence number `at`: whether it is to be acknowledged.
    pub open spec fn after_guest_fin(self, at: u32) -> (ConnView, bool) {
        if at == self.guest_next {
            (
                ConnView { guest_next: self.guest_next.wrapping_add(1), guest_fin: true, ..self },
                true,
            )
        } else {
            (self, before(at, self.guest_next))
        }
    }

    /// After the payload and the FIN of a segment: whether they are to be acknowledged, or
    /// none if the host side is gone.
    #[verifier::opaque]
    pub open spec fn after_body(self, seq: u32, payload: Seq<u8>, fin: bool) -> (ConnView, Option<bool>) {
        let (data, data_ack) = self.after_payload(seq, payload);
        match data_ack {
            None => (data, None),
            Some(data_ack) => {
                let (end, fin_ack) = if fin {
                    data.after_guest_fin(advanced(seq, payload.len()))
                } else {
                    (data, false)
                };
                if data_ack || fin_ack {
                    (
                        ConnView { guest_fin_acked: end.guest_fin_acked || end.guest_fin, ..end },
                        Some(true),
                    )
                } else {
                    (end, Some(false))
                }
            },
        }
    }
}

impl Scene {
    /// After the payload and the FIN of a segment.
    #[verifier::opaque]
    pub open spec fn after_body(self, seq: u32, payload: Seq<u8>, fin: bool, guest_ip: Ipv4Address) -> Scene {
        let (conn, acknowledge) = self.conn.after_body(seq, payload, fin);
        let taken = Scene { conn, ..self };
        match acknowledge {
            None => taken.reset(),
            Some(acknowledge) => if acknowledge { taken.acknowledged(guest_ip) } else { taken },
        }
    }

    /// After one segment that opens nothing.
    pub open spec fn after_segment(
        self,
        segment: crate::net::tcp_segment::SegmentView,
        guest_ip: Ipv4Address,
    ) -> Scene {
        if crate::net::tcp_segment::has_flag(segment.flags, FLAG_RST) {
            if segment.seq == self.conn.guest_next || segment.seq == self.conn.guest_next.wrapping_sub(1) {
                self.reset()
            } else {
                self
            }
        } else {
            let acked = if crate::net::tcp_segment::has_flag(segment.flags, FLAG_ACK) {
                Scene { conn: self.conn.after_ack(segment.ack, segment.window), ..self }
            } else {
                self
            };
            acked.after_body(
                segment.seq,
                segment.payload,
                crate::net::tcp_segment::has_flag(segment.flags, FLAG_FIN),
                guest_ip,
            )
        }
    }
}

proof fn lemma_ack_keeps(conn: ConnView, ack: u32, window: u16)
    ensures
        conn.after_ack(ack, window).key == conn.key,
        conn.wf() ==> conn.after_ack(ack, window).wf(),
{
    reveal(ConnView::after_ack);
    crate::net::tcp_laws::acks_drop_what_they_cover(conn.unacked, ack);
}

proof fn lemma_body_keeps(conn: ConnView, seq: u32, payload: Seq<u8>, fin: bool)
    ensures
        conn.after_body(seq, payload, fin).0.key == conn.key,
        conn.after_body(seq, payload, fin).0.unacked == conn.unacked,
        conn.after_body(seq, payload, fin).0.guest_mss == conn.guest_mss,
{
    reveal(ConnView::after_body);
}

/// A segment changes neither which connection it is nor what fits in a packet.
proof fn lemma_segment_keeps(
    here: Scene,
    segment: crate::net::tcp_segment::SegmentView,
    guest_ip: Ipv4Address,
)
    ensures
        here.after_segment(segment, guest_ip).conn.key == here.conn.key,
        here.conn.wf() ==> here.after_segment(segment, guest_ip).conn.wf(),
{
    reveal(Scene::after_body);
    lemma_ack_keeps(here.conn, segment.ack, segment.window);
    let acked = if crate::net::tcp_segment::has_flag(segment.flags, FLAG_ACK) {
        here.conn.after_ack(segment.ack, segment.window)
    } else {
        here.conn
    };
    lemma_body_keeps(
        acked,
        segment.seq,
        segment.payload,
        crate::net::tcp_segment::has_flag(segment.flags, FLAG_FIN),
    );
}

/// Closes a connection that was reset.
pub(crate) fn close_reset(conn: &mut TcpConn, counters: &mut NetCounters)
    ensures
        final(conn)@ == (ConnView { closed: true, ..old(conn)@ }),
        *final(counters) == (NetCounters { tcp_resets: one_more(old(counters).tcp_resets), ..*old(counters) }),
{
    conn.closed = true;
    counters.tcp_resets = bump(counters.tcp_resets);
}

/// Takes a segment's payload.
fn take_payload(conn: &mut TcpConn, seq: u32, payload: &[u8]) -> (acknowledge: Option<bool>)
    ensures
        (final(conn)@, acknowledge) == old(conn)@.after_payload(seq, payload@),
{
    if payload.len() == 0 {
        return Some(false);
    }
    if seq == conn.guest_next && conn.established && !conn.guest_fin {
        let mut data: Vec<u8> = Vec::new();
        data.extend_from_slice(payload);
        assert(data@ =~= payload@);
        match offer(conn, data) {
            Offer::Taken => Some(true),
            Offer::Full => Some(false),
            Offer::Gone => None,
        }
    } else {
        Some(seq_lt(seq, conn.guest_next))
    }
}

/// Takes a FIN at sequence number `at`.
fn take_fin(conn: &mut TcpConn, at: u32) -> (acknowledge: bool)
    ensures
        (final(conn)@, acknowledge) == old(conn)@.after_guest_fin(at),
{
    if at == conn.guest_next {
        conn.guest_next = conn.guest_next.wrapping_add(1);
        conn.guest_fin = true;
        true
    } else {
        seq_lt(at, conn.guest_next)
    }
}

/// Notes that the guest's FIN is acknowledged, if it has come.
fn note_fin(conn: &mut TcpConn)
    ensures
        final(conn)@ == (ConnView {
            guest_fin_acked: old(conn)@.guest_fin_acked || old(conn)@.guest_fin,
            ..old(conn)@
        }),
{
    conn.guest_fin_acked = conn.guest_fin_acked || conn.guest_fin;
}

/// Takes the payload and the FIN of a segment.
fn take_body(conn: &mut TcpConn, seq: u32, payload: &[u8], fin: bool) -> (acknowledge: Option<bool>)
    ensures
        (final(conn)@, acknowledge) == old(conn)@.after_body(seq, payload@, fin),
{
    reveal(ConnView::after_body);
    let data_ack = match take_payload(conn, seq, payload) {
        Some(data_ack) => data_ack,
        None => {
            return None;
        },
    };
    let mut fin_ack = false;
    if fin {
        fin_ack = take_fin(conn, advance(seq, payload.len()));
    }
    if data_ack || fin_ack {
        note_fin(conn);
        Some(true)
    } else {
        Some(false)
    }
}

/// Takes the payload and the FIN of a segment, and answers.
fn answer_body(
    conn: &mut TcpConn,
    seq: u32,
    payload: &[u8],
    fin: bool,
    guest_ip: Ipv4Address,
    ip_id: &mut u16,
    counters: &mut NetCounters,
    frames: &mut Vec<Vec<u8>>,
)
    ensures
        scene(*final(conn), *final(ip_id), *final(counters), *final(frames)) == scene(
            *old(conn),
            *old(ip_id),
            *old(counters),
            *old(frames),
        ).after_body(seq, payload@, fin, guest_ip),
{
    reveal(Scene::after_body);
    match take_body(conn, seq, payload, fin) {
        None => close_reset(conn, counters),
        Some(acknowledge) => {
            if acknowledge {
                send_ack(conn, guest_ip, ip_id, frames);
            }
        },
    }
}

/// Applies one segment that opens nothing to its connection.
pub fn process_segment(
    conn: &mut TcpConn,
    segment: Segment<'_>,
    guest_ip: Ipv4Address,
    ip_id: &mut u16,
    counters: &mut NetCounters,
    frames: &mut Vec<Vec<u8>>,
)
    ensures
        scene(*final(conn), *final(ip_id), *final(counters), *final(frames)) == scene(
            *old(conn),
            *old(ip_id),
            *old(counters),
            *old(frames),
        ).after_segment(segment@, guest_ip),
        final(conn)@.key == old(conn)@.key,
        old(conn)@.wf() ==> final(conn)@.wf(),
{
    proof {
        lemma_segment_keeps(scene(*conn, *ip_id, *counters, *frames), segment@, guest_ip);
    }
    if test_flag(segment.flags, FLAG_RST) {
        if segment.seq == conn.guest_next || segment.seq == conn.guest_next.wrapping_sub(1) {
            close_reset(conn, counters);
        }
        return;
    }
    if test_flag(segment.flags, FLAG_ACK) {
        take_ack(conn, segment.ack, segment.window);
    }
    let fin = test_flag(segment.flags, FLAG_FIN);
    answer_body(conn, segment.seq, segment.payload, fin, guest_ip, ip_id, counters, frames);
}

} // verus!
