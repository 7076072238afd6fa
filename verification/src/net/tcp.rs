//! TCP termination: the table of proxied connections.
//!
//! Outbound guest connections are proxied: the guest's SYN opens a connection of the host,
//! the guest's data flows into it, and the host's data flows back as segments that carry
//! the remote host's address. Inbound connections do not exist. At most
//! [`MAX_CONNECTIONS`] connections live at a time; a SYN past that is refused with a reset.

use std::collections::VecDeque;

use vstd::prelude::*;

use crate::net::config::{bump, contents, lemma_contents, one_more, push_packet, NetConfig, NetCounters};
use crate::net::host::{HostEvent, QUEUE_LENGTH};
use crate::net::ipv4::{next_identification, wrap_tcp, Ipv4Address, Ipv4Packet, PacketView};
use crate::net::tcp_conn::{
    lemma_events, lemma_events_push, lemma_segments, process_segment, tcp_packet, ConnKey, ConnView, Scene, TcpConn,
};
use crate::net::tcp_poll::{poll_conn, RESET};
use crate::net::tcp_segment::{
    build_segment, parse_mss, parse_segment, segment_checksum_ok, test_flag, Segment, SegmentView, FLAG_ACK, FLAG_RST,
    FLAG_SYN, OUR_MSS,
};

verus! {

/// How many connections may live at a time.
pub const MAX_CONNECTIONS: usize = 64;

/// How far one initial sequence number is from the next.
pub const ISN_STEP: u32 = 0x2F6B_35C5;

/// The MSS of a guest that tells none.
pub const DEFAULT_MSS: u16 = 536;

/// A first initial sequence number, from the clock's nanoseconds, if it can be read, and a
/// salt.
pub open spec fn seed_of(clock: Option<u32>, salt: u32) -> u32 {
    (match clock {
        Some(nanoseconds) => nanoseconds,
        None => 0x1234u32,
    } ^ 0x9E37_79B9).wrapping_add(salt)
}

pub fn isn_seed(clock: Option<u32>, salt: u32) -> (seed: u32)
    ensures
        seed == seed_of(clock, salt),
{
    let base = match clock {
        Some(nanoseconds) => nanoseconds,
        None => 0x1234,
    };
    (base ^ 0x9E37_79B9).wrapping_add(salt)
}

/// Different salts give different seeds, whatever the clock says.
pub proof fn seeds_are_distinct(clock: Option<u32>, salt: u32, other: u32)
    requires
        salt != other,
    ensures
        seed_of(clock, salt) != seed_of(clock, other),
{
}

/// Where the salts of connection tables come from: each table takes one of its own.
#[derive(Debug)]
pub struct Salts {
    pub next: u32,
}

impl Salts {
    pub fn new() -> (salts: Salts)
        ensures
            salts.next == 0,
    {
        Salts { next: 0 }
    }

    /// Takes the next salt.
    pub fn take(&mut self) -> (salt: u32)
        ensures
            salt == old(self).next,
            final(self).next == old(self).next.wrapping_add(1),
    {
        let salt = self.next;
        self.next = salt.wrapping_add(1);
        salt
    }
}

/// The salt that is taken after `count` others.
pub open spec fn salt_after(first: u32, count: nat) -> u32
    decreases count,
{
    if count == 0 {
        first
    } else {
        salt_after(first, (count - 1) as nat).wrapping_add(1)
    }
}

/// Tables that take their salts from one source start at different sequence numbers, also
/// where the clock cannot be read or stands still: any two of them that come less than
/// 2^32 tables after each other.
pub proof fn tables_start_apart(clock: Option<u32>, first: u32, count: nat, later: nat)
    requires
        count < later,
        later - count < 0x1_0000_0000,
    ensures
        seed_of(clock, salt_after(first, count)) != seed_of(clock, salt_after(first, later)),
{
    lemma_salt_after(first, count);
    lemma_salt_after(first, later);
    assert((first + count) % 0x1_0000_0000 != (first + later) % 0x1_0000_0000) by {
        let near = (first + count) as int;
        let far = (first + later) as int;
        if near % 0x1_0000_0000 == far % 0x1_0000_0000 {
            assert(far - near == 0x1_0000_0000 * (far / 0x1_0000_0000 - near / 0x1_0000_0000));
        }
    }
}

proof fn lemma_salt_after(first: u32, count: nat)
    ensures
        salt_after(first, count) == (first + count) % 0x1_0000_0000,
    decreases count,
{
    if count > 0 {
        lemma_salt_after(first, (count - 1) as nat);
    }
}

/// The connection table and the next initial sequence number.
#[derive(Debug)]
pub struct TcpState {
    pub connections: Vec<TcpConn>,
    pub next_isn: u32,
}

pub struct TcpView {
    pub connections: Seq<ConnView>,
    pub next_isn: u32,
}

/// The readings of the connections in the table.
#[verifier::opaque]
pub open spec fn readings(connections: Seq<TcpConn>) -> Seq<ConnView> {
    connections.map_values(|conn: TcpConn| conn@)
}

proof fn lemma_readings(connections: Seq<TcpConn>)
    ensures
        readings(connections).len() == connections.len(),
        forall|i: int| 0 <= i < connections.len() ==> #[trigger] readings(connections)[i] == connections[i]@,
{
    reveal(readings);
}

proof fn lemma_readings_push(connections: Seq<TcpConn>, conn: TcpConn)
    ensures
        readings(connections.push(conn)) == readings(connections).push(conn@),
{
    reveal(readings);
    assert(readings(connections.push(conn)) =~= readings(connections).push(conn@));
}

proof fn lemma_readings_remove(connections: Seq<TcpConn>, index: int)
    requires
        0 <= index < connections.len(),
    ensures
        readings(connections.remove(index)) == readings(connections).remove(index),
{
    reveal(readings);
    assert(readings(connections.remove(index)) =~= readings(connections).remove(index));
}

proof fn lemma_readings_update(connections: Seq<TcpConn>, index: int, conn: TcpConn)
    requires
        0 <= index < connections.len(),
    ensures
        readings(connections.update(index, conn)) == readings(connections).update(index, conn@),
{
    reveal(readings);
    assert(readings(connections.update(index, conn)) =~= readings(connections).update(index, conn@));
}

impl View for TcpState {
    type V = TcpView;

    open spec fn view(&self) -> TcpView {
        TcpView { connections: readings(self.connections@), next_isn: self.next_isn }
    }
}

/// Where the connection of a key stands, from `from` on.
pub open spec fn position(connections: Seq<ConnView>, key: ConnKey, from: int) -> Option<int>
    decreases connections.len() - from,
{
    if from < 0 || from >= connections.len() {
        None
    } else if connections[from].key == key {
        Some(from)
    } else {
        position(connections, key, from + 1)
    }
}

/// What `position` finds.
proof fn lemma_position(connections: Seq<ConnView>, key: ConnKey, from: int)
    requires
        0 <= from,
    ensures
        match position(connections, key, from) {
            Some(index) => from <= index < connections.len() && connections[index].key == key,
            None => forall|i: int| from <= i < connections.len() ==> (#[trigger] connections[i]).key != key,
        },
    decreases connections.len() - from,
{
    if from < connections.len() && connections[from].key != key {
        lemma_position(connections, key, from + 1);
    }
}

impl TcpView {
    /// No more connections than allowed, no key twice, and nothing that fits in no packet.
    pub open spec fn wf(self) -> bool {
        &&& self.connections.len() <= MAX_CONNECTIONS
        &&& forall|i: int, j: int|
            0 <= i < j < self.connections.len() ==> (#[trigger] self.connections[i]).key != (
            #[trigger] self.connections[j]).key
        &&& forall|i: int| 0 <= i < self.connections.len() ==> (#[trigger] self.connections[i]).wf()
    }
}

/// The table together with all that a step of it may touch.
pub struct Board {
    pub tcp: TcpView,
    pub ip_id: u16,
    pub counters: NetCounters,
    pub frames: Seq<Seq<u8>>,
}

pub open spec fn board(tcp: TcpState, ip_id: u16, counters: NetCounters, frames: Vec<Vec<u8>>) -> Board {
    Board { tcp: tcp@, ip_id, counters, frames: contents(frames@) }
}

/// A connection that a SYN opens.
pub open spec fn fresh(key: ConnKey, segment: SegmentView, isn: u32) -> ConnView {
    ConnView {
        key,
        established: false,
        guest_next: segment.seq.wrapping_add(1),
        guest_window: segment.window as u32,
        guest_mss: clamped_mss(crate::net::tcp_segment::mss_of(segment.options)),
        our_isn: isn,
        our_next: isn.wrapping_add(1),
        our_una: isn,
        pending: Seq::empty(),
        unacked: Seq::empty(),
        retransmit_deadline: None,
        retransmits: 0,
        held_guest: None,
        to_host: Seq::empty(),
        host_gone: false,
        from_host: Seq::empty(),
        host_silent: false,
        fin_sent: false,
        fin_acked: false,
        fin_seq: 0,
        fin_pending: false,
        guest_fin: false,
        guest_fin_acked: false,
        host_eof: false,
        linger_deadline: None,
        closed: false,
    }
}

/// The MSS towards the guest: what it tells, but no more than ours and not nothing.
pub open spec fn clamped_mss(mss: Option<u16>) -> u16 {
    match mss {
        None => DEFAULT_MSS,
        Some(mss) => if mss == 0 {
            1
        } else if mss > OUR_MSS {
            OUR_MSS
        } else {
            mss
        },
    }
}

fn clamp_mss(mss: Option<u16>) -> (clamped: u16)
    ensures
        clamped == clamped_mss(mss),
{
    match mss {
        None => DEFAULT_MSS,
        Some(mss) => if mss == 0 {
            1
        } else if mss > OUR_MSS {
            OUR_MSS
        } else {
            mss
        },
    }
}

impl Board {
    /// With a reset sent and counted for a connection that does not exist.
    pub open spec fn refused(self, key: ConnKey, seq: u32, ack: u32, guest_ip: Ipv4Address) -> Board {
        Board {
            frames: self.frames.push(
                tcp_packet(key, seq, ack, RESET, 0, Seq::empty(), Seq::empty(), guest_ip, self.ip_id),
            ),
            ip_id: self.ip_id.wrapping_add(1),
            counters: NetCounters { tcp_resets: one_more(self.counters.tcp_resets), ..self.counters },
            ..self
        }
    }

    /// With a new connection at the end of the table.
    pub open spec fn added(self, key: ConnKey, segment: SegmentView) -> Board {
        Board {
            tcp: TcpView {
                connections: self.tcp.connections.push(fresh(key, segment, self.tcp.next_isn)),
                next_isn: self.tcp.next_isn.wrapping_add(ISN_STEP),
            },
            counters: NetCounters { tcp_opened: one_more(self.counters.tcp_opened), ..self.counters },
            ..self
        }
    }

    /// Without one of the connections.
    pub open spec fn without(self, index: int) -> Board {
        Board {
            tcp: TcpView { connections: self.tcp.connections.remove(index), ..self.tcp },
            counters: NetCounters { tcp_closed: one_more(self.counters.tcp_closed), ..self.counters },
            ..self
        }
    }

    /// After a SYN, with the key to dial if it opened a connection. A SYN on a live
    /// connection is a retransmission and changes nothing; one on a lingering connection
    /// replaces it; one past the limit is refused.
    pub open spec fn opened(self, key: ConnKey, segment: SegmentView, guest_ip: Ipv4Address) -> (Board, Option<ConnKey>) {
        match position(self.tcp.connections, key, 0) {
            Some(index) => if self.tcp.connections[index].linger_deadline is Some {
                (self.without(index).added(key, segment), Some(key))
            } else {
                (self, None)
            },
            None => if self.tcp.connections.len() >= MAX_CONNECTIONS {
                (self.refused(key, 0, segment.seq.wrapping_add(1), guest_ip), None)
            } else {
                (self.added(key, segment), Some(key))
            },
        }
    }

    /// One of the connections together with all that a step of it may touch.
    pub open spec fn at(self, index: int) -> Scene {
        Scene {
            conn: self.tcp.connections[index],
            ip_id: self.ip_id,
            counters: self.counters,
            frames: self.frames,
        }
    }

    /// With one of the connections after a step.
    pub open spec fn stepped(self, index: int, after: Scene) -> Board {
        Board {
            tcp: TcpView { connections: self.tcp.connections.update(index, after.conn), ..self.tcp },
            ip_id: after.ip_id,
            counters: after.counters,
            frames: after.frames,
        }
    }

    /// After a segment other than an opening SYN. One of a connection that does not exist
    /// is answered with a reset, unless it is one itself.
    pub open spec fn routed(self, key: ConnKey, segment: SegmentView, guest_ip: Ipv4Address) -> Board {
        match position(self.tcp.connections, key, 0) {
            Some(index) => self.stepped(index, self.at(index).after_segment(segment, guest_ip)),
            None => if crate::net::tcp_segment::has_flag(segment.flags, FLAG_RST) {
                self
            } else {
                self.refused(key, segment.ack, 0, guest_ip)
            },
        }
    }

    /// After one packet from the guest, with the key to dial if it opened a connection.
    pub open spec fn handled(self, packet: PacketView, guest_ip: Ipv4Address) -> (Board, Option<ConnKey>) {
        if !crate::net::tcp_segment::is_segment(packet.payload) {
            (
                Board {
                    counters: NetCounters {
                        dropped_bad_packet: one_more(self.counters.dropped_bad_packet),
                        ..self.counters
                    },
                    ..self
                },
                None,
            )
        } else if !crate::net::tcp_segment::verifies(packet.src, packet.dst, packet.payload) {
            (
                Board {
                    counters: NetCounters {
                        dropped_bad_checksum: one_more(self.counters.dropped_bad_checksum),
                        ..self.counters
                    },
                    ..self
                },
                None,
            )
        } else if packet.src != guest_ip {
            (
                Board {
                    counters: NetCounters {
                        dropped_not_for_us: one_more(self.counters.dropped_not_for_us),
                        ..self.counters
                    },
                    ..self
                },
                None,
            )
        } else {
            let segment = crate::net::tcp_segment::segment_of(packet.payload);
            let key = ConnKey { local_port: segment.sport, remote_addr: packet.dst, remote_port: segment.dport };
            if crate::net::tcp_segment::has_flag(segment.flags, FLAG_SYN) && !crate::net::tcp_segment::has_flag(
                segment.flags,
                FLAG_ACK,
            ) {
                self.opened(key, segment, guest_ip)
            } else {
                (self.routed(key, segment, guest_ip), None)
            }
        }
    }
}

/// Refuses a connection with a reset.
fn refuse(
    key: ConnKey,
    seq: u32,
    ack: u32,
    guest_ip: Ipv4Address,
    ip_id: &mut u16,
    counters: &mut NetCounters,
    frames: &mut Vec<Vec<u8>>,
)
    ensures
        contents(final(frames)@) == contents(old(frames)@).push(
            tcp_packet(key, seq, ack, RESET, 0, Seq::empty(), Seq::empty(), guest_ip, *old(ip_id)),
        ),
        *final(ip_id) == old(ip_id).wrapping_add(1),
        *final(counters) == (NetCounters { tcp_resets: one_more(old(counters).tcp_resets), ..*old(counters) }),
{
    reveal(tcp_packet);
    let none: Vec<u8> = Vec::new();
    assert(none@ =~= Seq::<u8>::empty());
    let segment = build_segment(
        key.remote_port,
        key.local_port,
        seq,
        ack,
        RESET,
        0,
        none.as_slice(),
        none.as_slice(),
    );
    let id = next_identification(ip_id);
    push_packet(frames, wrap_tcp(key.remote_addr, guest_ip, segment.as_slice(), id));
    counters.tcp_resets = bump(counters.tcp_resets);
}

/// A connection that a SYN opens.
fn new_conn(key: ConnKey, segment: Segment<'_>, isn: u32) -> (conn: TcpConn)
    ensures
        conn@ == fresh(key, segment@, isn),
{
    let conn = TcpConn {
        key,
        established: false,
        guest_next: segment.seq.wrapping_add(1),
        guest_window: segment.window as u32,
        guest_mss: clamp_mss(parse_mss(segment.options)),
        our_isn: isn,
        our_next: isn.wrapping_add(1),
        our_una: isn,
        pending: Vec::new(),
        unacked: VecDeque::new(),
        retransmit_deadline: None,
        retransmits: 0,
        held_guest: None,
        to_host: VecDeque::new(),
        host_gone: false,
        from_host: VecDeque::new(),
        host_silent: false,
        fin_sent: false,
        fin_acked: false,
        fin_seq: 0,
        fin_pending: false,
        guest_fin: false,
        guest_fin_acked: false,
        host_eof: false,
        linger_deadline: None,
        closed: false,
    };
    proof {
        lemma_segments(conn.unacked@);
        lemma_events(conn.from_host@);
        lemma_contents(conn.to_host@);
        assert(conn@.unacked =~= Seq::empty());
        assert(conn@.from_host =~= Seq::empty());
        assert(conn@.to_host =~= Seq::empty());
        assert(conn@.pending =~= Seq::empty());
    }
    conn
}

/// Adding a connection of a new key keeps the table in order.
proof fn lemma_added(tcp: TcpView, conn: ConnView)
    requires
        tcp.wf(),
        conn.wf(),
        tcp.connections.len() < MAX_CONNECTIONS,
        position(tcp.connections, conn.key, 0) is None,
    ensures
        (TcpView { connections: tcp.connections.push(conn), ..tcp }).wf(),
{
    lemma_position(tcp.connections, conn.key, 0);
}

/// Removing a connection keeps the table in order, and no other has its key.
proof fn lemma_removed(tcp: TcpView, index: int)
    requires
        tcp.wf(),
        0 <= index < tcp.connections.len(),
    ensures
        (TcpView { connections: tcp.connections.remove(index), ..tcp }).wf(),
        position(tcp.connections.remove(index), tcp.connections[index].key, 0) is None,
{
    let left = tcp.connections.remove(index);
    let key = tcp.connections[index].key;
    lemma_position(left, key, 0);
    assert forall|i: int, j: int| 0 <= i < j < left.len() implies (#[trigger] left[i]).key != (#[trigger] left[j]).key by {
        let before_i = if i < index { i } else { i + 1 };
        let before_j = if j < index { j } else { j + 1 };
        assert(left[i] == tcp.connections[before_i]);
        assert(left[j] == tcp.connections[before_j]);
    }
    assert forall|i: int| 0 <= i < left.len() implies (#[trigger] left[i]).wf() by {
        let before_i = if i < index { i } else { i + 1 };
        assert(left[i] == tcp.connections[before_i]);
    }
    if let Some(found) = position(left, key, 0) {
        let before_found = if found < index { found } else { found + 1 };
        assert(left[found] == tcp.connections[before_found]);
    }
}

/// A step of one connection keeps the table in order.
proof fn lemma_stepped(tcp: TcpView, index: int, conn: ConnView)
    requires
        tcp.wf(),
        0 <= index < tcp.connections.len(),
        conn.key == tcp.connections[index].key,
        conn.wf(),
    ensures
        (TcpView { connections: tcp.connections.update(index, conn), ..tcp }).wf(),
{
    let after = tcp.connections.update(index, conn);
    assert forall|i: int, j: int| 0 <= i < j < after.len() implies (#[trigger] after[i]).key != (#[trigger] after[j]).key by {
        assert(after[i].key == tcp.connections[i].key);
        assert(after[j].key == tcp.connections[j].key);
    }
    assert forall|i: int| 0 <= i < after.len() implies (#[trigger] after[i]).wf() by {
        if i != index {
            assert(after[i] == tcp.connections[i]);
        }
    }
}

impl TcpState {
    /// An empty table. Where its first connection starts comes from the clock's
    /// nanoseconds, if it can be read, and from the next salt.
    pub fn new(clock: Option<u32>, salts: &mut Salts) -> (state: TcpState)
        ensures
            state@ == (TcpView { connections: Seq::empty(), next_isn: seed_of(clock, old(salts).next) }),
            state@.wf(),
            final(salts).next == old(salts).next.wrapping_add(1),
    {
        let salt = salts.take();
        let state = TcpState { connections: Vec::new(), next_isn: isn_seed(clock, salt) };
        proof {
            lemma_readings(state.connections@);
            assert(state@.connections =~= Seq::empty());
        }
        state
    }

    /// Where the connection of a key stands.
    pub fn find(&self, key: ConnKey) -> (found: Option<usize>)
        ensures
            found is Some == position(self@.connections, key, 0) is Some,
            found matches Some(index) ==> position(self@.connections, key, 0) == Some(index as int) && index
                < self.connections@.len() && index < self@.connections.len(),
    {
        let count = self.connections.len();
        proof {
            lemma_readings(self.connections@);
        }
        let mut index: usize = 0;
        while index < count
            invariant
                index <= count,
                count == self.connections@.len(),
                count == self@.connections.len(),
                forall|i: int| 0 <= i < count ==> #[trigger] self@.connections[i] == self.connections@[i]@,
                position(self@.connections, key, 0) == position(self@.connections, key, index as int),
            decreases count - index,
        {
            assert(self@.connections[index as int] == self.connections@[index as int]@);
            if self.connections[index].key == key {
                return Some(index);
            }
            index = index + 1;
        }
        None
    }

    /// Adds a connection at the end of the table.
    fn add(&mut self, key: ConnKey, segment: Segment<'_>, counters: &mut NetCounters)
        requires
            old(self)@.wf(),
            old(self)@.connections.len() < MAX_CONNECTIONS,
            position(old(self)@.connections, key, 0) is None,
        ensures
            final(self)@ == (TcpView {
                connections: old(self)@.connections.push(fresh(key, segment@, old(self)@.next_isn)),
                next_isn: old(self)@.next_isn.wrapping_add(ISN_STEP),
            }),
            *final(counters) == (NetCounters { tcp_opened: one_more(old(counters).tcp_opened), ..*old(counters) }),
            final(self)@.wf(),
    {
        let isn = self.next_isn;
        let conn = new_conn(key, segment, isn);
        proof {
            lemma_readings_push(self.connections@, conn);
            lemma_added(self@, conn@);
        }
        self.next_isn = isn.wrapping_add(ISN_STEP);
        self.connections.push(conn);
        counters.tcp_opened = bump(counters.tcp_opened);
    }

    /// Opens a connection on the guest's SYN. The answer to it is sent once the host has
    /// connected.
    fn open(
        &mut self,
        key: ConnKey,
        segment: Segment<'_>,
        guest_ip: Ipv4Address,
        ip_id: &mut u16,
        counters: &mut NetCounters,
        frames: &mut Vec<Vec<u8>>,
    ) -> (dial: Option<ConnKey>)
        requires
            old(self)@.wf(),
        ensures
            (board(*final(self), *final(ip_id), *final(counters), *final(frames)), dial) == board(
                *old(self),
                *old(ip_id),
                *old(counters),
                *old(frames),
            ).opened(key, segment@, guest_ip),
            final(self)@.wf(),
    {
        proof {
            lemma_readings(self.connections@);
            lemma_position(self@.connections, key, 0);
        }
        match self.find(key) {
            Some(index) => {
                assert(self@.connections[index as int] == self.connections@[index as int]@);
                if self.connections[index].linger_deadline.is_none() {
                    return None;
                }
                proof {
                    lemma_readings_remove(self.connections@, index as int);
                    lemma_removed(self@, index as int);
                }
                let _ = self.connections.remove(index);
                counters.tcp_closed = bump(counters.tcp_closed);
            },
            None => {
                if self.connections.len() >= MAX_CONNECTIONS {
                    refuse(key, 0, segment.seq.wrapping_add(1), guest_ip, ip_id, counters, frames);
                    return None;
                }
            },
        }
        self.add(key, segment, counters);
        Some(key)
    }

    /// Hands a segment to its connection.
    fn route(
        &mut self,
        key: ConnKey,
        segment: Segment<'_>,
        guest_ip: Ipv4Address,
        ip_id: &mut u16,
        counters: &mut NetCounters,
        frames: &mut Vec<Vec<u8>>,
    )
        requires
            old(self)@.wf(),
        ensures
            board(*final(self), *final(ip_id), *final(counters), *final(frames)) == board(
                *old(self),
                *old(ip_id),
                *old(counters),
                *old(frames),
            ).routed(key, segment@, guest_ip),
            final(self)@.wf(),
    {
        match self.find(key) {
            Some(index) => {
                let ghost table = self.connections@;
                let ghost reading = self@;
                proof {
                    lemma_readings(table);
                    assert(reading.connections[index as int] == table[index as int]@);
                }
                process_segment(&mut self.connections[index], segment, guest_ip, ip_id, counters, frames);
                proof {
                    let after = self.connections@[index as int];
                    assert(self.connections@ =~= table.update(index as int, after));
                    lemma_readings_update(table, index as int, after);
                    lemma_stepped(reading, index as int, after@);
                }
            },
            None => {
                if !test_flag(segment.flags, FLAG_RST) {
                    refuse(key, segment.ack, 0, guest_ip, ip_id, counters, frames);
                }
            },
        }
    }

    /// Handles one TCP segment that the guest sent. An opening SYN opens a connection, and
    /// the result tells the caller to dial it; everything else is matched to an existing
    /// connection, unknown connections get a reset. A segment that is cut short, has a bad
    /// checksum or another source than the guest is dropped and counted.
    pub fn handle(
        &mut self,
        packet: Ipv4Packet<'_>,
        config: &NetConfig,
        ip_id: &mut u16,
        counters: &mut NetCounters,
        frames: &mut Vec<Vec<u8>>,
    ) -> (dial: Option<ConnKey>)
        requires
            old(self)@.wf(),
        ensures
            (board(*final(self), *final(ip_id), *final(counters), *final(frames)), dial) == board(
                *old(self),
                *old(ip_id),
                *old(counters),
                *old(frames),
            ).handled(packet@, config.guest_ip),
            final(self)@.wf(),
    {
        let segment = match parse_segment(packet.payload) {
            Some(segment) => segment,
            None => {
                counters.dropped_bad_packet = bump(counters.dropped_bad_packet);
                return None;
            },
        };
        if !segment_checksum_ok(&packet, packet.payload) {
            counters.dropped_bad_checksum = bump(counters.dropped_bad_checksum);
            return None;
        }
        if packet.src != config.guest_ip {
            counters.dropped_not_for_us = bump(counters.dropped_not_for_us);
            return None;
        }
        let key = ConnKey { local_port: segment.sport, remote_addr: packet.dst, remote_port: segment.dport };
        if test_flag(segment.flags, FLAG_SYN) && !test_flag(segment.flags, FLAG_ACK) {
            self.open(key, segment, config.guest_ip, ip_id, counters, frames)
        } else {
            self.route(key, segment, config.guest_ip, ip_id, counters, frames);
            None
        }
    }
}

impl Board {
    /// After a poll of the connection at the front: it goes to the end of the table, or
    /// away if it has closed.
    pub open spec fn after_front(self, now: u64, guest_ip: Ipv4Address) -> Board {
        let after = self.at(0).polled(now, guest_ip);
        let left = self.tcp.connections.remove(0);
        if after.conn.closed {
            Board {
                tcp: TcpView { connections: left, ..self.tcp },
                ip_id: after.ip_id,
                counters: NetCounters { tcp_closed: one_more(after.counters.tcp_closed), ..after.counters },
                frames: after.frames,
            }
        } else {
            Board {
                tcp: TcpView { connections: left.push(after.conn), ..self.tcp },
                ip_id: after.ip_id,
                counters: after.counters,
                frames: after.frames,
            }
        }
    }

    /// After a poll of as many connections.
    #[verifier::opaque]
    pub open spec fn after_fronts(self, count: nat, now: u64, guest_ip: Ipv4Address) -> Board
        decreases count,
    {
        if count == 0 {
            self
        } else {
            self.after_front(now, guest_ip).after_fronts((count - 1) as nat, now, guest_ip)
        }
    }

    /// After a poll: each connection once, in the order in which they were opened.
    pub open spec fn polled(self, now: u64, guest_ip: Ipv4Address) -> Board {
        self.after_fronts(self.tcp.connections.len(), now, guest_ip)
    }
}

proof fn lemma_after_fronts(here: Board, count: nat, now: u64, guest_ip: Ipv4Address)
    ensures
        here.after_fronts(count, now, guest_ip) == if count == 0 {
            here
        } else {
            here.after_front(now, guest_ip).after_fronts((count - 1) as nat, now, guest_ip)
        },
{
    reveal(Board::after_fronts);
}

impl TcpView {
    /// With one of the connections in another state.
    pub open spec fn with(self, index: int, conn: ConnView) -> TcpView {
        TcpView { connections: self.connections.update(index, conn), ..self }
    }

    /// Whether a connection can take one more host event.
    pub open spec fn hears(self, key: ConnKey) -> bool {
        position(self.connections, key, 0) matches Some(index) && self.connections[index].from_host.len() < QUEUE_LENGTH
    }
}

impl TcpState {
    /// Polls the connection at the front.
    fn poll_front(
        &mut self,
        now: u64,
        guest_ip: Ipv4Address,
        ip_id: &mut u16,
        counters: &mut NetCounters,
        frames: &mut Vec<Vec<u8>>,
    )
        requires
            old(self)@.wf(),
            old(self)@.connections.len() > 0,
        ensures
            board(*final(self), *final(ip_id), *final(counters), *final(frames)) == board(
                *old(self),
                *old(ip_id),
                *old(counters),
                *old(frames),
            ).after_front(now, guest_ip),
            final(self)@.wf(),
    {
        let ghost reading = self@;
        proof {
            lemma_readings(self.connections@);
            lemma_readings_remove(self.connections@, 0);
            lemma_removed(self@, 0);
            assert(reading.connections[0] == self.connections@[0]@);
        }
        let mut conn = self.connections.remove(0);
        poll_conn(&mut conn, now, guest_ip, ip_id, counters, frames);
        if conn.closed {
            counters.tcp_closed = bump(counters.tcp_closed);
        } else {
            proof {
                lemma_readings_push(self.connections@, conn);
                lemma_added(self@, conn@);
            }
            self.connections.push(conn);
        }
    }

    /// Advances every connection: host events, held guest data, windowed sends,
    /// retransmission, FIN handshake, and teardown.
    pub fn poll(
        &mut self,
        now: u64,
        config: &NetConfig,
        ip_id: &mut u16,
        counters: &mut NetCounters,
        frames: &mut Vec<Vec<u8>>,
    )
        requires
            old(self)@.wf(),
        ensures
            board(*final(self), *final(ip_id), *final(counters), *final(frames)) == board(
                *old(self),
                *old(ip_id),
                *old(counters),
                *old(frames),
            ).polled(now, config.guest_ip),
            final(self)@.wf(),
    {
        proof {
            lemma_readings(self.connections@);
        }
        let ghost start = board(*self, *ip_id, *counters, *frames);
        let mut left = self.connections.len();
        while left > 0
            invariant
                self@.wf(),
                left <= self@.connections.len(),
                start == board(*old(self), *old(ip_id), *old(counters), *old(frames)),
                board(*self, *ip_id, *counters, *frames).after_fronts(left as nat, now, config.guest_ip)
                    == start.polled(now, config.guest_ip),
            decreases left,
        {
            proof {
                lemma_after_fronts(board(*self, *ip_id, *counters, *frames), left as nat, now, config.guest_ip);
            }
            self.poll_front(now, config.guest_ip, ip_id, counters, frames);
            left = left - 1;
        }
        proof {
            lemma_after_fronts(board(*self, *ip_id, *counters, *frames), 0, now, config.guest_ip);
        }
    }

    /// Hands a host event to a connection. It comes back if there is no such connection or
    /// its queue is full.
    pub fn deliver(&mut self, key: ConnKey, event: HostEvent) -> (refused: Option<HostEvent>)
        requires
            old(self)@.wf(),
        ensures
            refused == (if old(self)@.hears(key) {
                None
            } else {
                Some(event)
            }),
            final(self)@ == (match position(old(self)@.connections, key, 0) {
                Some(index) => if old(self)@.hears(key) {
                    old(self)@.with(
                        index,
                        (ConnView {
                            from_host: old(self)@.connections[index].from_host.push(event@),
                            ..old(self)@.connections[index]
                        }),
                    )
                } else {
                    old(self)@
                },
                None => old(self)@,
            }),
            final(self)@.wf(),
    {
        match self.find(key) {
            Some(index) => {
                let ghost table = self.connections@;
                let ghost reading = self@;
                proof {
                    lemma_readings(table);
                    assert(reading.connections[index as int] == table[index as int]@);
                    lemma_events(table[index as int].from_host@);
                    lemma_events_push(table[index as int].from_host@, event);
                }
                if self.connections[index].from_host.len() >= QUEUE_LENGTH {
                    return Some(event);
                }
                hear(&mut self.connections[index], event);
                proof {
                    let after = self.connections@[index as int];
                    assert(self.connections@ =~= table.update(index as int, after));
                    lemma_readings_update(table, index as int, after);
                    lemma_stepped(reading, index as int, after@);
                }
                None
            },
            None => Some(event),
        }
    }

    /// Notes that the host side of a connection has ended: it takes no more data and sends
    /// no more events.
    pub fn host_ended(&mut self, key: ConnKey)
        requires
            old(self)@.wf(),
        ensures
            final(self)@ == (match position(old(self)@.connections, key, 0) {
                Some(index) => old(self)@.with(
                    index,
                    (ConnView { host_gone: true, host_silent: true, ..old(self)@.connections[index] }),
                ),
                None => old(self)@,
            }),
            final(self)@.wf(),
    {
        if let Some(index) = self.find(key) {
            let ghost table = self.connections@;
            let ghost reading = self@;
            proof {
                lemma_readings(table);
                assert(reading.connections[index as int] == table[index as int]@);
            }
            end_host(&mut self.connections[index]);
            proof {
                let after = self.connections@[index as int];
                assert(self.connections@ =~= table.update(index as int, after));
                lemma_readings_update(table, index as int, after);
                lemma_stepped(reading, index as int, after@);
            }
        }
    }

    /// The next guest data for the host side of a connection.
    pub fn take_outgoing(&mut self, key: ConnKey) -> (data: Option<Vec<u8>>)
        requires
            old(self)@.wf(),
        ensures
            match position(old(self)@.connections, key, 0) {
                Some(index) => if old(self)@.connections[index].to_host.len() > 0 {
                    data is Some && data->0@ == old(self)@.connections[index].to_host[0] && final(self)@ == old(
                        self,
                    )@.with(
                        index,
                        (ConnView {
                            to_host: old(self)@.connections[index].to_host.skip(1),
                            ..old(self)@.connections[index]
                        }),
                    )
                } else {
                    data is None && final(self)@ == old(self)@
                },
                None => data is None && final(self)@ == old(self)@,
            },
            final(self)@.wf(),
    {
        match self.find(key) {
            Some(index) => {
                let ghost table = self.connections@;
                let ghost reading = self@;
                proof {
                    lemma_readings(table);
                    assert(reading.connections[index as int] == table[index as int]@);
                    lemma_contents(table[index as int].to_host@);
                }
                let data = next_outgoing(&mut self.connections[index]);
                proof {
                    let after = self.connections@[index as int];
                    assert(self.connections@ =~= table.update(index as int, after));
                    lemma_readings_update(table, index as int, after);
                    lemma_stepped(reading, index as int, after@);
                    assert(reading.connections.update(index as int, reading.connections[index as int])
                        =~= reading.connections);
                }
                data
            },
            None => None,
        }
    }

    /// Whether the guest has closed its side of a connection and all of its data is gone
    /// to the host side, which may then close its own sending half.
    pub fn guest_finished(&self, key: ConnKey) -> (finished: bool)
        ensures
            finished == (position(self@.connections, key, 0) matches Some(index)
                && self@.connections[index].guest_fin && self@.connections[index].to_host.len() == 0),
    {
        match self.find(key) {
            Some(index) => {
                proof {
                    lemma_readings(self.connections@);
                    assert(self@.connections[index as int] == self.connections@[index as int]@);
                    lemma_contents(self.connections@[index as int].to_host@);
                }
                self.connections[index].guest_fin && self.connections[index].to_host.len() == 0
            },
            None => false,
        }
    }

    /// Drops every connection; initial sequence numbers go on.
    pub fn reset(&mut self)
        ensures
            final(self)@ == (TcpView { connections: Seq::empty(), next_isn: old(self)@.next_isn }),
            final(self)@.wf(),
    {
        self.connections.clear();
        proof {
            lemma_readings(self.connections@);
            assert(self@.connections =~= Seq::empty());
        }
    }
}

/// Queues a host event.
fn hear(conn: &mut TcpConn, event: HostEvent)
    ensures
        final(conn)@ == (ConnView { from_host: old(conn)@.from_host.push(event@), ..old(conn)@ }),
{
    proof {
        lemma_events_push(conn.from_host@, event);
    }
    conn.from_host.push_back(event);
}

fn end_host(conn: &mut TcpConn)
    ensures
        final(conn)@ == (ConnView { host_gone: true, host_silent: true, ..old(conn)@ }),
{
    conn.host_gone = true;
    conn.host_silent = true;
}

/// The next guest data of a connection.
fn next_outgoing(conn: &mut TcpConn) -> (data: Option<Vec<u8>>)
    ensures
        data is Some == (old(conn)@.to_host.len() > 0),
        data matches Some(data) ==> data@ == old(conn)@.to_host[0] && final(conn)@ == (ConnView {
            to_host: old(conn)@.to_host.skip(1),
            ..old(conn)@
        }),
        data is None ==> final(conn)@ == old(conn)@,
{
    let ghost queue = conn.to_host@;
    proof {
        lemma_contents(queue);
    }
    let data = conn.to_host.pop_front();
    assert(queue.len() > 0 ==> conn.to_host@ =~= queue.skip(1));
    data
}

} // verus!
