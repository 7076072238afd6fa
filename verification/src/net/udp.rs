//! UDP handling: DNS forwarding to the host resolver, and nothing else.
//!
//! Only UDP on the gateway's port 53 is terminated. Queries are forwarded verbatim to the
//! host's nameserver with the transaction id rewritten so that concurrent guest queries
//! cannot collide; answers are mapped back and relayed with new checksums. Queries that
//! time out are dropped. Packets to any other port are dropped and counted, and no ICMP
//! message is generated for them. Truncated answers are relayed as they are.

use vstd::prelude::*;
use vstd::slice::slice_subrange;

use crate::net::config::{bump, counts_a_drop, contents, one_more, push_packet, NetConfig, NetCounters};
use crate::net::ether::{be16, be16_bytes, push_be16, read_be16};
use crate::net::ipv4::{
    next_identification, transport_checksum, wrap_udp, Ipv4Address, Ipv4Packet, PacketView, PROTOCOL_UDP,
};

verus! {

/// The port of DNS.
pub const DNS_PORT: u16 = 53;

/// How long, in milliseconds, a query may stay unanswered.
pub const DNS_QUERY_TIMEOUT: u64 = 30_000;

/// An address of a host.
#[derive(Clone, Copy, PartialEq, Eq, Structural, Debug)]
pub enum HostAddress {
    V4(Ipv4Address),
    /// The sixteen bytes as one number, high byte first.
    V6(u128),
}

/// An address and a port of a host.
#[derive(Clone, Copy, PartialEq, Eq, Structural, Debug)]
pub struct Endpoint {
    pub address: HostAddress,
    pub port: u16,
}

/// One forwarded guest query that awaits the resolver's answer.
#[derive(Clone, Copy, PartialEq, Eq, Structural, Debug)]
pub struct PendingQuery {
    /// The transaction id towards the resolver.
    pub id: u16,
    pub guest_id: u16,
    pub guest_port: u16,
    /// When it was sent, in milliseconds.
    pub created: u64,
}

/// A query for the resolver.
#[derive(Debug)]
pub struct Forward {
    /// The transaction id towards the resolver.
    pub id: u16,
    pub guest_id: u16,
    pub guest_port: u16,
    pub datagram: Vec<u8>,
}

#[verifier::ext_equal]
pub struct ForwardView {
    pub id: u16,
    pub guest_id: u16,
    pub guest_port: u16,
    pub datagram: Seq<u8>,
}

impl View for Forward {
    type V = ForwardView;

    open spec fn view(&self) -> ForwardView {
        ForwardView {
            id: self.id,
            guest_id: self.guest_id,
            guest_port: self.guest_port,
            datagram: self.datagram@,
        }
    }
}

/// The DNS forwarder: the resolver's address and a table of rewritten ids.
#[derive(Debug)]
pub struct UdpState {
    pub upstream: Option<Endpoint>,
    pub pending: Vec<PendingQuery>,
    pub next_id: u16,
}

#[verifier::ext_equal]
pub struct UdpView {
    pub upstream: Option<Endpoint>,
    pub pending: Seq<PendingQuery>,
    pub next_id: u16,
}

impl View for UdpState {
    type V = UdpView;

    open spec fn view(&self) -> UdpView {
        UdpView { upstream: self.upstream, pending: self.pending@, next_id: self.next_id }
    }
}

/// Where the query of an id stands, from `from` on.
pub open spec fn query_at(pending: Seq<PendingQuery>, id: u16, from: int) -> Option<int>
    decreases pending.len() - from,
{
    if from < 0 || from >= pending.len() {
        None
    } else if pending[from].id == id {
        Some(from)
    } else {
        query_at(pending, id, from + 1)
    }
}

/// What `query_at` finds.
proof fn lemma_query_at(pending: Seq<PendingQuery>, id: u16, from: int)
    requires
        0 <= from,
    ensures
        match query_at(pending, id, from) {
            Some(index) => from <= index < pending.len() && pending[index].id == id,
            None => forall|i: int| from <= i < pending.len() ==> (#[trigger] pending[i]).id != id,
        },
    decreases pending.len() - from,
{
    if from < pending.len() && pending[from].id != id {
        lemma_query_at(pending, id, from + 1);
    }
}

/// The first id from `from` on, in the wrapping order, that no query uses.
pub open spec fn free_id(pending: Seq<PendingQuery>, from: u16, tries: nat) -> Option<u16>
    decreases tries,
{
    if tries == 0 {
        None
    } else if query_at(pending, from, 0) is None {
        Some(from)
    } else {
        free_id(pending, from.wrapping_add(1), (tries - 1) as nat)
    }
}

impl UdpView {
    /// No id is used twice.
    pub open spec fn wf(self) -> bool {
        forall|i: int, j: int|
            0 <= i < j < self.pending.len() ==> (#[trigger] self.pending[i]).id != (#[trigger] self.pending[j]).id
    }

    /// The id of the next query.
    pub open spec fn next_free(self) -> Option<u16> {
        free_id(self.pending, self.next_id, 0x1_0000)
    }
}

/// An id that is handed out is used by no query that waits, and none is handed out only
/// where every id is used.
pub proof fn fresh_ids_are_free(udp: UdpView)
    ensures
        udp.next_free() matches Some(id) ==> forall|i: int|
            0 <= i < udp.pending.len() ==> (#[trigger] udp.pending[i]).id != id,
        udp.next_free() is None ==> forall|id: u16| #[trigger] query_at(udp.pending, id, 0) is Some,
{
    lemma_free_id(udp.pending, udp.next_id, 0x1_0000);
    if udp.next_free() is None {
        assert forall|id: u16| #[trigger] query_at(udp.pending, id, 0) is Some by {
            let step = (id - udp.next_id) % 0x1_0000;
            assert(udp.next_id.wrapping_add(step as u16) == id);
        }
    }
}

proof fn lemma_free_id(pending: Seq<PendingQuery>, from: u16, tries: nat)
    requires
        tries <= 0x1_0000,
    ensures
        free_id(pending, from, tries) matches Some(id) ==> forall|i: int|
            0 <= i < pending.len() ==> (#[trigger] pending[i]).id != id,
        free_id(pending, from, tries) is None ==> forall|step: int|
            0 <= step < tries ==> query_at(pending, #[trigger] from.wrapping_add(step as u16), 0) is Some,
    decreases tries,
{
    if tries > 0 {
        lemma_query_at(pending, from, 0);
        if query_at(pending, from, 0) is Some {
            let next = from.wrapping_add(1);
            lemma_free_id(pending, next, (tries - 1) as nat);
            if free_id(pending, from, tries) is None {
                assert forall|step: int| 0 <= step < tries implies query_at(
                    pending,
                    #[trigger] from.wrapping_add(step as u16),
                    0,
                ) is Some by {
                    if step > 0 {
                        assert(next.wrapping_add((step - 1) as u16) == from.wrapping_add(step as u16));
                    }
                }
            }
        }
    }
}

/// What becomes of a datagram that the guest sent.
pub enum Verdict {
    BadPacket,
    OtherUdp,
    BadChecksum,
    NoResolver,
    Query,
}

/// Whether a datagram carries the right checksum; zero means that none was computed.
pub open spec fn datagram_verifies(packet: PacketView) -> bool {
    let carried = be16(packet.payload[6], packet.payload[7]);
    carried == 0 || carried == crate::net::ipv4::transport_sum(
        packet.src,
        packet.dst,
        PROTOCOL_UDP,
        packet.payload.update(6, 0).update(7, 0),
    )
}

/// What becomes of a datagram: only a whole DNS query to the gateway is served.
pub open spec fn verdict(packet: PacketView, gateway_ip: Ipv4Address, resolver: bool) -> Verdict {
    if packet.payload.len() < 8 {
        Verdict::BadPacket
    } else if packet.dst != gateway_ip || be16(packet.payload[2], packet.payload[3]) != DNS_PORT {
        Verdict::OtherUdp
    } else if !datagram_verifies(packet) {
        Verdict::BadChecksum
    } else if !resolver {
        Verdict::NoResolver
    } else if packet.payload.len() < 20 {
        Verdict::BadPacket
    } else {
        Verdict::Query
    }
}

/// The query that goes to the resolver.
pub open spec fn forward_of(packet: PacketView, id: u16) -> ForwardView {
    ForwardView {
        id,
        guest_id: be16(packet.payload[8], packet.payload[9]),
        guest_port: be16(packet.payload[0], packet.payload[1]),
        datagram: be16_bytes(id) + packet.payload.skip(10),
    }
}

/// The forwarder, the counters and the query to be sent after one datagram of the guest.
pub open spec fn handled(
    udp: UdpView,
    counters: NetCounters,
    packet: PacketView,
    gateway_ip: Ipv4Address,
) -> (UdpView, NetCounters, Option<ForwardView>) {
    match verdict(packet, gateway_ip, udp.upstream is Some) {
        Verdict::BadPacket => (
            udp,
            NetCounters { dropped_bad_packet: one_more(counters.dropped_bad_packet), ..counters },
            None,
        ),
        Verdict::OtherUdp => (
            udp,
            NetCounters { dropped_other_udp: one_more(counters.dropped_other_udp), ..counters },
            None,
        ),
        Verdict::BadChecksum => (
            udp,
            NetCounters { dropped_bad_checksum: one_more(counters.dropped_bad_checksum), ..counters },
            None,
        ),
        Verdict::NoResolver => (udp, NetCounters { dns_drops: one_more(counters.dns_drops), ..counters }, None),
        Verdict::Query => match udp.next_free() {
            None => (udp, NetCounters { dns_drops: one_more(counters.dns_drops), ..counters }, None),
            Some(id) => (
                UdpView { next_id: id.wrapping_add(1), ..udp },
                counters,
                Some(forward_of(packet, id)),
            ),
        },
    }
}

/// A datagram either becomes a query, without a trace in the counters yet, or changes
/// nothing and is counted as dropped.
pub proof fn refused_datagrams_are_counted(
    udp: UdpView,
    counters: NetCounters,
    packet: PacketView,
    gateway_ip: Ipv4Address,
)
    ensures
        ({
            let (after, counted, query) = handled(udp, counters, packet, gateway_ip);
            match query {
                Some(query) => counted == counters && udp.upstream is Some,
                None => after == udp && counts_a_drop(counters, counted),
            }
        }),
{
}

/// Without a resolver a query is dropped and counted as such.
pub proof fn queries_need_a_resolver(udp: UdpView, counters: NetCounters, packet: PacketView, gateway_ip: Ipv4Address)
    requires
        udp.upstream is None,
        verdict(packet, gateway_ip, true) is Query,
    ensures
        handled(udp, counters, packet, gateway_ip) == (
            udp,
            (NetCounters { dns_drops: one_more(counters.dns_drops), ..counters }),
            None::<ForwardView>,
        ),
{
}

/// The reading of a query, if there is one.
pub open spec fn forwarded(query: Option<Forward>) -> Option<ForwardView> {
    match query {
        None => None,
        Some(query) => Some(query@),
    }
}

/// Whether a datagram carries the right checksum.
fn check_datagram(packet: &Ipv4Packet<'_>) -> (held: bool)
    requires
        packet@.payload.len() >= 8,
    ensures
        held == datagram_verifies(packet@),
{
    let payload = packet.payload;
    let mut zeroed: Vec<u8> = Vec::new();
    zeroed.extend_from_slice(payload);
    assert(zeroed@ =~= payload@);
    zeroed.set(6, 0);
    zeroed.set(7, 0);
    let carried = read_be16(payload[6], payload[7]);
    carried == 0 || carried == transport_checksum(packet.src, packet.dst, PROTOCOL_UDP, zeroed.as_slice())
}

impl UdpView {
    /// Without one of the queries.
    pub open spec fn without(self, index: int) -> UdpView {
        UdpView { pending: self.pending.remove(index), ..self }
    }

    /// With a query that has been sent.
    pub open spec fn sent(self, query: PendingQuery) -> UdpView {
        match query_at(self.pending, query.id, 0) {
            Some(index) => UdpView { pending: self.pending.remove(index).push(query), ..self },
            None => UdpView { pending: self.pending.push(query), ..self },
        }
    }
}

proof fn lemma_without(udp: UdpView, index: int)
    requires
        udp.wf(),
        0 <= index < udp.pending.len(),
    ensures
        udp.without(index).wf(),
        forall|i: int| 0 <= i < udp.without(index).pending.len() ==> (#[trigger] udp.without(index).pending[i]).id
            != udp.pending[index].id,
{
    let left = udp.pending.remove(index);
    assert forall|i: int, j: int| 0 <= i < j < left.len() implies (#[trigger] left[i]).id != (#[trigger] left[j]).id by {
        let before_i = if i < index { i } else { i + 1 };
        let before_j = if j < index { j } else { j + 1 };
        assert(left[i] == udp.pending[before_i]);
        assert(left[j] == udp.pending[before_j]);
    }
    assert forall|i: int| 0 <= i < left.len() implies (#[trigger] left[i]).id != udp.pending[index].id by {
        let before_i = if i < index { i } else { i + 1 };
        assert(left[i] == udp.pending[before_i]);
    }
}

/// The packet that carries an answer to the guest.
pub open spec fn answer_packet(config: NetConfig, query: PendingQuery, datagram: Seq<u8>, ip_id: u16) -> Seq<u8> {
    crate::net::ipv4::packet_with(
        PROTOCOL_UDP,
        config.gateway_ip,
        config.guest_ip,
        crate::net::ipv4::udp_of(
            config.gateway_ip,
            config.guest_ip,
            DNS_PORT,
            query.guest_port,
            be16_bytes(query.guest_id) + datagram.skip(2),
        ),
        ip_id,
    )
}

/// The forwarder together with all that a step of it may touch.
pub struct Relay {
    pub udp: UdpView,
    pub ip_id: u16,
    pub counters: NetCounters,
    pub frames: Seq<Seq<u8>>,
}

pub open spec fn relay(udp: UdpState, ip_id: u16, counters: NetCounters, frames: Vec<Vec<u8>>) -> Relay {
    Relay { udp: udp@, ip_id, counters, frames: contents(frames@) }
}

impl Relay {
    /// With one more drop counted.
    pub open spec fn dropped(self) -> Relay {
        Relay { counters: NetCounters { dns_drops: one_more(self.counters.dns_drops), ..self.counters }, ..self }
    }

    /// After one datagram from the host. Only the resolver is listened to; an answer to no
    /// query is dropped and counted, any other goes to the guest with the guest's own id.
    pub open spec fn answered(self, from: Endpoint, datagram: Seq<u8>, config: NetConfig) -> Relay {
        if self.udp.upstream != Some(from) {
            self
        } else if datagram.len() < 2 {
            self.dropped()
        } else {
            match query_at(self.udp.pending, be16(datagram[0], datagram[1]), 0) {
                None => self.dropped(),
                Some(index) => Relay {
                    udp: self.udp.without(index),
                    ip_id: self.ip_id.wrapping_add(1),
                    counters: NetCounters { dns_answers: one_more(self.counters.dns_answers), ..self.counters },
                    frames: self.frames.push(
                        answer_packet(config, self.udp.pending[index], datagram, self.ip_id),
                    ),
                },
            }
        }
    }

    /// After the datagrams from `from` on.
    #[verifier::opaque]
    pub open spec fn answered_all(self, received: Seq<(Endpoint, Vec<u8>)>, from: int, config: NetConfig) -> Relay
        decreases received.len() - from,
    {
        if 0 <= from < received.len() {
            self.answered(received[from].0, received[from].1@, config).answered_all(received, from + 1, config)
        } else {
            self
        }
    }

    /// After a poll: the datagrams that came, then the queries that waited too long.
    pub open spec fn polled(self, received: Seq<(Endpoint, Vec<u8>)>, now: u64, config: NetConfig) -> Relay {
        let answered = self.answered_all(received, 0, config);
        let (udp, counters) = expired(answered.udp, answered.counters, 0, now);
        Relay { udp, counters, ..answered }
    }
}

/// The forwarder and the counters once the queries from `from` on that the resolver never
/// answered have gone, each of them counted.
#[verifier::opaque]
pub open spec fn expired(udp: UdpView, counters: NetCounters, from: int, now: u64) -> (UdpView, NetCounters)
    decreases udp.pending.len() - from,
{
    if 0 <= from < udp.pending.len() {
        if waits(udp.pending[from], now) {
            expired(udp, counters, from + 1, now)
        } else {
            expired(
                udp.without(from),
                NetCounters { dns_drops: one_more(counters.dns_drops), ..counters },
                from,
                now,
            )
        }
    } else {
        (udp, counters)
    }
}

/// What is left after expiry is what may still be answered.
pub proof fn expiry_leaves_what_waits(udp: UdpView, counters: NetCounters, from: int, now: u64)
    requires
        0 <= from <= udp.pending.len(),
        forall|i: int| 0 <= i < from ==> waits(#[trigger] udp.pending[i], now),
    ensures
        forall|i: int|
            0 <= i < expired(udp, counters, from, now).0.pending.len() ==> waits(
                #[trigger] expired(udp, counters, from, now).0.pending[i],
                now,
            ),
        expired(udp, counters, from, now).0.pending =~= udp.pending.filter(|query: PendingQuery| waits(query, now)),
    decreases udp.pending.len() - from,
{
    reveal(expired);
    let keep = |query: PendingQuery| waits(query, now);
    if from < udp.pending.len() {
        if waits(udp.pending[from], now) {
            expiry_leaves_what_waits(udp, counters, from + 1, now);
        } else {
            let next = NetCounters { dns_drops: one_more(counters.dns_drops), ..counters };
            expiry_leaves_what_waits(udp.without(from), next, from, now);
            lemma_filter_remove(udp.pending, from, now);
        }
    } else {
        lemma_filter_all(udp.pending, now);
    }
}

/// A query that is dropped anyway makes no difference to what is kept.
proof fn lemma_filter_remove(pending: Seq<PendingQuery>, index: int, now: u64)
    requires
        0 <= index < pending.len(),
        !waits(pending[index], now),
    ensures
        pending.remove(index).filter(|query: PendingQuery| waits(query, now)) == pending.filter(
            |query: PendingQuery| waits(query, now),
        ),
    decreases pending.len(),
{
    let keep = |query: PendingQuery| waits(query, now);
    reveal(Seq::filter);
    if index == pending.len() - 1 {
        assert(pending.remove(index) =~= pending.drop_last());
    } else {
        lemma_filter_remove(pending.drop_last(), index, now);
        assert(pending.remove(index).drop_last() =~= pending.drop_last().remove(index));
        assert(pending.remove(index).last() == pending.last());
    }
}

/// Queries that all may be answered are all kept.
proof fn lemma_filter_all(pending: Seq<PendingQuery>, now: u64)
    requires
        forall|i: int| 0 <= i < pending.len() ==> waits(#[trigger] pending[i], now),
    ensures
        pending.filter(|query: PendingQuery| waits(query, now)) == pending,
    decreases pending.len(),
{
    reveal(Seq::filter);
    if pending.len() > 0 {
        lemma_filter_all(pending.drop_last(), now);
        assert(pending =~= pending.drop_last().push(pending.last()));
    }
}

/// Whether a query may still be answered.
pub open spec fn waits(query: PendingQuery, now: u64) -> bool {
    now < query.created || now - query.created < DNS_QUERY_TIMEOUT
}

impl UdpState {
    /// A forwarder to the given resolver. Without one every query is dropped and counted.
    pub fn new(upstream: Option<Endpoint>) -> (state: UdpState)
        ensures
            state@ == (UdpView { upstream, pending: Seq::empty(), next_id: 0 }),
            state@.wf(),
    {
        let state = UdpState { upstream, pending: Vec::new(), next_id: 0 };
        assert(state@.pending =~= Seq::empty());
        state
    }

    fn find(&self, id: u16) -> (found: Option<usize>)
        ensures
            found is Some == query_at(self@.pending, id, 0) is Some,
            found matches Some(index) ==> query_at(self@.pending, id, 0) == Some(index as int) && index
                < self.pending@.len(),
    {
        let count = self.pending.len();
        let mut index: usize = 0;
        while index < count
            invariant
                index <= count,
                count == self.pending@.len(),
                query_at(self@.pending, id, 0) == query_at(self@.pending, id, index as int),
            decreases count - index,
        {
            if self.pending[index].id == id {
                return Some(index);
            }
            index = index + 1;
        }
        None
    }

    /// A transaction id that no query uses, if there is one.
    fn allocate_id(&mut self) -> (id: Option<u16>)
        ensures
            id == old(self)@.next_free(),
            final(self)@ == (match old(self)@.next_free() {
                Some(id) => (UdpView { next_id: id.wrapping_add(1), ..old(self)@ }),
                None => old(self)@,
            }),
    {
        let mut candidate: u16 = self.next_id;
        let mut tries: u32 = 0x1_0000;
        while tries > 0
            invariant
                tries <= 0x1_0000,
                self@ == old(self)@,
                free_id(self@.pending, candidate, tries as nat) == old(self)@.next_free(),
            decreases tries,
        {
            if self.find(candidate).is_none() {
                self.next_id = candidate.wrapping_add(1);
                return Some(candidate);
            }
            candidate = candidate.wrapping_add(1);
            tries = tries - 1;
        }
        None
    }

    /// Handles one UDP datagram that the guest sent. Only DNS queries to the gateway are
    /// served: the result is what is to be sent to the resolver, and `finish_send` tells
    /// whether that worked. Everything else is dropped and counted.
    pub fn handle(
        &mut self,
        packet: Ipv4Packet<'_>,
        config: &NetConfig,
        counters: &mut NetCounters,
    ) -> (query: Option<Forward>)
        requires
            old(self)@.wf(),
        ensures
            (final(self)@, *final(counters), forwarded(query)) == handled(
                old(self)@,
                *old(counters),
                packet@,
                config.gateway_ip,
            ),
            final(self)@.wf(),
    {
        let payload = packet.payload;
        let length = payload.len();
        if length < 8 {
            counters.dropped_bad_packet = bump(counters.dropped_bad_packet);
            return None;
        }
        if packet.dst != config.gateway_ip || read_be16(payload[2], payload[3]) != DNS_PORT {
            counters.dropped_other_udp = bump(counters.dropped_other_udp);
            return None;
        }
        if !check_datagram(&packet) {
            counters.dropped_bad_checksum = bump(counters.dropped_bad_checksum);
            return None;
        }
        if self.upstream.is_none() {
            counters.dns_drops = bump(counters.dns_drops);
            return None;
        }
        if length < 20 {
            counters.dropped_bad_packet = bump(counters.dropped_bad_packet);
            return None;
        }
        match self.allocate_id() {
            None => {
                counters.dns_drops = bump(counters.dns_drops);
                None
            },
            Some(id) => {
                let mut datagram: Vec<u8> = Vec::new();
                push_be16(&mut datagram, id);
                datagram.extend_from_slice(slice_subrange(payload, 10, length));
                assert(datagram@ =~= be16_bytes(id) + payload@.skip(10));
                Some(
                    Forward {
                        id,
                        guest_id: read_be16(payload[8], payload[9]),
                        guest_port: read_be16(payload[0], payload[1]),
                        datagram,
                    },
                )
            },
        }
    }

    /// Notes whether a query has been sent to the resolver.
    pub fn finish_send(&mut self, query: &Forward, sent: bool, now: u64, counters: &mut NetCounters)
        requires
            old(self)@.wf(),
        ensures
            final(self)@ == (if sent {
                old(self)@.sent(
                    (PendingQuery {
                        id: query@.id,
                        guest_id: query@.guest_id,
                        guest_port: query@.guest_port,
                        created: now,
                    }),
                )
            } else {
                old(self)@
            }),
            *final(counters) == (if sent {
                (NetCounters { dns_queries: one_more(old(counters).dns_queries), ..*old(counters) })
            } else {
                (NetCounters { dns_drops: one_more(old(counters).dns_drops), ..*old(counters) })
            }),
            final(self)@.wf(),
    {
        if !sent {
            counters.dns_drops = bump(counters.dns_drops);
            return;
        }
        proof {
            lemma_query_at(self@.pending, query.id, 0);
        }
        if let Some(index) = self.find(query.id) {
            proof {
                lemma_without(self@, index as int);
            }
            let _ = self.pending.remove(index);
        }
        self.pending.push(
            PendingQuery { id: query.id, guest_id: query.guest_id, guest_port: query.guest_port, created: now },
        );
        counters.dns_queries = bump(counters.dns_queries);
    }

    /// Takes one datagram from the host.
    fn answer(
        &mut self,
        from: Endpoint,
        datagram: &Vec<u8>,
        config: &NetConfig,
        ip_id: &mut u16,
        counters: &mut NetCounters,
        frames: &mut Vec<Vec<u8>>,
    )
        requires
            old(self)@.wf(),
            datagram@.len() <= 0xFFFF,
        ensures
            relay(*final(self), *final(ip_id), *final(counters), *final(frames)) == relay(
                *old(self),
                *old(ip_id),
                *old(counters),
                *old(frames),
            ).answered(from, datagram@, *config),
            final(self)@.wf(),
    {
        match self.upstream {
            Some(upstream) => {
                if upstream != from {
                    return;
                }
            },
            None => {
                return;
            },
        }
        let length = datagram.len();
        if length < 2 {
            counters.dns_drops = bump(counters.dns_drops);
            return;
        }
        match self.find(read_be16(datagram[0], datagram[1])) {
            None => {
                counters.dns_drops = bump(counters.dns_drops);
            },
            Some(index) => {
                proof {
                    lemma_without(self@, index as int);
                }
                let query = self.pending.remove(index);
                let mut answer: Vec<u8> = Vec::new();
                push_be16(&mut answer, query.guest_id);
                answer.extend_from_slice(slice_subrange(datagram.as_slice(), 2, length));
                assert(answer@ =~= be16_bytes(query.guest_id) + datagram@.skip(2));
                let id = next_identification(ip_id);
                push_packet(
                    frames,
                    wrap_udp(config.gateway_ip, config.guest_ip, DNS_PORT, query.guest_port, answer.as_slice(), id),
                );
                counters.dns_answers = bump(counters.dns_answers);
            },
        }
    }

    /// Drops the queries that the resolver never answered.
    fn expire(&mut self, now: u64, counters: &mut NetCounters)
        requires
            old(self)@.wf(),
        ensures
            (final(self)@, *final(counters)) == expired(old(self)@, *old(counters), 0, now),
            final(self)@.wf(),
    {
        let mut index: usize = 0;
        while index < self.pending.len()
            invariant
                self@.wf(),
                index <= self.pending@.len(),
                expired(self@, *counters, index as int, now) == expired(old(self)@, *old(counters), 0, now),
            decreases self.pending@.len() - index,
        {
            reveal(expired);
            let query = self.pending[index];
            if now < query.created || now - query.created < DNS_QUERY_TIMEOUT {
                index = index + 1;
            } else {
                proof {
                    lemma_without(self@, index as int);
                }
                let _ = self.pending.remove(index);
                counters.dns_drops = bump(counters.dns_drops);
            }
        }
        reveal(expired);
    }

    /// Takes the datagrams that came from the host, relays the resolver's answers to the
    /// guest, and drops the queries that the resolver never answered.
    pub fn poll(
        &mut self,
        now: u64,
        received: &Vec<(Endpoint, Vec<u8>)>,
        config: &NetConfig,
        ip_id: &mut u16,
        counters: &mut NetCounters,
        frames: &mut Vec<Vec<u8>>,
    )
        requires
            old(self)@.wf(),
            forall|i: int| 0 <= i < received@.len() ==> (#[trigger] received@[i]).1@.len() <= 0xFFFF,
        ensures
            relay(*final(self), *final(ip_id), *final(counters), *final(frames)) == relay(
                *old(self),
                *old(ip_id),
                *old(counters),
                *old(frames),
            ).polled(received@, now, *config),
            final(self)@.wf(),
    {
        let ghost start = relay(*self, *ip_id, *counters, *frames);
        let count = received.len();
        let mut index: usize = 0;
        while index < count
            invariant
                self@.wf(),
                index <= count,
                count == received@.len(),
                forall|i: int| 0 <= i < received@.len() ==> (#[trigger] received@[i]).1@.len() <= 0xFFFF,
                relay(*self, *ip_id, *counters, *frames).answered_all(received@, index as int, *config)
                    == start.answered_all(received@, 0, *config),
            decreases count - index,
        {
            reveal(Relay::answered_all);
            let (from, datagram) = &received[index];
            self.answer(*from, datagram, config, ip_id, counters, frames);
            index = index + 1;
        }
        reveal(Relay::answered_all);
        self.expire(now, counters);
    }

    /// Forgets every query; ids go on.
    pub fn reset(&mut self)
        ensures
            final(self)@ == (UdpView { pending: Seq::empty(), ..old(self)@ }),
            final(self)@.wf(),
    {
        self.pending.clear();
        assert(self@.pending =~= Seq::empty());
    }
}

/// An answer to a query reaches the port that asked, under the id that it asked with, and
/// the query is gone.
pub proof fn answers_return_to_their_query(here: Relay, query: PendingQuery, from: Endpoint, datagram: Seq<u8>, config: NetConfig)
    requires
        here.udp.wf(),
        here.udp.upstream == Some(from),
        query_at(here.udp.pending, query.id, 0) is None,
        datagram.len() >= 2,
        be16(datagram[0], datagram[1]) == query.id,
    ensures
        ({
            let asked = Relay { udp: here.udp.sent(query), ..here };
            let after = asked.answered(from, datagram, config);
            &&& after.udp == here.udp
            &&& after.frames == here.frames.push(answer_packet(config, query, datagram, here.ip_id))
        }),
{
    let pending = here.udp.pending.push(query);
    lemma_query_at(here.udp.pending, query.id, 0);
    lemma_query_at(pending, query.id, 0);
    assert(pending[pending.len() - 1].id == query.id);
    let index = query_at(pending, query.id, 0)->0;
    if index < here.udp.pending.len() {
        assert(pending[index] == here.udp.pending[index]);
    }
    assert(pending.remove(index) =~= here.udp.pending);
}

} // verus!
