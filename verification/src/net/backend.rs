//! The backend itself: the guest's Ethernet frames in, frames for the guest out.

use std::collections::VecDeque;

use vstd::prelude::*;

use crate::net::config::{
    bump, contents, counts_a_drop, lemma_contents, lemma_contents_push, one_more, NetConfig, NetCounters,
};
use crate::net::ether::{build_arp_reply, for_us, frame, parse_arp_request, ETHERTYPE_ARP, ETHERTYPE_IPV4};
use crate::net::ipv4::{
    header_checksum_ok, icmp_echo_reply, Ipv4Address, Ipv4Packet, PacketView, PROTOCOL_ICMP, PROTOCOL_TCP,
    PROTOCOL_UDP,
};
use crate::net::tcp::{seed_of, Board, Salts, TcpState, TcpView};
use crate::net::tcp_conn::ConnKey;
use crate::net::udp::{Endpoint, Forward, ForwardView, Relay, UdpState, UdpView};

verus! {

/// How many frames may wait for the guest.
pub const OUTPUT_CAP: usize = 1024;

/// What the virtio-net device speaks to. The device owns the virtqueues and the register
/// file; the backend owns everything above Ethernet.
pub trait NetBackend: Send {
    /// Whether the backend's own state is in order.
    spec fn ready(&self) -> bool;

    /// The fixed MAC that the device reports in its config space.
    fn mac(&self) -> [u8; 6];

    /// Handles one Ethernet frame that the guest transmitted. Frames that answer it are
    /// queued, not returned here.
    fn enqueue(&mut self, frame: &[u8])
        requires
            old(self).ready(),
        ensures
            final(self).ready(),
    ;

    /// Advances host-side state: readiness, timers, and pending replies. Frames for the
    /// guest are appended to `output`.
    fn poll(&mut self, now: u64, output: &mut Vec<Vec<u8>>)
        requires
            old(self).ready(),
        ensures
            final(self).ready(),
    ;

    /// Protocol counters, for diagnostics.
    fn counters(&self) -> NetCounters;

    /// Tears down every connection, pending DNS query, and queued frame. Called when the
    /// device resets. The default changes nothing, which keeps minimal backends simple.
    fn reset(&mut self)
        requires
            old(self).ready(),
        ensures
            final(self).ready(),
    {
    }
}

/// The backend that serves the guest from the host's own sockets.
#[derive(Debug)]
pub struct SlirpNetBackend {
    pub config: NetConfig,
    pub counters: NetCounters,
    /// Frames ready for the guest.
    pub output: VecDeque<Vec<u8>>,
    /// Identification of the next IPv4 packet.
    pub ip_id: u16,
    pub udp: UdpState,
    pub tcp: TcpState,
    /// Connections that the host is to dial.
    pub dials: Vec<ConnKey>,
    /// Queries that the host is to send to the resolver.
    pub queries: Vec<Forward>,
    /// Datagrams that the host has received.
    pub inbox: Vec<(Endpoint, Vec<u8>)>,
}

pub struct BackendView {
    pub config: NetConfig,
    pub counters: NetCounters,
    pub output: Seq<Seq<u8>>,
    pub ip_id: u16,
    pub udp: UdpView,
    pub tcp: TcpView,
    pub dials: Seq<ConnKey>,
    pub queries: Seq<ForwardView>,
    pub inbox: Seq<(Endpoint, Vec<u8>)>,
}

/// The readings of queries.
#[verifier::opaque]
pub open spec fn query_views(queries: Seq<Forward>) -> Seq<ForwardView> {
    queries.map_values(|query: Forward| query@)
}

proof fn lemma_query_views(queries: Seq<Forward>)
    ensures
        query_views(queries).len() == queries.len(),
        forall|query: Forward| #[trigger] query_views(queries.push(query)) == query_views(queries).push(query@),
{
    reveal(query_views);
    assert forall|query: Forward| #[trigger] query_views(queries.push(query)) == query_views(queries).push(query@) by {
        assert(query_views(queries.push(query)) =~= query_views(queries).push(query@));
    }
}

impl View for SlirpNetBackend {
    type V = BackendView;

    open spec fn view(&self) -> BackendView {
        BackendView {
            config: self.config,
            counters: self.counters,
            output: contents(self.output@),
            ip_id: self.ip_id,
            udp: self.udp@,
            tcp: self.tcp@,
            dials: self.dials@,
            queries: query_views(self.queries@),
            inbox: self.inbox@,
        }
    }
}

impl BackendView {
    /// Whether the parts are in order, and no more frames wait than allowed.
    pub open spec fn wf(self) -> bool {
        &&& self.output.len() <= OUTPUT_CAP
        &&& self.udp.wf()
        &&& self.tcp.wf()
        &&& forall|i: int| 0 <= i < self.inbox.len() ==> (#[trigger] self.inbox[i]).1@.len() <= 0xFFFF
    }

    /// With other counters.
    pub open spec fn counting(self, counters: NetCounters) -> BackendView {
        BackendView { counters, ..self }
    }

    /// With one more frame for the guest. At the cap the oldest is dropped and counted, so
    /// that a stuck guest cannot grow the queue.
    pub open spec fn framed(self, frame: Seq<u8>) -> BackendView {
        if self.output.len() >= OUTPUT_CAP {
            BackendView {
                output: self.output.skip(1).push(frame),
                counters: NetCounters {
                    dropped_bad_packet: one_more(self.counters.dropped_bad_packet),
                    ..self.counters
                },
                ..self
            }
        } else {
            BackendView { output: self.output.push(frame), ..self }
        }
    }

    /// With one more packet for the guest, in a frame from the gateway.
    pub open spec fn emitted(self, packet: Seq<u8>) -> BackendView {
        self.framed(
            crate::net::ether::framed(self.config.mac@, self.config.gateway_mac@, ETHERTYPE_IPV4, packet),
        )
    }

    /// With the packets from `from` on.
    #[verifier::opaque]
    pub open spec fn emitted_all(self, packets: Seq<Seq<u8>>, from: int) -> BackendView
        decreases packets.len() - from,
    {
        if 0 <= from < packets.len() {
            self.emitted(packets[from]).emitted_all(packets, from + 1)
        } else {
            self
        }
    }

    /// After an ARP packet: a request for the gateway is answered, one for another address
    /// is not ours to answer, and anything else is dropped and counted.
    pub open spec fn after_arp(self, payload: Seq<u8>) -> BackendView {
        if !crate::net::ether::is_arp_request(payload) {
            self.counting(
                NetCounters { dropped_bad_packet: one_more(self.counters.dropped_bad_packet), ..self.counters },
            )
        } else if crate::net::ether::address_at(payload, 24) != self.config.gateway_ip {
            self
        } else {
            let reply = crate::net::ether::framed(
                payload.subrange(8, 14),
                self.config.gateway_mac@,
                ETHERTYPE_ARP,
                crate::net::ether::arp_packet(
                    2,
                    self.config.gateway_mac@,
                    self.config.gateway_ip,
                    payload.subrange(8, 14),
                    crate::net::ether::address_at(payload, 14),
                ),
            );
            let sent = self.framed(reply);
            sent.counting(NetCounters { arp_replies: one_more(sent.counters.arp_replies), ..sent.counters })
        }
    }

    /// After an ICMP packet: only echo requests to the gateway are answered.
    pub open spec fn after_icmp(self, packet: PacketView) -> BackendView {
        if packet.dst != self.config.gateway_ip || !crate::net::ipv4::is_echo_request(packet.payload) {
            self.counting(
                NetCounters { dropped_other_icmp: one_more(self.counters.dropped_other_icmp), ..self.counters },
            )
        } else {
            let reply = crate::net::ipv4::packet_with(
                PROTOCOL_ICMP,
                packet.dst,
                packet.src,
                crate::net::ipv4::echo_of(packet.payload),
                self.ip_id,
            );
            let sent = BackendView { ip_id: self.ip_id.wrapping_add(1), ..self }.emitted(reply);
            sent.counting(
                NetCounters { icmp_echo_replies: one_more(sent.counters.icmp_echo_replies), ..sent.counters },
            )
        }
    }

    /// After a UDP packet.
    pub open spec fn after_udp(self, packet: PacketView) -> BackendView {
        let (udp, counters, query) = crate::net::udp::handled(
            self.udp,
            self.counters,
            packet,
            self.config.gateway_ip,
        );
        BackendView {
            udp,
            counters,
            queries: match query {
                Some(query) => self.queries.push(query),
                None => self.queries,
            },
            ..self
        }
    }

    /// After a TCP packet.
    pub open spec fn after_tcp(self, packet: PacketView) -> BackendView {
        let (after, dial) = Board {
            tcp: self.tcp,
            ip_id: self.ip_id,
            counters: self.counters,
            frames: Seq::empty(),
        }.handled(packet, self.config.guest_ip);
        BackendView {
            tcp: after.tcp,
            ip_id: after.ip_id,
            counters: after.counters,
            dials: match dial {
                Some(key) => self.dials.push(key),
                None => self.dials,
            },
            ..self
        }.emitted_all(after.frames, 0)
    }

    /// After an IPv4 packet: one that is malformed, a fragment, or has a bad header
    /// checksum is dropped and counted.
    pub open spec fn after_ipv4(self, payload: Seq<u8>) -> BackendView {
        let packet = crate::net::ipv4::packet_of(payload);
        if !crate::net::ipv4::is_packet(payload) {
            self.counting(
                NetCounters { dropped_bad_packet: one_more(self.counters.dropped_bad_packet), ..self.counters },
            )
        } else if packet.more_fragments || packet.fragment_offset != 0 {
            self.counting(
                NetCounters { dropped_fragmented: one_more(self.counters.dropped_fragmented), ..self.counters },
            )
        } else if crate::net::ipv4::checksum_of(packet.header) != 0 {
            self.counting(
                NetCounters { dropped_bad_checksum: one_more(self.counters.dropped_bad_checksum), ..self.counters },
            )
        } else if packet.protocol == PROTOCOL_ICMP {
            self.after_icmp(packet)
        } else if packet.protocol == PROTOCOL_UDP {
            self.after_udp(packet)
        } else if packet.protocol == PROTOCOL_TCP {
            self.after_tcp(packet)
        } else {
            self.counting(
                NetCounters { dropped_not_ipv4: one_more(self.counters.dropped_not_ipv4), ..self.counters },
            )
        }
    }

    /// After a frame of the guest.
    pub open spec fn after_frame(self, frame: Seq<u8>) -> BackendView {
        match crate::net::ether::parsed(frame) {
            None => self.counting(
                NetCounters { dropped_bad_packet: one_more(self.counters.dropped_bad_packet), ..self.counters },
            ),
            Some((destination, ethertype, payload)) => {
                if !(destination == self.config.mac@ || destination == self.config.gateway_mac@
                    || crate::net::ether::is_broadcast(destination)) {
                    self.counting(
                        NetCounters {
                            dropped_not_for_us: one_more(self.counters.dropped_not_for_us),
                            ..self.counters
                        },
                    )
                } else if ethertype == ETHERTYPE_ARP {
                    self.after_arp(payload)
                } else if ethertype == ETHERTYPE_IPV4 {
                    self.after_ipv4(payload)
                } else {
                    self.counting(
                        NetCounters {
                            dropped_unknown_ethertype: one_more(self.counters.dropped_unknown_ethertype),
                            ..self.counters
                        },
                    )
                }
            },
        }
    }

    /// After a poll, before the frames are handed to the guest.
    pub open spec fn advanced(self, now: u64) -> BackendView {
        let relayed = Relay {
            udp: self.udp,
            ip_id: self.ip_id,
            counters: self.counters,
            frames: Seq::empty(),
        }.polled(self.inbox, now, self.config);
        let polled = Board {
            tcp: self.tcp,
            ip_id: relayed.ip_id,
            counters: relayed.counters,
            frames: relayed.frames,
        }.polled(now, self.config.guest_ip);
        BackendView {
            udp: relayed.udp,
            tcp: polled.tcp,
            ip_id: polled.ip_id,
            counters: polled.counters,
            inbox: Seq::empty(),
            ..self
        }.emitted_all(polled.frames, 0)
    }

    /// Without any state of the session that has ended.
    pub open spec fn cleared(self) -> BackendView {
        BackendView {
            output: Seq::empty(),
            udp: UdpView { pending: Seq::empty(), ..self.udp },
            tcp: TcpView { connections: Seq::empty(), ..self.tcp },
            dials: Seq::empty(),
            queries: Seq::empty(),
            inbox: Seq::empty(),
            ..self
        }
    }
}

/// A packet in a frame to the gateway is handled as that packet.
proof fn lemma_framed_packet(backend: BackendView, packet: Seq<u8>)
    ensures
        backend.after_frame(
            crate::net::ether::framed(backend.config.gateway_mac@, backend.config.mac@, ETHERTYPE_IPV4, packet),
        ) == backend.after_ipv4(packet),
{
    crate::net::ether::parse_undoes_frame(
        backend.config.gateway_mac@,
        backend.config.mac@,
        ETHERTYPE_IPV4,
        packet,
    );
}

/// An intact ICMP packet is handled as such.
proof fn lemma_icmp_packet(backend: BackendView, data: Seq<u8>)
    requires
        crate::net::ipv4::is_packet(data),
        crate::net::ipv4::packet_of(data).protocol == PROTOCOL_ICMP,
        !crate::net::ipv4::packet_of(data).more_fragments,
        crate::net::ipv4::packet_of(data).fragment_offset == 0,
        crate::net::ipv4::checksum_of(crate::net::ipv4::packet_of(data).header) == 0,
    ensures
        backend.after_ipv4(data) == backend.after_icmp(crate::net::ipv4::packet_of(data)),
{
}

/// A ping to the gateway in an intact packet comes back as an echo reply from the gateway,
/// whoever in the guest asks.
pub proof fn pings_are_answered(backend: BackendView, from: Ipv4Address, message: Seq<u8>, id: u16)
    requires
        crate::net::ipv4::is_echo_request(message),
        message.len() <= 0xFFFF - 20,
    ensures
        backend.after_frame(
            crate::net::ether::framed(
                backend.config.gateway_mac@,
                backend.config.mac@,
                ETHERTYPE_IPV4,
                crate::net::ipv4::packet_with(PROTOCOL_ICMP, from, backend.config.gateway_ip, message, id),
            ),
        ).output == backend.emitted(
            crate::net::ipv4::packet_with(
                PROTOCOL_ICMP,
                backend.config.gateway_ip,
                from,
                crate::net::ipv4::echo_of(message),
                backend.ip_id,
            ),
        ).output,
{
    let data = crate::net::ipv4::packet_with(PROTOCOL_ICMP, from, backend.config.gateway_ip, message, id);
    crate::net::ipv4::parse_undoes_build(PROTOCOL_ICMP, from, backend.config.gateway_ip, message, id);
    lemma_framed_packet(backend, data);
    lemma_icmp_packet(backend, data);
}

/// A broadcast request for the gateway's hardware address is answered with it.
pub proof fn the_gateway_is_found(backend: BackendView, mac: Seq<u8>, from: Ipv4Address, unknown: Seq<u8>)
    requires
        mac.len() == 6,
        unknown.len() == 6,
    ensures
        ({
            let request = crate::net::ether::arp_packet(1, mac, from, unknown, backend.config.gateway_ip);
            let reply = crate::net::ether::arp_packet(
                2,
                backend.config.gateway_mac@,
                backend.config.gateway_ip,
                mac,
                from,
            );
            backend.after_frame(
                crate::net::ether::framed(
                    seq![0xFFu8, 0xFF, 0xFF, 0xFF, 0xFF, 0xFF],
                    mac,
                    ETHERTYPE_ARP,
                    request,
                ),
            ).output == backend.framed(
                crate::net::ether::framed(mac, backend.config.gateway_mac@, ETHERTYPE_ARP, reply),
            ).output
        }),
{
    let request = crate::net::ether::arp_packet(1, mac, from, unknown, backend.config.gateway_ip);
    crate::net::ether::arp_request_round_trip(mac, from, unknown, backend.config.gateway_ip);
    crate::net::ether::parse_undoes_frame(
        seq![0xFFu8, 0xFF, 0xFF, 0xFF, 0xFF, 0xFF],
        mac,
        ETHERTYPE_ARP,
        request,
    );
}

/// Whether the backend serves an IPv4 packet: a whole one with a valid header checksum, of
/// UDP, of TCP, or an echo request to the gateway.
pub open spec fn serves_packet(config: NetConfig, data: Seq<u8>) -> bool {
    let packet = crate::net::ipv4::packet_of(data);
    &&& crate::net::ipv4::is_packet(data)
    &&& !packet.more_fragments
    &&& packet.fragment_offset == 0
    &&& crate::net::ipv4::checksum_of(packet.header) == 0
    &&& {
        ||| packet.protocol == PROTOCOL_UDP
        ||| packet.protocol == PROTOCOL_TCP
        ||| packet.protocol == PROTOCOL_ICMP && packet.dst == config.gateway_ip && crate::net::ipv4::is_echo_request(
            packet.payload,
        )
    }
}

/// Whether the backend serves a frame: one for it that holds an ARP request or a packet
/// that it serves.
pub open spec fn serves(config: NetConfig, frame: Seq<u8>) -> bool {
    match crate::net::ether::parsed(frame) {
        None => false,
        Some((destination, ethertype, payload)) => {
            &&& destination == config.mac@ || destination == config.gateway_mac@
                || crate::net::ether::is_broadcast(destination)
            &&& {
                ||| ethertype == ETHERTYPE_ARP && crate::net::ether::is_arp_request(payload)
                ||| ethertype == ETHERTYPE_IPV4 && serves_packet(config, payload)
            }
        },
    }
}

/// Everything that is not served is dropped and counted, and changes nothing else.
pub proof fn everything_else_fails_closed(backend: BackendView, frame: Seq<u8>)
    requires
        !serves(backend.config, frame),
    ensures
        backend.after_frame(frame) == backend.counting(backend.after_frame(frame).counters),
        counts_a_drop(backend.counters, backend.after_frame(frame).counters),
{
}

/// A TCP packet that is no whole segment with a valid checksum is dropped and counted, and
/// changes nothing else.
pub proof fn broken_segments_are_dropped(backend: BackendView, packet: PacketView)
    requires
        !crate::net::tcp_segment::is_segment(packet.payload) || !crate::net::tcp_segment::verifies(
            packet.src,
            packet.dst,
            packet.payload,
        ),
    ensures
        backend.after_tcp(packet) == backend.counting(backend.after_tcp(packet).counters),
        counts_a_drop(backend.counters, backend.after_tcp(packet).counters),
{
    reveal(BackendView::emitted_all);
}

impl SlirpNetBackend {
    /// A backend that forwards DNS queries to the given resolver, if there is one; without
    /// one every query is dropped and counted, and TCP still works by address. Where its
    /// connections start comes from the clock's nanoseconds, if it can be read, and from
    /// the next salt.
    pub fn new(config: NetConfig, upstream: Option<Endpoint>, clock: Option<u32>, salts: &mut Salts) -> (backend:
        SlirpNetBackend)
        ensures
            backend@ == (BackendView {
                config,
                counters: crate::net::config::no_counts(),
                output: Seq::empty(),
                ip_id: 0,
                udp: (UdpView { upstream, pending: Seq::empty(), next_id: 0 }),
                tcp: (TcpView { connections: Seq::empty(), next_isn: seed_of(clock, old(salts).next) }),
                dials: Seq::empty(),
                queries: Seq::empty(),
                inbox: Seq::empty(),
            }),
            backend@.wf(),
            final(salts).next == old(salts).next.wrapping_add(1),
    {
        let backend = SlirpNetBackend {
            config,
            counters: NetCounters::default(),
            output: VecDeque::new(),
            ip_id: 0,
            udp: UdpState::new(upstream),
            tcp: TcpState::new(clock, salts),
            dials: Vec::new(),
            queries: Vec::new(),
            inbox: Vec::new(),
        };
        proof {
            lemma_contents(backend.output@);
            lemma_query_views(backend.queries@);
            assert(backend@.output =~= Seq::empty());
            assert(backend@.queries =~= Seq::empty());
            assert(backend@.dials =~= Seq::empty());
            assert(backend@.inbox =~= Seq::empty());
        }
        backend
    }

    /// Queues one frame for the guest.
    fn emit_frame(&mut self, frame: Vec<u8>)
        requires
            old(self)@.wf(),
        ensures
            final(self)@ == old(self)@.framed(frame@),
            final(self)@.wf(),
    {
        let ghost queue = self.output@;
        proof {
            lemma_contents(queue);
        }
        if self.output.len() >= OUTPUT_CAP {
            let _ = self.output.pop_front();
            assert(self.output@ =~= queue.skip(1));
            self.counters.dropped_bad_packet = bump(self.counters.dropped_bad_packet);
        }
        proof {
            lemma_contents_push(self.output@, frame);
        }
        self.output.push_back(frame);
    }

    /// Queues one packet for the guest, in a frame from the gateway.
    fn emit(&mut self, packet: &Vec<u8>)
        requires
            old(self)@.wf(),
        ensures
            final(self)@ == old(self)@.emitted(packet@),
            final(self)@.wf(),
    {
        let framed = frame(self.config.mac, self.config.gateway_mac, ETHERTYPE_IPV4, packet.as_slice());
        self.emit_frame(framed);
    }

    /// Queues packets for the guest.
    fn emit_all(&mut self, packets: &Vec<Vec<u8>>)
        requires
            old(self)@.wf(),
        ensures
            final(self)@ == old(self)@.emitted_all(contents(packets@), 0),
            final(self)@.wf(),
    {
        let ghost start = self@;
        let count = packets.len();
        let mut index: usize = 0;
        proof {
            lemma_contents(packets@);
        }
        while index < count
            invariant
                self@.wf(),
                index <= count,
                count == packets@.len(),
                count == contents(packets@).len(),
                self@.emitted_all(contents(packets@), index as int) == start.emitted_all(contents(packets@), 0),
            decreases count - index,
        {
            reveal(BackendView::emitted_all);
            reveal(contents);
            self.emit(&packets[index]);
            index = index + 1;
        }
        reveal(BackendView::emitted_all);
    }

    fn handle_arp(&mut self, payload: &[u8])
        requires
            old(self)@.wf(),
        ensures
            final(self)@ == old(self)@.after_arp(payload@),
            final(self)@.wf(),
    {
        let (sender_mac, sender_ip, target_ip) = match parse_arp_request(payload) {
            Some(request) => request,
            None => {
                self.counters.dropped_bad_packet = bump(self.counters.dropped_bad_packet);
                return;
            },
        };
        if target_ip != self.config.gateway_ip {
            return;
        }
        if let Some(reply) = build_arp_reply(
            self.config.gateway_mac,
            self.config.gateway_ip,
            sender_mac,
            sender_ip,
        ) {
            self.emit_frame(reply);
            self.counters.arp_replies = bump(self.counters.arp_replies);
        }
    }

    fn handle_icmp(&mut self, packet: Ipv4Packet<'_>)
        requires
            old(self)@.wf(),
            packet@.payload.len() <= 0xFFFF,
        ensures
            final(self)@ == old(self)@.after_icmp(packet@),
            final(self)@.wf(),
    {
        if packet.dst != self.config.gateway_ip {
            self.counters.dropped_other_icmp = bump(self.counters.dropped_other_icmp);
            return;
        }
        match icmp_echo_reply(packet, &mut self.ip_id) {
            Some(reply) => {
                self.emit(&reply);
                self.counters.icmp_echo_replies = bump(self.counters.icmp_echo_replies);
            },
            None => {
                self.counters.dropped_other_icmp = bump(self.counters.dropped_other_icmp);
            },
        }
    }

    fn handle_udp(&mut self, packet: Ipv4Packet<'_>)
        requires
            old(self)@.wf(),
        ensures
            final(self)@ == old(self)@.after_udp(packet@),
            final(self)@.wf(),
    {
        match self.udp.handle(packet, &self.config, &mut self.counters) {
            Some(query) => {
                proof {
                    lemma_query_views(self.queries@);
                }
                self.queries.push(query);
            },
            None => {},
        }
    }

    fn handle_tcp(&mut self, packet: Ipv4Packet<'_>)
        requires
            old(self)@.wf(),
        ensures
            final(self)@ == old(self)@.after_tcp(packet@),
            final(self)@.wf(),
    {
        let mut frames: Vec<Vec<u8>> = Vec::new();
        proof {
            lemma_contents(frames@);
            assert(contents(frames@) =~= Seq::empty());
        }
        match self.tcp.handle(packet, &self.config, &mut self.ip_id, &mut self.counters, &mut frames) {
            Some(key) => {
                self.dials.push(key);
            },
            None => {},
        }
        self.emit_all(&frames);
    }

    fn handle_ipv4(&mut self, payload: &[u8])
        requires
            old(self)@.wf(),
        ensures
            final(self)@ == old(self)@.after_ipv4(payload@),
            final(self)@.wf(),
    {
        let packet = match crate::net::ipv4::parse(payload) {
            Some(packet) => packet,
            None => {
                self.counters.dropped_bad_packet = bump(self.counters.dropped_bad_packet);
                return;
            },
        };
        if packet.more_fragments || packet.fragment_offset != 0 {
            self.counters.dropped_fragmented = bump(self.counters.dropped_fragmented);
            return;
        }
        if !header_checksum_ok(packet.header) {
            self.counters.dropped_bad_checksum = bump(self.counters.dropped_bad_checksum);
            return;
        }
        if packet.protocol == PROTOCOL_ICMP {
            self.handle_icmp(packet);
        } else if packet.protocol == PROTOCOL_UDP {
            self.handle_udp(packet);
        } else if packet.protocol == PROTOCOL_TCP {
            self.handle_tcp(packet);
        } else {
            self.counters.dropped_not_ipv4 = bump(self.counters.dropped_not_ipv4);
        }
    }

    /// Hands every waiting frame to the guest.
    fn drain_output(&mut self, output: &mut Vec<Vec<u8>>)
        requires
            old(self)@.wf(),
        ensures
            contents(final(output)@) == contents(old(output)@) + old(self)@.output,
            final(self)@ == (BackendView { output: Seq::empty(), ..old(self)@ }),
            final(self)@.wf(),
    {
        while self.output.len() > 0
            invariant
                old(self)@.wf(),
                self@.output.len() <= OUTPUT_CAP,
                self@ == (BackendView { output: self@.output, ..old(self)@ }),
                contents(output@) + self@.output == contents(old(output)@) + old(self)@.output,
            decreases self.output@.len(),
        {
            let ghost queue = self.output@;
            proof {
                lemma_contents(queue);
            }
            match self.output.pop_front() {
                Some(frame) => {
                    assert(self.output@ =~= queue.skip(1));
                    assert(self@.output == contents(queue).skip(1));
                    proof {
                        lemma_contents_push(output@, frame);
                        assert(contents(output@).push(frame@) + contents(queue).skip(1) =~= contents(output@)
                            + contents(queue));
                    }
                    output.push(frame);
                },
                None => {},
            }
        }
        proof {
            lemma_contents(self.output@);
            assert(self@.output =~= Seq::empty());
            assert(contents(output@) + self@.output =~= contents(output@));
        }
    }
}

impl NetBackend for SlirpNetBackend {
    open spec fn ready(&self) -> bool {
        self@.wf()
    }

    fn mac(&self) -> (mac: [u8; 6])
        ensures
            mac == self@.config.mac,
    {
        self.config.mac
    }

    fn enqueue(&mut self, frame: &[u8])
        ensures
            final(self)@ == old(self)@.after_frame(frame@),
    {
        let (destination, ethertype, payload) = match crate::net::ether::parse(frame) {
            Some(parts) => parts,
            None => {
                self.counters.dropped_bad_packet = bump(self.counters.dropped_bad_packet);
                return;
            },
        };
        if !for_us(destination, self.config.mac, self.config.gateway_mac) {
            self.counters.dropped_not_for_us = bump(self.counters.dropped_not_for_us);
            return;
        }
        if ethertype == ETHERTYPE_ARP {
            self.handle_arp(payload);
        } else if ethertype == ETHERTYPE_IPV4 {
            self.handle_ipv4(payload);
        } else {
            self.counters.dropped_unknown_ethertype = bump(self.counters.dropped_unknown_ethertype);
        }
    }

    fn poll(&mut self, now: u64, output: &mut Vec<Vec<u8>>)
        ensures
            contents(final(output)@) == contents(old(output)@) + old(self)@.advanced(now).output,
            final(self)@ == (BackendView { output: Seq::empty(), ..old(self)@.advanced(now) }),
    {
        let mut frames: Vec<Vec<u8>> = Vec::new();
        proof {
            lemma_contents(frames@);
            assert(contents(frames@) =~= Seq::empty());
        }
        self.udp.poll(now, &self.inbox, &self.config, &mut self.ip_id, &mut self.counters, &mut frames);
        self.tcp.poll(now, &self.config, &mut self.ip_id, &mut self.counters, &mut frames);
        self.inbox.clear();
        assert(self.inbox@ =~= Seq::empty());
        self.emit_all(&frames);
        self.drain_output(output);
    }

    fn counters(&self) -> (counters: NetCounters)
        ensures
            counters == self@.counters,
    {
        self.counters
    }

    fn reset(&mut self)
        ensures
            final(self)@ == old(self)@.cleared(),
    {
        self.output.clear();
        self.udp.reset();
        self.tcp.reset();
        self.dials.clear();
        self.queries.clear();
        self.inbox.clear();
        proof {
            lemma_contents(self.output@);
            lemma_query_views(self.queries@);
            assert(self@.output =~= Seq::empty());
            assert(self@.queries =~= Seq::empty());
            assert(self@.dials =~= Seq::empty());
            assert(self@.inbox =~= Seq::empty());
        }
    }
}

} // verus!
