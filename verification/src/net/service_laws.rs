//! What the guest is answered and what goes to the host, byte by byte.

use vstd::prelude::*;

use crate::net::backend::BackendView;
use crate::net::config::{one_more, NetConfig, NetCounters};
use crate::net::ipv4::{Ipv4Address, PacketView};
use crate::net::tcp::Board;
use crate::net::tcp_conn::ConnKey;
use crate::net::tcp_laws::packets_verify;
use crate::net::tcp_stream::{carried, comes_from};
use crate::net::udp::{answer_packet, handled, waits, PendingQuery, UdpView};

verus! {

/// The two bytes from `at` on as a number, high byte first.
pub open spec fn word_at(bytes: Seq<u8>, at: int) -> int {
    bytes[at] * 256 + bytes[at + 1]
}

/// Whether the four bytes from `at` on are those of an address.
pub open spec fn has_address(bytes: Seq<u8>, at: int, address: Ipv4Address) -> bool {
    bytes[at] == address.a && bytes[at + 1] == address.b && bytes[at + 2] == address.c && bytes[at + 3] == address.d
}

/// A broadcast question who has the gateway's address is answered: a frame to the asking
/// hardware address from the gateway's, with a reply that tells both.
pub proof fn arp_replies_tell_the_gateway(backend: BackendView, frame: Seq<u8>)
    requires
        frame.len() >= 42,
        frame.take(6) == seq![0xFFu8, 0xFF, 0xFF, 0xFF, 0xFF, 0xFF],
        frame.subrange(12, 22) == seq![8u8, 6, 0, 1, 8, 0, 6, 4, 0, 1],
        has_address(frame, 38, backend.config.gateway_ip),
        backend.output.len() < 1024,
        backend.config.gateway_mac@.len() == 6,
    ensures
        ({
            let after = backend.after_frame(frame);
            let reply = after.output[backend.output.len() as int];
            &&& after.output.len() == backend.output.len() + 1
            &&& after.output.take(backend.output.len() as int) == backend.output
            &&& reply.len() == 42
            &&& reply.take(6) == frame.subrange(22, 28)
            &&& reply.subrange(6, 12) == backend.config.gateway_mac@
            &&& reply.subrange(12, 22) == seq![8u8, 6, 0, 1, 8, 0, 6, 4, 0, 2]
            &&& reply.subrange(22, 28) == backend.config.gateway_mac@
            &&& has_address(reply, 28, backend.config.gateway_ip)
            &&& reply.subrange(32, 38) == frame.subrange(22, 28)
            &&& reply.subrange(38, 42) == frame.subrange(28, 32)
        }),
{
    let header = frame.subrange(12, 22);
    let payload = frame.skip(14);
    assert(frame[12] == header[0] && frame[13] == header[1] && frame[14] == header[2] && frame[15] == header[3]
        && frame[16] == header[4] && frame[17] == header[5] && frame[18] == header[6] && frame[19] == header[7]
        && frame[20] == header[8] && frame[21] == header[9]);
    assert(payload.subrange(8, 14) =~= frame.subrange(22, 28));
    let after = backend.after_frame(frame);
    let reply = after.output[backend.output.len() as int];
    assert(after.output.take(backend.output.len() as int) =~= backend.output);
    assert(reply.take(6) =~= frame.subrange(22, 28));
    assert(reply.subrange(6, 12) =~= backend.config.gateway_mac@);
    assert(reply.subrange(12, 22) =~= seq![8u8, 6, 0, 1, 8, 0, 6, 4, 0, 2]);
    assert(reply.subrange(22, 28) =~= backend.config.gateway_mac@);
    assert(reply.subrange(32, 38) =~= frame.subrange(22, 28));
    assert(reply.subrange(38, 42) =~= frame.subrange(28, 32));
}

/// A whole IPv4 packet as it is built here: version and length of the header, the length of
/// the packet, that it is not to be cut, the protocol and the addresses.
pub proof fn packets_spell_their_header(
    protocol: u8,
    src: Ipv4Address,
    dst: Ipv4Address,
    payload: Seq<u8>,
    identification: u16,
)
    requires
        payload.len() <= 0xFFFF - 20,
    ensures
        ({
            let data = crate::net::ipv4::packet_with(protocol, src, dst, payload, identification);
            &&& data.len() == 20 + payload.len()
            &&& data[0] == 0x45
            &&& word_at(data, 2) == 20 + payload.len()
            &&& word_at(data, 4) == identification
            &&& data[9] == protocol
            &&& has_address(data, 12, src)
            &&& has_address(data, 16, dst)
            &&& data.skip(20) == payload
            &&& (data[6] as int % 64) * 256 + data[7] == 0
            &&& data[8] > 0
        }),
{
    let data = crate::net::ipv4::packet_with(protocol, src, dst, payload, identification);
    let total = (20 + payload.len()) as u16;
    crate::net::ether::lemma_be16(total);
    crate::net::ipv4::header_verifies((20 + payload.len()) as nat, protocol, src, dst, identification);
    assert(data.skip(20) =~= payload);
}

/// A TCP segment as it is built here, field by field.
pub proof fn segments_spell_their_fields(
    sport: u16,
    dport: u16,
    seq: u32,
    ack: u32,
    flags: u8,
    window: u16,
    options: Seq<u8>,
    payload: Seq<u8>,
)
    requires
        options.len() <= 40,
        options.len() % 4 == 0,
    ensures
        ({
            let data = crate::net::tcp_segment::segment_bytes(sport, dport, seq, ack, flags, window, options, payload);
            &&& word_at(data, 0) == sport
            &&& word_at(data, 2) == dport
            &&& word_at(data, 4) * 0x1_0000 + word_at(data, 6) == seq
            &&& word_at(data, 8) * 0x1_0000 + word_at(data, 10) == ack
            &&& (data[12] as int / 16) * 4 == 20 + options.len()
            &&& data[13] == flags
            &&& word_at(data, 14) == window
            &&& data.subrange(20, 20int + options.len()) == options
            &&& data.skip(20int + options.len()) == payload
        }),
{
    let data = crate::net::tcp_segment::segment_bytes(sport, dport, seq, ack, flags, window, options, payload);
    assert(data.subrange(20, 20int + options.len()) =~= options);
    assert(data.skip(20int + options.len()) =~= payload);
}

/// An echo request comes back as a reply of the same length: type and code zero, the
/// identifier, the sequence number and the data unchanged, and the checksum right.
pub proof fn echo_replies_return_the_message(message: Seq<u8>)
    requires
        crate::net::ipv4::is_echo_request(message),
    ensures
        ({
            let reply = crate::net::ipv4::echo_of(message);
            &&& message[0] == 8
            &&& message[1] == 0
            &&& reply.len() == message.len()
            &&& reply[0] == 0
            &&& reply[1] == 0
            &&& reply.skip(4) == message.skip(4)
            &&& crate::net::ipv4::checksum_of(reply) == 0
        }),
{
    crate::net::ipv4::echo_verifies(message);
}

/// A ping to the gateway in a frame to it comes back in one: from the gateway to whoever
/// asked, with the message's answer.
pub proof fn pings_come_back(backend: BackendView, from: Ipv4Address, message: Seq<u8>, id: u16)
    requires
        crate::net::ipv4::is_echo_request(message),
        message.len() <= 0xFFFF - 20,
        backend.output.len() < 1024,
        backend.config.gateway_mac@.len() == 6,
        backend.config.mac@.len() == 6,
    ensures
        ({
            let request = backend.config.gateway_mac@ + backend.config.mac@ + seq![8u8, 0]
                + crate::net::ipv4::packet_with(1, from, backend.config.gateway_ip, message, id);
            let after = backend.after_frame(request);
            let reply = after.output[backend.output.len() as int];
            let packet = crate::net::ipv4::packet_of(reply.skip(14));
            &&& after.output.len() == backend.output.len() + 1
            &&& reply.take(6) == backend.config.mac@
            &&& reply.subrange(6, 12) == backend.config.gateway_mac@
            &&& reply.subrange(12, 14) == seq![8u8, 0]
            &&& crate::net::ipv4::is_packet(reply.skip(14))
            &&& packet.src == backend.config.gateway_ip
            &&& packet.dst == from
            &&& packet.protocol == 1
            &&& packet.payload.len() == message.len()
            &&& packet.payload[0] == 0
            &&& packet.payload[1] == 0
            &&& packet.payload.skip(4) == message.skip(4)
            &&& crate::net::ipv4::checksum_of(packet.payload) == 0
        }),
{
    let data = crate::net::ipv4::packet_with(1, from, backend.config.gateway_ip, message, id);
    let request = backend.config.gateway_mac@ + backend.config.mac@ + seq![8u8, 0] + data;
    crate::net::backend::pings_are_answered(backend, from, message, id);
    assert(request =~= crate::net::ether::framed(backend.config.gateway_mac@, backend.config.mac@, 0x800, data));
    echo_replies_return_the_message(message);
    let answer = crate::net::ipv4::packet_with(
        1,
        backend.config.gateway_ip,
        from,
        crate::net::ipv4::echo_of(message),
        backend.ip_id,
    );
    crate::net::ipv4::parse_undoes_build(
        1,
        backend.config.gateway_ip,
        from,
        crate::net::ipv4::echo_of(message),
        backend.ip_id,
    );
    let reply = backend.after_frame(request).output[backend.output.len() as int];
    assert(reply == crate::net::ether::framed(backend.config.mac@, backend.config.gateway_mac@, 0x800, answer));
    assert(reply.skip(14) =~= answer);
    assert(reply.take(6) =~= backend.config.mac@);
    assert(reply.subrange(6, 12) =~= backend.config.gateway_mac@);
    assert(reply.subrange(12, 14) =~= seq![8u8, 0]);
}

/// A DNS query to the gateway goes to the resolver under an id that no other query waits
/// with, otherwise unchanged, and the port and the id that the guest asked with are noted.
pub proof fn queries_go_on_under_a_free_id(
    udp: UdpView,
    counters: NetCounters,
    packet: PacketView,
    gateway_ip: Ipv4Address,
)
    requires
        packet.payload.len() >= 20,
        packet.dst == gateway_ip,
        word_at(packet.payload, 2) == 53,
        crate::net::udp::datagram_verifies(packet),
        udp.upstream is Some,
        udp.pending.len() < 0x1_0000,
        udp.next_free() is Some,
    ensures
        ({
            let (after, counted, query) = handled(udp, counters, packet, gateway_ip);
            let sent = query->0;
            &&& query is Some
            &&& counted == counters
            &&& after.pending == udp.pending
            &&& after.upstream == udp.upstream
            &&& forall|i: int| 0 <= i < udp.pending.len() ==> (#[trigger] udp.pending[i]).id != sent.id
            &&& sent.guest_port == word_at(packet.payload, 0)
            &&& sent.guest_id == word_at(packet.payload, 8)
            &&& sent.datagram.len() == packet.payload.len() - 8
            &&& word_at(sent.datagram, 0) == sent.id
            &&& sent.datagram.skip(2) == packet.payload.skip(10)
        }),
{
    let (after, counted, query) = handled(udp, counters, packet, gateway_ip);
    crate::net::udp::fresh_ids_are_free(udp);
    let sent = query->0;
    assert(sent.datagram.skip(2) =~= packet.payload.skip(10));
}

/// The answer to a query goes to the guest in a packet from port 53 of the gateway to the
/// port that asked, under the id that the guest asked with, otherwise unchanged.
pub proof fn answers_come_from_the_gateway(config: NetConfig, query: PendingQuery, datagram: Seq<u8>, ip_id: u16)
    requires
        2 <= datagram.len() <= 0xFFFF - 28,
    ensures
        ({
            let data = answer_packet(config, query, datagram, ip_id);
            let packet = crate::net::ipv4::packet_of(data);
            &&& crate::net::ipv4::is_packet(data)
            &&& crate::net::ipv4::checksum_of(packet.header) == 0
            &&& packet.src == config.gateway_ip
            &&& packet.dst == config.guest_ip
            &&& packet.protocol == 17
            &&& packet.payload.len() == 8 + datagram.len()
            &&& word_at(packet.payload, 0) == 53
            &&& word_at(packet.payload, 2) == query.guest_port
            &&& word_at(packet.payload, 4) == 8 + datagram.len()
            &&& word_at(packet.payload, 8) == query.guest_id
            &&& packet.payload.skip(10) == datagram.skip(2)
        }),
{
    let content = crate::net::ether::be16_bytes(query.guest_id) + datagram.skip(2);
    let payload = crate::net::ipv4::udp_of(config.gateway_ip, config.guest_ip, 53, query.guest_port, content);
    lemma_datagram(config.gateway_ip, config.guest_ip, 53, query.guest_port, content);
    crate::net::ipv4::parse_undoes_build(17, config.gateway_ip, config.guest_ip, payload, ip_id);
    assert(payload.skip(8) == content);
    assert(payload[8] == content[0] && payload[9] == content[1]) by {
        assert(payload.skip(8)[0] == payload[8]);
        assert(payload.skip(8)[1] == payload[9]);
    }
    assert(payload.skip(10) =~= payload.skip(8).skip(2));
    assert(content.skip(2) =~= datagram.skip(2));
}

proof fn lemma_datagram(src: Ipv4Address, dst: Ipv4Address, src_port: u16, dst_port: u16, content: Seq<u8>)
    requires
        content.len() <= 0xFFFF - 28,
    ensures
        ({
            let data = crate::net::ipv4::udp_of(src, dst, src_port, dst_port, content);
            &&& data.len() == 8 + content.len()
            &&& word_at(data, 0) == src_port
            &&& word_at(data, 2) == dst_port
            &&& word_at(data, 4) == 8 + content.len()
            &&& data.skip(8) == content
        }),
{
    let data = crate::net::ipv4::udp_of(src, dst, src_port, dst_port, content);
    let start = crate::net::ipv4::udp_start(src_port, dst_port, content.len());
    let length = (8 + content.len()) as u16;
    assert(start =~= seq![
        (src_port / 0x100) as u8,
        (src_port % 0x100) as u8,
        (dst_port / 0x100) as u8,
        (dst_port % 0x100) as u8,
        (length / 0x100) as u8,
        (length % 0x100) as u8,
    ]);
    assert(data.take(6) =~= start);
    assert(data[0] == data.take(6)[0] && data[1] == data.take(6)[1] && data[2] == data.take(6)[2] && data[3]
        == data.take(6)[3] && data[4] == data.take(6)[4] && data[5] == data.take(6)[5]);
    assert(data.skip(8) =~= content);
}

/// A query waits for its answer for thirty seconds.
pub proof fn queries_wait_thirty_seconds(query: PendingQuery, now: u64)
    ensures
        waits(query, now) == (now < query.created + 30_000),
{
}

/// A first SYN of the guest opens a connection to where it was addressed, and the host is
/// told to dial it.
pub proof fn a_syn_dials_where_it_was_sent(here: Board, packet: PacketView, guest_ip: Ipv4Address)
    requires
        packet.src == guest_ip,
        crate::net::tcp_segment::is_segment(packet.payload),
        crate::net::tcp_segment::verifies(packet.src, packet.dst, packet.payload),
        crate::net::tcp_segment::segment_of(packet.payload).flags == 0x02,
        here.tcp.connections.len() < 64,
        forall|i: int|
            0 <= i < here.tcp.connections.len() ==> {
                let key = (#[trigger] here.tcp.connections[i]).key;
                let segment = crate::net::tcp_segment::segment_of(packet.payload);
                key.local_port != segment.sport || key.remote_addr != packet.dst || key.remote_port != segment.dport
            },
    ensures
        ({
            let segment = crate::net::tcp_segment::segment_of(packet.payload);
            let (after, dial) = here.handled(packet, guest_ip);
            let key = ConnKey { local_port: segment.sport, remote_addr: packet.dst, remote_port: segment.dport };
            let conn = after.tcp.connections[here.tcp.connections.len() as int];
            &&& dial == Some(key)
            &&& after.frames == here.frames
            &&& after.tcp.connections.len() == here.tcp.connections.len() + 1
            &&& after.tcp.connections.take(here.tcp.connections.len() as int) == here.tcp.connections
            &&& conn.key == key
            &&& conn.guest_next == (segment.seq + 1) % 0x1_0000_0000
            &&& conn.our_isn == here.tcp.next_isn
            &&& conn.our_next == (here.tcp.next_isn + 1) % 0x1_0000_0000
            &&& conn.guest_window == segment.window
            &&& after.tcp.next_isn != here.tcp.next_isn
            &&& after.counters.tcp_opened == one_more(here.counters.tcp_opened)
        }),
{
    lemma_flags();
    let segment = crate::net::tcp_segment::segment_of(packet.payload);
    let key = ConnKey { local_port: segment.sport, remote_addr: packet.dst, remote_port: segment.dport };
    lemma_absent(here.tcp.connections, key, 0);
    let after = here.handled(packet, guest_ip).0;
    assert(after.tcp.connections.take(here.tcp.connections.len() as int) =~= here.tcp.connections);
}

proof fn lemma_flags()
    ensures
        crate::net::tcp_segment::has_flag(0x02, crate::net::tcp_segment::FLAG_SYN),
        !crate::net::tcp_segment::has_flag(0x02, crate::net::tcp_segment::FLAG_ACK),
        !crate::net::tcp_segment::has_flag(0x02, crate::net::tcp_segment::FLAG_RST),
        !crate::net::tcp_segment::has_flag(0x10, crate::net::tcp_segment::FLAG_SYN),
        !crate::net::tcp_segment::has_flag(0x10, crate::net::tcp_segment::FLAG_RST),
        crate::net::tcp_segment::has_flag(0x10, crate::net::tcp_segment::FLAG_ACK),
        !crate::net::tcp_segment::has_flag(0x10, crate::net::tcp_segment::FLAG_FIN),
{
}

proof fn lemma_absent(connections: Seq<crate::net::tcp_conn::ConnView>, key: ConnKey, from: int)
    requires
        0 <= from,
        forall|i: int| from <= i < connections.len() ==> (#[trigger] connections[i]).key != key,
    ensures
        crate::net::tcp::position(connections, key, from) is None,
    decreases connections.len() - from,
{
    if from < connections.len() {
        lemma_absent(connections, key, from + 1);
    }
}

/// A segment of a connection that does not exist is answered with a reset from where it was
/// addressed, at the number that it acknowledges; the table stays as it is.
pub proof fn unknown_segments_are_reset(here: Board, packet: PacketView, guest_ip: Ipv4Address)
    requires
        packet.src == guest_ip,
        crate::net::tcp_segment::is_segment(packet.payload),
        crate::net::tcp_segment::verifies(packet.src, packet.dst, packet.payload),
        crate::net::tcp_segment::segment_of(packet.payload).flags == 0x10,
        forall|i: int|
            0 <= i < here.tcp.connections.len() ==> {
                let key = (#[trigger] here.tcp.connections[i]).key;
                let segment = crate::net::tcp_segment::segment_of(packet.payload);
                key.local_port != segment.sport || key.remote_addr != packet.dst || key.remote_port != segment.dport
            },
    ensures
        ({
            let segment = crate::net::tcp_segment::segment_of(packet.payload);
            let (after, dial) = here.handled(packet, guest_ip);
            let key = ConnKey { local_port: segment.sport, remote_addr: packet.dst, remote_port: segment.dport };
            let reset = after.frames[here.frames.len() as int];
            &&& dial is None
            &&& after.tcp == here.tcp
            &&& after.frames.len() == here.frames.len() + 1
            &&& comes_from(reset, key, guest_ip)
            &&& carried(reset).flags == 0x14
            &&& carried(reset).seq == segment.ack
            &&& carried(reset).payload.len() == 0
            &&& after.counters.tcp_resets == one_more(here.counters.tcp_resets)
        }),
{
    lemma_flags();
    let segment = crate::net::tcp_segment::segment_of(packet.payload);
    let key = ConnKey { local_port: segment.sport, remote_addr: packet.dst, remote_port: segment.dport };
    lemma_absent(here.tcp.connections, key, 0);
    packets_verify(key, segment.ack, 0, 0x14, 0, Seq::empty(), Seq::empty(), guest_ip, here.ip_id);
}

/// A SYN past 64 connections is refused with a reset that acknowledges it.
pub proof fn a_full_table_refuses(here: Board, packet: PacketView, guest_ip: Ipv4Address)
    requires
        packet.src == guest_ip,
        crate::net::tcp_segment::is_segment(packet.payload),
        crate::net::tcp_segment::verifies(packet.src, packet.dst, packet.payload),
        crate::net::tcp_segment::segment_of(packet.payload).flags == 0x02,
        here.tcp.connections.len() >= 64,
        forall|i: int|
            0 <= i < here.tcp.connections.len() ==> {
                let key = (#[trigger] here.tcp.connections[i]).key;
                let segment = crate::net::tcp_segment::segment_of(packet.payload);
                key.local_port != segment.sport || key.remote_addr != packet.dst || key.remote_port != segment.dport
            },
    ensures
        ({
            let segment = crate::net::tcp_segment::segment_of(packet.payload);
            let (after, dial) = here.handled(packet, guest_ip);
            let key = ConnKey { local_port: segment.sport, remote_addr: packet.dst, remote_port: segment.dport };
            let reset = after.frames[here.frames.len() as int];
            &&& dial is None
            &&& after.tcp == here.tcp
            &&& after.frames.len() == here.frames.len() + 1
            &&& comes_from(reset, key, guest_ip)
            &&& carried(reset).flags == 0x14
            &&& carried(reset).ack == (segment.seq + 1) % 0x1_0000_0000
            &&& carried(reset).payload.len() == 0
        }),
{
    lemma_flags();
    let segment = crate::net::tcp_segment::segment_of(packet.payload);
    let key = ConnKey { local_port: segment.sport, remote_addr: packet.dst, remote_port: segment.dport };
    lemma_absent(here.tcp.connections, key, 0);
    packets_verify(
        key,
        0,
        segment.seq.wrapping_add(1),
        0x14,
        0,
        Seq::empty(),
        Seq::empty(),
        guest_ip,
        here.ip_id,
    );
}

} // verus!
