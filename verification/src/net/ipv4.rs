//! IPv4 parsing and assembly, the internet checksum, and ICMP echo replies.
//!
//! Exactly the packets that the network terminates are handled: unfragmented IPv4 with a
//! valid header checksum. Fragments are not put together again.

use vstd::prelude::*;
use vstd::slice::slice_subrange;

use crate::net::ether::{be16, be16_bytes, push_be16, read_be16};

verus! {

pub const PROTOCOL_ICMP: u8 = 1;

pub const PROTOCOL_TCP: u8 = 6;

pub const PROTOCOL_UDP: u8 = 17;

/// The time to live of packets that start here.
pub const DEFAULT_TTL: u8 = 64;

/// An IPv4 address, byte by byte.
#[derive(Clone, Copy, PartialEq, Eq, Hash, Structural, Debug)]
pub struct Ipv4Address {
    pub a: u8,
    pub b: u8,
    pub c: u8,
    pub d: u8,
}

impl View for Ipv4Address {
    type V = Seq<u8>;

    open spec fn view(&self) -> Seq<u8> {
        seq![self.a, self.b, self.c, self.d]
    }
}

impl Ipv4Address {
    pub fn new(a: u8, b: u8, c: u8, d: u8) -> (address: Ipv4Address)
        ensures
            address == (Ipv4Address { a, b, c, d }),
    {
        Ipv4Address { a, b, c, d }
    }

    pub fn octets(&self) -> (octets: [u8; 4])
        ensures
            octets@ == self@,
    {
        let octets = [self.a, self.b, self.c, self.d];
        assert(octets@ =~= self@);
        octets
    }

    /// Appends the four bytes.
    pub fn append(&self, out: &mut Vec<u8>)
        ensures
            final(out)@ == old(out)@ + self@,
    {
        out.push(self.a);
        out.push(self.b);
        out.push(self.c);
        out.push(self.d);
        assert(out@ =~= old(out)@ + self@);
    }
}

/// One parsed IPv4 packet: the verbatim header and everything after it.
#[derive(Clone, Copy, PartialEq, Eq, Debug)]
pub struct Ipv4Packet<'a> {
    pub header: &'a [u8],
    pub src: Ipv4Address,
    pub dst: Ipv4Address,
    pub protocol: u8,
    pub more_fragments: bool,
    pub fragment_offset: u16,
    pub payload: &'a [u8],
}

/// The mathematical reading of a packet.
#[verifier::ext_equal]
pub struct PacketView {
    pub header: Seq<u8>,
    pub src: Ipv4Address,
    pub dst: Ipv4Address,
    pub protocol: u8,
    pub more_fragments: bool,
    pub fragment_offset: u16,
    pub payload: Seq<u8>,
}

impl<'a> View for Ipv4Packet<'a> {
    type V = PacketView;

    open spec fn view(&self) -> PacketView {
        PacketView {
            header: self.header@,
            src: self.src,
            dst: self.dst,
            protocol: self.protocol,
            more_fragments: self.more_fragments,
            fragment_offset: self.fragment_offset,
            payload: self.payload@,
        }
    }
}

/// The bytes of the header, by its own count.
pub open spec fn header_length(data: Seq<u8>) -> int {
    (data[0] % 16) * 4
}

/// The bytes of the packet, by its own count.
pub open spec fn total_length(data: Seq<u8>) -> int {
    be16(data[2], data[3]) as int
}

/// Whether the data hold a whole packet of version four.
pub open spec fn is_packet(data: Seq<u8>) -> bool {
    &&& data.len() >= 20
    &&& data[0] / 16 == 4
    &&& 20 <= header_length(data) <= data.len()
    &&& header_length(data) <= total_length(data) <= data.len()
}

pub open spec fn packet_of(data: Seq<u8>) -> PacketView {
    let fragment = be16(data[6], data[7]);
    PacketView {
        header: data.take(header_length(data)),
        src: crate::net::ether::address_at(data, 12),
        dst: crate::net::ether::address_at(data, 16),
        protocol: data[9],
        more_fragments: (fragment / 0x2000) % 2 == 1,
        fragment_offset: (fragment % 0x2000) as u16,
        payload: data.subrange(header_length(data), total_length(data)),
    }
}

/// Parses an IPv4 packet. Another version, a short or cut header, or a length that
/// disagrees with the data give none.
pub fn parse(data: &[u8]) -> (packet: Option<Ipv4Packet<'_>>)
    ensures
        packet is Some == is_packet(data@),
        packet matches Some(found) ==> found@ == packet_of(data@),
{
    let length = data.len();
    if length < 20 || data[0] / 16 != 4 {
        return None;
    }
    let header = (data[0] % 16) as usize * 4;
    if header < 20 || header > length {
        return None;
    }
    let total = read_be16(data[2], data[3]) as usize;
    if total < header || total > length {
        return None;
    }
    let fragment = read_be16(data[6], data[7]);
    let packet = Ipv4Packet {
        header: slice_subrange(data, 0, header),
        src: Ipv4Address::new(data[12], data[13], data[14], data[15]),
        dst: Ipv4Address::new(data[16], data[17], data[18], data[19]),
        protocol: data[9],
        more_fragments: (fragment / 0x2000) % 2 == 1,
        fragment_offset: fragment % 0x2000,
        payload: slice_subrange(data, header, total),
    };
    assert(packet.header@ =~= data@.take(header as int));
    Some(packet)
}

/// The sum of the 16-bit words of `data`; an odd byte at the end counts as the high one.
pub open spec fn word_sum(data: Seq<u8>) -> nat
    decreases data.len(),
{
    if data.len() == 0 {
        0
    } else if data.len() == 1 {
        (data[0] * 0x100) as nat
    } else {
        be16(data[0], data[1]) as nat + word_sum(data.skip(2))
    }
}

/// A sum in one's complement arithmetic: carries are added at the low end, and only
/// nothing sums to zero.
pub open spec fn folded(sum: nat) -> nat {
    if sum == 0 {
        0
    } else {
        ((sum - 1) % 0xFFFF + 1) as nat
    }
}

/// The internet checksum of a sum: its complement.
pub open spec fn complement(sum: nat) -> u16 {
    (0xFFFF - folded(sum)) as u16
}

/// The internet checksum of `data`.
pub open spec fn checksum_of(data: Seq<u8>) -> u16 {
    complement(word_sum(data))
}

fn fold(sum: u128) -> (checksum: u16)
    ensures
        checksum == complement(sum as nat),
{
    if sum == 0 {
        0xFFFF
    } else {
        0xFFFF - ((sum - 1) % 0xFFFF + 1) as u16
    }
}

proof fn lemma_word_sum_bound(data: Seq<u8>)
    ensures
        word_sum(data) <= 0xFFFF * data.len(),
    decreases data.len(),
{
    if data.len() > 1 {
        lemma_word_sum_bound(data.skip(2));
    }
}

/// Adds up the words of `data`.
fn sum_words(data: &[u8]) -> (sum: u128)
    ensures
        sum == word_sum(data@),
        sum <= 0xFFFF * data@.len(),
{
    let length = data.len();
    let mut sum: u128 = 0;
    let mut index: usize = 0;
    assert(data@.skip(0) =~= data@);
    while index < length
        invariant
            index <= length,
            length == data@.len(),
            sum + word_sum(data@.skip(index as int)) == word_sum(data@),
            sum <= 0xFFFF * index,
        decreases length - index,
    {
        proof {
            lemma_word_sum_bound(data@.skip(index as int));
        }
        if length - index == 1 {
            assert(data@.skip(index as int).len() == 1);
            sum = sum + data[index] as u128 * 0x100;
            index = index + 1;
            assert(data@.skip(index as int).len() == 0);
        } else {
            assert(data@.skip(index as int).skip(2) =~= data@.skip(index + 2));
            sum = sum + read_be16(data[index], data[index + 1]) as u128;
            index = index + 2;
        }
    }
    assert(data@.skip(index as int).len() == 0);
    sum
}

/// The internet checksum.
pub fn checksum(data: &[u8]) -> (sum: u16)
    ensures
        sum == checksum_of(data@),
{
    fold(sum_words(data))
}

/// Whether the header's checksum is right.
pub fn header_checksum_ok(header: &[u8]) -> (held: bool)
    ensures
        held == (checksum_of(header@) == 0),
{
    checksum(header) == 0
}

/// Two data at an even distance add up.
proof fn lemma_word_sum_append(left: Seq<u8>, right: Seq<u8>)
    requires
        left.len() % 2 == 0,
    ensures
        word_sum(left + right) == word_sum(left) + word_sum(right),
    decreases left.len(),
{
    if left.len() == 0 {
        assert(left + right =~= right);
    } else {
        lemma_word_sum_append(left.skip(2), right);
        assert((left + right).skip(2) =~= left.skip(2) + right);
    }
}

proof fn lemma_word_sum_pair(value: u16)
    ensures
        word_sum(be16_bytes(value)) == value,
{
    let pair = be16_bytes(value);
    assert(pair.skip(2).len() == 0);
    assert(word_sum(pair.skip(2)) == 0);
    assert(word_sum(pair) == be16(pair[0], pair[1]) as nat + word_sum(pair.skip(2)));
    crate::net::ether::lemma_be16(value);
}

/// A checksum put where a zero word stood makes the whole sum to zero.
pub proof fn checksum_verifies(before: Seq<u8>, after: Seq<u8>)
    requires
        before.len() % 2 == 0,
    ensures
        checksum_of(before + be16_bytes(checksum_of(before + be16_bytes(0) + after)) + after) == 0,
{
    let sum = checksum_of(before + be16_bytes(0) + after);
    lemma_word_sum_append(before, be16_bytes(0) + after);
    assert(before + be16_bytes(0) + after =~= before + (be16_bytes(0) + after));
    lemma_word_sum_append(be16_bytes(0), after);
    lemma_word_sum_pair(0);
    lemma_word_sum_append(before, be16_bytes(sum) + after);
    assert(before + be16_bytes(sum) + after =~= before + (be16_bytes(sum) + after));
    lemma_word_sum_append(be16_bytes(sum), after);
    lemma_word_sum_pair(sum);
    lemma_complement(word_sum(before) + word_sum(after));
}

/// A sum and its complement make a full word.
proof fn lemma_complement(sum: nat)
    ensures
        complement(sum + complement(sum) as nat) == 0,
{
    if sum > 0 {
        let rest = (sum - 1) % 0xFFFF;
        assert((sum + complement(sum) - 1) % 0xFFFF == 0xFFFE) by {
            assert(sum - 1 == 0xFFFF * ((sum - 1) / 0xFFFF) + rest);
        }
    }
}

/// The value of a byte in the words of its data.
pub open spec fn byte_weight(index: int) -> int {
    if index % 2 == 0 {
        0x100
    } else {
        1
    }
}

proof fn lemma_word_sum_update(data: Seq<u8>, index: int, value: u8)
    requires
        0 <= index < data.len(),
    ensures
        word_sum(data.update(index, value)) == word_sum(data) + (value - data[index]) * byte_weight(index),
    decreases data.len(),
{
    let after = data.update(index, value);
    if data.len() > 1 {
        if index < 2 {
            assert(after.skip(2) =~= data.skip(2));
        } else {
            lemma_word_sum_update(data.skip(2), index - 2, value);
            assert(after.skip(2) =~= data.skip(2).update(index - 2, value));
        }
    }
}

/// Data that verifies does not verify with one bit of it turned.
pub proof fn single_bit_errors_are_detected(data: Seq<u8>, index: int, place: u8)
    requires
        checksum_of(data) == 0,
        0 <= index < data.len(),
        place < 8,
    ensures
        checksum_of(data.update(index, data[index] ^ (1u8 << place))) != 0,
{
    let byte = data[index];
    let turned = byte ^ (1u8 << place);
    assert(turned - byte == 1 || turned - byte == 2 || turned - byte == 4 || turned - byte == 8 || turned - byte == 16
        || turned - byte == 32 || turned - byte == 64 || turned - byte == 128 || byte - turned == 1 || byte - turned == 2
        || byte - turned == 4 || byte - turned == 8 || byte - turned == 16 || byte - turned == 32 || byte - turned == 64
        || byte - turned == 128) by (bit_vector)
        requires
            turned == byte ^ (1u8 << place),
            place < 8,
    ;
    lemma_word_sum_update(data, index, turned);
    let sum = word_sum(data) as int;
    let change = (turned - byte) * byte_weight(index);
    assert(change != 0 && -0x8000 <= change <= 0x8000);
    let after = word_sum(data.update(index, turned)) as int;
    assert(after == sum + change);
    assert((sum - 1) % 0xFFFF == 0xFFFE);
}

/// The header up to the checksum.
pub open spec fn header_start(total: nat, protocol: u8, identification: u16) -> Seq<u8> {
    seq![0x45u8, 0] + be16_bytes((total % 0x1_0000) as u16) + be16_bytes(identification) + seq![0u8, 0, DEFAULT_TTL, protocol]
}

/// A header of 20 bytes with its checksum.
pub open spec fn header_of(total: nat, protocol: u8, src: Ipv4Address, dst: Ipv4Address, identification: u16) -> Seq<u8> {
    let start = header_start(total, protocol, identification);
    let end = src@ + dst@;
    start + be16_bytes(checksum_of(start + be16_bytes(0) + end)) + end
}

/// A header as built here verifies, and says what it was built from.
pub proof fn header_verifies(total: nat, protocol: u8, src: Ipv4Address, dst: Ipv4Address, identification: u16)
    ensures
        header_of(total, protocol, src, dst, identification).len() == 20,
        checksum_of(header_of(total, protocol, src, dst, identification)) == 0,
{
    checksum_verifies(header_start(total, protocol, identification), src@ + dst@);
}

/// Builds a header of 20 bytes; `total_length` is that of the whole packet.
pub fn build_header(
    total_length: usize,
    protocol: u8,
    src: Ipv4Address,
    dst: Ipv4Address,
    identification: u16,
) -> (header: [u8; 20])
    ensures
        header@ == header_of(total_length as nat, protocol, src, dst, identification),
        checksum_of(header@) == 0,
{
    let total = (total_length % 0x1_0000) as u16;
    let mut header: [u8; 20] = [
        0x45, 0, (total / 256) as u8, (total % 256) as u8,
        (identification / 256) as u8, (identification % 256) as u8, 0, 0,
        DEFAULT_TTL, protocol, 0, 0,
        src.a, src.b, src.c, src.d,
        dst.a, dst.b, dst.c, dst.d,
    ];
    let ghost start = header_start(total_length as nat, protocol, identification);
    assert(header@ =~= start + be16_bytes(0) + (src@ + dst@));
    let sum = checksum(header.as_slice());
    header[10] = (sum / 256) as u8;
    header[11] = (sum % 256) as u8;
    assert(header@ =~= header_of(total_length as nat, protocol, src, dst, identification));
    proof {
        header_verifies(total_length as nat, protocol, src, dst, identification);
    }
    header
}

/// The sum of the pseudo header of a transport segment.
pub open spec fn pseudo_sum(src: Ipv4Address, dst: Ipv4Address, protocol: u8, length: nat) -> nat {
    word_sum(src@) + word_sum(dst@) + protocol as nat + length
}

/// The checksum of a TCP or UDP segment whose own checksum field is zero.
pub open spec fn transport_sum(src: Ipv4Address, dst: Ipv4Address, protocol: u8, segment: Seq<u8>) -> u16 {
    complement(pseudo_sum(src, dst, protocol, segment.len()) + word_sum(segment))
}

/// The pseudo header of a transport segment.
pub open spec fn pseudo_header(src: Ipv4Address, dst: Ipv4Address, protocol: u8, length: u16) -> Seq<u8> {
    src@ + dst@ + seq![0u8, protocol] + be16_bytes(length)
}

/// The transport checksum is the checksum of pseudo header and segment together.
pub proof fn transport_sum_covers_both(src: Ipv4Address, dst: Ipv4Address, protocol: u8, segment: Seq<u8>)
    requires
        segment.len() <= 0xFFFF,
    ensures
        transport_sum(src, dst, protocol, segment) == checksum_of(
            pseudo_header(src, dst, protocol, segment.len() as u16) + segment,
        ),
{
    let length = segment.len() as u16;
    let third = seq![0u8, protocol];
    lemma_word_sum_append(src@, dst@);
    lemma_word_sum_append(src@ + dst@, third);
    lemma_word_sum_append(src@ + dst@ + third, be16_bytes(length));
    lemma_word_sum_append(pseudo_header(src, dst, protocol, length), segment);
    lemma_word_sum_pair(length);
    lemma_word_sum_pair(protocol as u16);
    assert(third =~= be16_bytes(protocol as u16));
}

/// The TCP and UDP checksum: pseudo header plus segment, the checksum field taken as
/// zero.
pub fn transport_checksum(src: Ipv4Address, dst: Ipv4Address, protocol: u8, segment: &[u8]) -> (sum: u16)
    ensures
        sum == transport_sum(src, dst, protocol, segment@),
{
    let source = src.octets();
    let target = dst.octets();
    let a = sum_words(source.as_slice());
    let b = sum_words(target.as_slice());
    let c = sum_words(segment);
    fold(a + b + protocol as u128 + segment.len() as u128 + c)
}

/// A UDP datagram without its checksum.
pub open spec fn udp_start(src_port: u16, dst_port: u16, length: nat) -> Seq<u8> {
    be16_bytes(src_port) + be16_bytes(dst_port) + be16_bytes(((8 + length) % 0x1_0000) as u16)
}

/// A UDP datagram with its checksum.
pub open spec fn udp_of(src: Ipv4Address, dst: Ipv4Address, src_port: u16, dst_port: u16, payload: Seq<u8>) -> Seq<u8> {
    let start = udp_start(src_port, dst_port, payload.len());
    start + be16_bytes(transport_sum(src, dst, PROTOCOL_UDP, start + be16_bytes(0) + payload)) + payload
}

/// A packet that carries `payload`.
pub open spec fn packet_with(protocol: u8, src: Ipv4Address, dst: Ipv4Address, payload: Seq<u8>, identification: u16) -> Seq<u8> {
    header_of((20 + payload.len()) as nat, protocol, src, dst, identification) + payload
}

/// A packet built here parses to what it was built from, as long as its length can be
/// told in a header, and its header verifies.
pub proof fn parse_undoes_build(protocol: u8, src: Ipv4Address, dst: Ipv4Address, payload: Seq<u8>, identification: u16)
    requires
        payload.len() <= 0xFFFF - 20,
    ensures
        ({
            let data = packet_with(protocol, src, dst, payload, identification);
            &&& is_packet(data)
            &&& packet_of(data).src == src
            &&& packet_of(data).dst == dst
            &&& packet_of(data).protocol == protocol
            &&& !packet_of(data).more_fragments
            &&& packet_of(data).fragment_offset == 0
            &&& packet_of(data).payload == payload
            &&& checksum_of(packet_of(data).header) == 0
        }),
{
    let data = packet_with(protocol, src, dst, payload, identification);
    let total = (20 + payload.len()) as nat;
    let header = header_of(total, protocol, src, dst, identification);
    header_verifies(total, protocol, src, dst, identification);
    crate::net::ether::lemma_be16(total as u16);
    assert(data[0] == 0x45);
    assert(data[2] == be16_bytes(total as u16)[0]);
    assert(data[3] == be16_bytes(total as u16)[1]);
    assert(data.take(20) =~= header);
    assert(data.subrange(20, total as int) =~= payload);
}

fn assemble(protocol: u8, src: Ipv4Address, dst: Ipv4Address, payload: &Vec<u8>, identification: u16) -> (packet: Vec<u8>)
    requires
        payload@.len() <= usize::MAX - 20,
    ensures
        packet@ == packet_with(protocol, src, dst, payload@, identification),
{
    let header = build_header(20 + payload.len(), protocol, src, dst, identification);
    let mut packet: Vec<u8> = Vec::new();
    packet.extend_from_slice(header.as_slice());
    packet.extend_from_slice(payload.as_slice());
    assert(packet@ =~= packet_with(protocol, src, dst, payload@, identification));
    packet
}

/// Wraps a UDP datagram in a whole IPv4 packet with both checksums.
pub fn wrap_udp(
    src: Ipv4Address,
    dst: Ipv4Address,
    src_port: u16,
    dst_port: u16,
    payload: &[u8],
    identification: u16,
) -> (packet: Vec<u8>)
    requires
        payload@.len() <= usize::MAX - 28,
    ensures
        packet@ == packet_with(
            PROTOCOL_UDP,
            src,
            dst,
            udp_of(src, dst, src_port, dst_port, payload@),
            identification,
        ),
{
    let mut udp: Vec<u8> = Vec::new();
    push_be16(&mut udp, src_port);
    push_be16(&mut udp, dst_port);
    push_be16(&mut udp, ((8 + payload.len()) % 0x1_0000) as u16);
    let ghost start = udp_start(src_port, dst_port, payload@.len());
    assert(udp@ =~= start);
    let mut draft: Vec<u8> = Vec::new();
    draft.extend_from_slice(udp.as_slice());
    assert(draft@ =~= start);
    push_be16(&mut draft, 0);
    draft.extend_from_slice(payload);
    assert(draft@ =~= start + be16_bytes(0) + payload@);
    let sum = transport_checksum(src, dst, PROTOCOL_UDP, draft.as_slice());
    push_be16(&mut udp, sum);
    udp.extend_from_slice(payload);
    assert(udp@ =~= udp_of(src, dst, src_port, dst_port, payload@));
    assemble(PROTOCOL_UDP, src, dst, &udp, identification)
}

/// A TCP segment with its checksum filled in.
pub open spec fn checked_segment(src: Ipv4Address, dst: Ipv4Address, segment: Seq<u8>) -> Seq<u8> {
    segment.take(16) + be16_bytes(transport_sum(src, dst, PROTOCOL_TCP, segment)) + segment.skip(18)
}

/// Wraps a TCP segment whose checksum field is zero in a whole IPv4 packet with both
/// checksums.
pub fn wrap_tcp(src: Ipv4Address, dst: Ipv4Address, segment: &[u8], identification: u16) -> (packet: Vec<u8>)
    requires
        18 <= segment@.len() <= usize::MAX - 20,
    ensures
        packet@ == packet_with(PROTOCOL_TCP, src, dst, checked_segment(src, dst, segment@), identification),
{
    let sum = transport_checksum(src, dst, PROTOCOL_TCP, segment);
    let mut tcp: Vec<u8> = Vec::new();
    tcp.extend_from_slice(slice_subrange(segment, 0, 16));
    assert(tcp@ =~= segment@.take(16));
    push_be16(&mut tcp, sum);
    tcp.extend_from_slice(slice_subrange(segment, 18, segment.len()));
    assert(tcp@ =~= checked_segment(src, dst, segment@));
    assemble(PROTOCOL_TCP, src, dst, &tcp, identification)
}

/// An identification, and the one after it.
pub fn next_identification(identification: &mut u16) -> (id: u16)
    ensures
        id == *old(identification),
        *final(identification) == old(identification).wrapping_add(1),
{
    let id = *identification;
    *identification = identification.wrapping_add(1);
    id
}

/// Whether an ICMP message is an echo request with a valid checksum.
pub open spec fn is_echo_request(payload: Seq<u8>) -> bool {
    payload.len() >= 8 && payload[0] == 8 && payload[1] == 0 && checksum_of(payload) == 0
}

/// The reply to an echo request: identifier, sequence number and data come back.
pub open spec fn echo_of(payload: Seq<u8>) -> Seq<u8> {
    let rest = payload.skip(4);
    seq![0u8, 0] + be16_bytes(checksum_of(seq![0u8, 0] + be16_bytes(0) + rest)) + rest
}

/// A reply verifies and carries the request's data.
pub proof fn echo_verifies(payload: Seq<u8>)
    requires
        payload.len() >= 8,
    ensures
        checksum_of(echo_of(payload)) == 0,
        echo_of(payload).skip(4) == payload.skip(4),
        echo_of(payload).len() == payload.len(),
{
    checksum_verifies(seq![0u8, 0], payload.skip(4));
    assert(echo_of(payload).skip(4) =~= payload.skip(4));
}

/// Builds the echo reply for a packet that holds an echo request, with the addresses
/// exchanged. Any other message, and a request with a bad checksum, has none.
pub fn icmp_echo_reply(packet: Ipv4Packet<'_>, identification: &mut u16) -> (reply: Option<Vec<u8>>)
    requires
        packet@.payload.len() <= usize::MAX - 20,
    ensures
        reply is Some == is_echo_request(packet@.payload),
        reply matches Some(out) ==> out@ == packet_with(
            PROTOCOL_ICMP,
            packet@.dst,
            packet@.src,
            echo_of(packet@.payload),
            *old(identification),
        ),
        *final(identification) == if is_echo_request(packet@.payload) {
            old(identification).wrapping_add(1)
        } else {
            *old(identification)
        },
{
    let payload = packet.payload;
    let length = payload.len();
    if length < 8 || payload[0] != 8 || payload[1] != 0 {
        return None;
    }
    if checksum(payload) != 0 {
        return None;
    }
    let mut draft: Vec<u8> = vec![0, 0, 0, 0];
    draft.extend_from_slice(slice_subrange(payload, 4, length));
    assert(draft@ =~= seq![0u8, 0] + be16_bytes(0) + payload@.skip(4));
    let sum = checksum(draft.as_slice());
    let mut icmp: Vec<u8> = vec![0, 0];
    assert(icmp@ =~= seq![0u8, 0]);
    push_be16(&mut icmp, sum);
    icmp.extend_from_slice(slice_subrange(payload, 4, length));
    assert(icmp@ =~= echo_of(payload@));
    let id = next_identification(identification);
    Some(assemble(PROTOCOL_ICMP, packet.dst, packet.src, &icmp, id))
}

} // verus!
