//! Ethernet framing and ARP handling.
//!
//! Only the two ethertypes that the network terminates are parsed; everything else is
//! reported to the caller for counting.

use vstd::prelude::*;
use vstd::slice::slice_subrange;

use crate::net::ipv4::Ipv4Address;

verus! {

/// The bytes of the Ethernet header.
pub const HEADER: usize = 14;

/// The ethertype of IPv4.
pub const ETHERTYPE_IPV4: u16 = 0x0800;

/// The ethertype of ARP.
pub const ETHERTYPE_ARP: u16 = 0x0806;

/// The number that two bytes spell, high byte first.
pub open spec fn be16(high: u8, low: u8) -> u16 {
    (high * 0x100 + low) as u16
}

pub fn read_be16(high: u8, low: u8) -> (value: u16)
    ensures
        value == be16(high, low),
{
    high as u16 * 0x100 + low as u16
}

/// The two bytes of a number, high byte first.
pub open spec fn be16_bytes(value: u16) -> Seq<u8> {
    seq![(value / 0x100) as u8, (value % 0x100) as u8]
}

/// Appends the two bytes of a number.
pub fn push_be16(out: &mut Vec<u8>, value: u16)
    ensures
        final(out)@ == old(out)@ + be16_bytes(value),
{
    out.push((value / 0x100) as u8);
    out.push((value % 0x100) as u8);
    assert(out@ =~= old(out)@ + be16_bytes(value));
}

/// What two bytes spell is what was written to them.
pub proof fn lemma_be16(value: u16)
    ensures
        be16(be16_bytes(value)[0], be16_bytes(value)[1]) == value,
        be16_bytes(value).len() == 2,
{
}

/// The destination, the ethertype and the payload of a frame, if it has a whole header.
pub open spec fn parsed(frame: Seq<u8>) -> Option<(Seq<u8>, u16, Seq<u8>)> {
    if frame.len() < HEADER {
        None
    } else {
        Some((frame.subrange(0, 6), be16(frame[12], frame[13]), frame.skip(14)))
    }
}

/// Splits a frame into destination, raw ethertype and payload. A frame shorter than the
/// header has none of them.
pub fn parse(frame: &[u8]) -> (result: Option<([u8; 6], u16, &[u8])>)
    ensures
        match parsed(frame@) {
            None => result is None,
            Some((destination, ethertype, payload)) => result matches Some((d, e, p)) && d@ == destination && e
                == ethertype && p@ == payload,
        },
{
    let length = frame.len();
    if length < HEADER {
        return None;
    }
    let destination = [frame[0], frame[1], frame[2], frame[3], frame[4], frame[5]];
    let ethertype = read_be16(frame[12], frame[13]);
    let payload = slice_subrange(frame, HEADER, length);
    assert(destination@ =~= frame@.subrange(0, 6));
    assert(payload@ =~= frame@.skip(14));
    Some((destination, ethertype, payload))
}

/// The address that every station listens to.
pub open spec fn is_broadcast(mac: Seq<u8>) -> bool {
    mac == seq![0xFFu8, 0xFF, 0xFF, 0xFF, 0xFF, 0xFF]
}

/// Whether two hardware addresses agree.
fn same(left: &[u8; 6], right: &[u8; 6]) -> (held: bool)
    ensures
        held == (left@ == right@),
{
    let held = left[0] == right[0] && left[1] == right[1] && left[2] == right[2] && left[3] == right[3] && left[4]
        == right[4] && left[5] == right[5];
    assert(held ==> left@ =~= right@);
    held
}

/// Whether a frame addressed to `dst` is addressed to us: the guest's own address, the
/// gateway's, or broadcast.
pub fn for_us(dst: [u8; 6], mac: [u8; 6], gateway_mac: [u8; 6]) -> (held: bool)
    ensures
        held == (dst@ == mac@ || dst@ == gateway_mac@ || is_broadcast(dst@)),
{
    let all = [0xFF, 0xFF, 0xFF, 0xFF, 0xFF, 0xFF];
    assert(all@ =~= seq![0xFFu8, 0xFF, 0xFF, 0xFF, 0xFF, 0xFF]);
    same(&dst, &mac) || same(&dst, &gateway_mac) || same(&dst, &all)
}

/// A frame: destination, source, ethertype, payload.
pub open spec fn framed(dst: Seq<u8>, src: Seq<u8>, ethertype: u16, payload: Seq<u8>) -> Seq<u8> {
    dst + src + be16_bytes(ethertype) + payload
}

/// Appends six bytes.
fn push_mac(out: &mut Vec<u8>, mac: &[u8; 6])
    ensures
        final(out)@ == old(out)@ + mac@,
{
    out.push(mac[0]);
    out.push(mac[1]);
    out.push(mac[2]);
    out.push(mac[3]);
    out.push(mac[4]);
    out.push(mac[5]);
    assert(out@ =~= old(out)@ + mac@);
}

/// Builds an Ethernet frame.
pub fn frame(dst: [u8; 6], src: [u8; 6], ethertype: u16, payload: &[u8]) -> (out: Vec<u8>)
    ensures
        out@ == framed(dst@, src@, ethertype, payload@),
{
    let mut out: Vec<u8> = Vec::new();
    push_mac(&mut out, &dst);
    push_mac(&mut out, &src);
    push_be16(&mut out, ethertype);
    out.extend_from_slice(payload);
    assert(out@ =~= framed(dst@, src@, ethertype, payload@));
    out
}

/// Parsing a frame gives back what it was built from.
pub proof fn parse_undoes_frame(dst: Seq<u8>, src: Seq<u8>, ethertype: u16, payload: Seq<u8>)
    requires
        dst.len() == 6,
        src.len() == 6,
    ensures
        parsed(framed(dst, src, ethertype, payload)) == Some((dst, ethertype, payload)),
{
    let whole = framed(dst, src, ethertype, payload);
    lemma_be16(ethertype);
    assert(whole.subrange(0, 6) =~= dst);
    assert(whole.skip(14) =~= payload);
    assert(whole[12] == be16_bytes(ethertype)[0]);
    assert(whole[13] == be16_bytes(ethertype)[1]);
}

/// Whether an ARP packet is a request over Ethernet and IPv4.
pub open spec fn is_arp_request(payload: Seq<u8>) -> bool {
    &&& payload.len() >= 28
    &&& be16(payload[0], payload[1]) == 1
    &&& be16(payload[2], payload[3]) == ETHERTYPE_IPV4
    &&& payload[4] == 6
    &&& payload[5] == 4
    &&& be16(payload[6], payload[7]) == 1
}

/// The address in four bytes from `from` on.
pub open spec fn address_at(bytes: Seq<u8>, from: int) -> Ipv4Address {
    Ipv4Address { a: bytes[from], b: bytes[from + 1], c: bytes[from + 2], d: bytes[from + 3] }
}

/// Parses an ARP request for the sender's identity and the address that it asks for.
/// Anything else than a whole request over Ethernet and IPv4 has none.
pub fn parse_arp_request(payload: &[u8]) -> (result: Option<([u8; 6], Ipv4Address, Ipv4Address)>)
    ensures
        result is Some == is_arp_request(payload@),
        result matches Some((mac, sender, target)) ==> mac@ == payload@.subrange(8, 14) && sender == address_at(
            payload@,
            14,
        ) && target == address_at(payload@, 24),
{
    if payload.len() < 28 {
        return None;
    }
    if read_be16(payload[0], payload[1]) != 1 || read_be16(payload[2], payload[3]) != ETHERTYPE_IPV4 || payload[4] != 6
        || payload[5] != 4 || read_be16(payload[6], payload[7]) != 1 {
        return None;
    }
    let mac = [payload[8], payload[9], payload[10], payload[11], payload[12], payload[13]];
    assert(mac@ =~= payload@.subrange(8, 14));
    let sender = Ipv4Address { a: payload[14], b: payload[15], c: payload[16], d: payload[17] };
    let target = Ipv4Address { a: payload[24], b: payload[25], c: payload[26], d: payload[27] };
    Some((mac, sender, target))
}

/// The ARP packet that says who owns an address.
pub open spec fn arp_packet(
    operation: u16,
    mac: Seq<u8>,
    address: Ipv4Address,
    target_mac: Seq<u8>,
    target: Ipv4Address,
) -> Seq<u8> {
    seq![0u8, 1, 8, 0, 6, 4] + be16_bytes(operation) + mac + address@ + target_mac + target@
}

/// Builds an ARP reply: `mac` owns the gateway's address, told to whoever asked. The
/// frame has the same address as its source.
pub fn build_arp_reply(mac: [u8; 6], gateway_ip: Ipv4Address, sender_mac: [u8; 6], sender_ip: Ipv4Address) -> (reply:
    Option<Vec<u8>>)
    ensures
        reply matches Some(out) && out@ == framed(
            sender_mac@,
            mac@,
            ETHERTYPE_ARP,
            arp_packet(2, mac@, gateway_ip, sender_mac@, sender_ip),
        ),
{
    let mut arp: Vec<u8> = vec![0, 1, 8, 0, 6, 4];
    assert(arp@ =~= seq![0u8, 1, 8, 0, 6, 4]);
    push_be16(&mut arp, 2);
    push_mac(&mut arp, &mac);
    gateway_ip.append(&mut arp);
    push_mac(&mut arp, &sender_mac);
    sender_ip.append(&mut arp);
    Some(frame(sender_mac, mac, ETHERTYPE_ARP, arp.as_slice()))
}

/// A request parses to what it was built from.
pub proof fn arp_request_round_trip(mac: Seq<u8>, sender: Ipv4Address, unknown: Seq<u8>, target: Ipv4Address)
    requires
        mac.len() == 6,
        unknown.len() == 6,
    ensures
        ({
            let packet = arp_packet(1, mac, sender, unknown, target);
            &&& is_arp_request(packet)
            &&& packet.subrange(8, 14) == mac
            &&& address_at(packet, 14) == sender
            &&& address_at(packet, 24) == target
        }),
{
    let packet = arp_packet(1, mac, sender, unknown, target);
    assert(packet.subrange(8, 14) =~= mac);
}

} // verus!
