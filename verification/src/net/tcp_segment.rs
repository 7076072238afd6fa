//! TCP segment wire format: parsing, assembly, checksum verification, and the MSS option.

use vstd::prelude::*;
use vstd::slice::slice_subrange;

use crate::net::ether::{be16, be16_bytes, push_be16, read_be16};
use crate::net::ipv4::{Ipv4Address, Ipv4Packet, transport_checksum, PROTOCOL_TCP};

verus! {

pub const FLAG_FIN: u8 = 0x01;

pub const FLAG_SYN: u8 = 0x02;

pub const FLAG_RST: u8 = 0x04;

pub const FLAG_ACK: u8 = 0x10;

/// The MSS that is advertised: the device MTU minus the IPv4 and TCP headers.
pub const OUR_MSS: u16 = 1460;

/// Whether a flag is among `flags`.
pub open spec fn has_flag(flags: u8, flag: u8) -> bool {
    (flags / flag) % 2 == 1
}

pub fn test_flag(flags: u8, flag: u8) -> (held: bool)
    requires
        flag > 0,
    ensures
        held == has_flag(flags, flag),
{
    (flags / flag) % 2 == 1
}

/// The number that four bytes spell, high byte first.
pub open spec fn be32(a: u8, b: u8, c: u8, d: u8) -> u32 {
    (a * 0x100_0000 + b * 0x1_0000 + c * 0x100 + d) as u32
}

/// The four bytes of a number, high byte first.
pub open spec fn be32_bytes(value: u32) -> Seq<u8> {
    seq![
        (value / 0x100_0000) as u8,
        ((value / 0x1_0000) % 0x100) as u8,
        ((value / 0x100) % 0x100) as u8,
        (value % 0x100) as u8,
    ]
}

/// What four bytes spell is what was written to them.
pub proof fn lemma_be32(value: u32)
    ensures
        be32_bytes(value).len() == 4,
        be32(be32_bytes(value)[0], be32_bytes(value)[1], be32_bytes(value)[2], be32_bytes(value)[3]) == value,
{
}

pub fn read_be32(a: u8, b: u8, c: u8, d: u8) -> (value: u32)
    ensures
        value == be32(a, b, c, d),
{
    a as u32 * 0x100_0000 + b as u32 * 0x1_0000 + c as u32 * 0x100 + d as u32
}

/// Appends the four bytes of a number.
pub fn push_be32(out: &mut Vec<u8>, value: u32)
    ensures
        final(out)@ == old(out)@ + be32_bytes(value),
{
    out.push((value / 0x100_0000) as u8);
    out.push(((value / 0x1_0000) % 0x100) as u8);
    out.push(((value / 0x100) % 0x100) as u8);
    out.push((value % 0x100) as u8);
    assert(out@ =~= old(out)@ + be32_bytes(value));
}

/// One parsed TCP segment from the guest.
#[derive(Clone, Copy, Debug)]
pub struct Segment<'a> {
    pub sport: u16,
    pub dport: u16,
    pub seq: u32,
    pub ack: u32,
    pub flags: u8,
    pub window: u16,
    /// Options between the fixed header and the payload.
    pub options: &'a [u8],
    pub payload: &'a [u8],
}

/// The mathematical reading of a segment.
#[verifier::ext_equal]
pub struct SegmentView {
    pub sport: u16,
    pub dport: u16,
    pub seq: u32,
    pub ack: u32,
    pub flags: u8,
    pub window: u16,
    pub options: Seq<u8>,
    pub payload: Seq<u8>,
}

impl<'a> View for Segment<'a> {
    type V = SegmentView;

    open spec fn view(&self) -> SegmentView {
        SegmentView {
            sport: self.sport,
            dport: self.dport,
            seq: self.seq,
            ack: self.ack,
            flags: self.flags,
            window: self.window,
            options: self.options@,
            payload: self.payload@,
        }
    }
}

/// Where the payload starts, by the segment's own count.
pub open spec fn data_offset(data: Seq<u8>) -> int {
    (data[12] / 16) * 4
}

/// Whether the data hold a whole segment header.
pub open spec fn is_segment(data: Seq<u8>) -> bool {
    data.len() >= 20 && 20 <= data_offset(data) <= data.len()
}

pub open spec fn segment_of(data: Seq<u8>) -> SegmentView {
    SegmentView {
        sport: be16(data[0], data[1]),
        dport: be16(data[2], data[3]),
        seq: be32(data[4], data[5], data[6], data[7]),
        ack: be32(data[8], data[9], data[10], data[11]),
        flags: data[13],
        window: be16(data[14], data[15]),
        options: data.subrange(20, data_offset(data)),
        payload: data.skip(data_offset(data)),
    }
}

/// Parses a segment. A header that is cut short, or that claims less than its fixed part
/// or more than the data, gives none.
pub fn parse_segment(data: &[u8]) -> (segment: Option<Segment<'_>>)
    ensures
        segment is Some == is_segment(data@),
        segment matches Some(found) ==> found@ == segment_of(data@),
{
    let length = data.len();
    if length < 20 {
        return None;
    }
    let offset = (data[12] / 16) as usize * 4;
    if offset < 20 || offset > length {
        return None;
    }
    let segment = Segment {
        sport: read_be16(data[0], data[1]),
        dport: read_be16(data[2], data[3]),
        seq: read_be32(data[4], data[5], data[6], data[7]),
        ack: read_be32(data[8], data[9], data[10], data[11]),
        flags: data[13],
        window: read_be16(data[14], data[15]),
        options: slice_subrange(data, 20, offset),
        payload: slice_subrange(data, offset, length),
    };
    assert(segment.payload@ =~= data@.skip(offset as int));
    Some(segment)
}

/// A segment with its checksum field cleared.
pub open spec fn unchecked(data: Seq<u8>) -> Seq<u8> {
    data.update(16, 0).update(17, 0)
}

/// Whether a segment between two addresses carries the right checksum.
pub open spec fn verifies(src: Ipv4Address, dst: Ipv4Address, data: Seq<u8>) -> bool {
    crate::net::ipv4::transport_sum(src, dst, PROTOCOL_TCP, unchecked(data)) == be16(data[16], data[17])
}

/// Verifies the TCP checksum over the pseudo header that the guest used.
pub fn segment_checksum_ok(packet: &Ipv4Packet<'_>, data: &[u8]) -> (held: bool)
    requires
        data@.len() >= 18,
    ensures
        held == verifies(packet@.src, packet@.dst, data@),
{
    let mut zeroed: Vec<u8> = Vec::new();
    zeroed.extend_from_slice(data);
    assert(zeroed@ =~= data@);
    zeroed.set(16, 0);
    zeroed.set(17, 0);
    transport_checksum(packet.src, packet.dst, PROTOCOL_TCP, zeroed.as_slice()) == read_be16(data[16], data[17])
}

/// A segment, its checksum field zero.
pub open spec fn segment_bytes(
    sport: u16,
    dport: u16,
    seq: u32,
    ack: u32,
    flags: u8,
    window: u16,
    options: Seq<u8>,
    payload: Seq<u8>,
) -> Seq<u8> {
    be16_bytes(sport) + be16_bytes(dport) + be32_bytes(seq) + be32_bytes(ack) + seq![
        (((5 + options.len() / 4) % 16) * 16) as u8,
        flags,
    ] + be16_bytes(window) + seq![0u8, 0, 0, 0] + options + payload
}

/// Builds a TCP segment with the checksum field zeroed, for the IPv4 wrapper to fill.
pub fn build_segment(
    sport: u16,
    dport: u16,
    seq: u32,
    ack: u32,
    flags: u8,
    window: u16,
    options: &[u8],
    payload: &[u8],
) -> (segment: Vec<u8>)
    ensures
        segment@ == segment_bytes(sport, dport, seq, ack, flags, window, options@, payload@),
{
    let mut segment: Vec<u8> = Vec::new();
    push_be16(&mut segment, sport);
    push_be16(&mut segment, dport);
    push_be32(&mut segment, seq);
    push_be32(&mut segment, ack);
    segment.push((((5 + options.len() / 4) % 16) * 16) as u8);
    segment.push(flags);
    push_be16(&mut segment, window);
    segment.push(0);
    segment.push(0);
    segment.push(0);
    segment.push(0);
    segment.extend_from_slice(options);
    segment.extend_from_slice(payload);
    assert(segment@ =~= segment_bytes(sport, dport, seq, ack, flags, window, options@, payload@));
    segment
}

/// Parsing a segment gives back what it was built from, for options that a header can
/// count.
pub proof fn parse_undoes_build(
    sport: u16,
    dport: u16,
    seq: u32,
    ack: u32,
    flags: u8,
    window: u16,
    options: Seq<u8>,
    payload: Seq<u8>,
)
    requires
        options.len() <= 40,
        options.len() % 4 == 0,
    ensures
        ({
            let data = segment_bytes(sport, dport, seq, ack, flags, window, options, payload);
            is_segment(data) && segment_of(data) == (SegmentView {
                sport,
                dport,
                seq,
                ack,
                flags,
                window,
                options,
                payload,
            })
        }),
{
    let data = segment_bytes(sport, dport, seq, ack, flags, window, options, payload);
    crate::net::ether::lemma_be16(sport);
    crate::net::ether::lemma_be16(dport);
    crate::net::ether::lemma_be16(window);
    lemma_be32(seq);
    lemma_be32(ack);
    assert(data[0] == be16_bytes(sport)[0] && data[1] == be16_bytes(sport)[1]);
    assert(data[2] == be16_bytes(dport)[0] && data[3] == be16_bytes(dport)[1]);
    assert(data[4] == be32_bytes(seq)[0] && data[5] == be32_bytes(seq)[1]);
    assert(data[6] == be32_bytes(seq)[2] && data[7] == be32_bytes(seq)[3]);
    assert(data[8] == be32_bytes(ack)[0] && data[9] == be32_bytes(ack)[1]);
    assert(data[10] == be32_bytes(ack)[2] && data[11] == be32_bytes(ack)[3]);
    assert(data[14] == be16_bytes(window)[0] && data[15] == be16_bytes(window)[1]);
    assert(data_offset(data) == 20 + options.len());
    assert(data.subrange(20, data_offset(data)) =~= options);
    assert(data.skip(data_offset(data)) =~= payload);
}

/// A segment verifies once its checksum has been filled in.
pub proof fn filled_checksum_verifies(src: Ipv4Address, dst: Ipv4Address, segment: Seq<u8>)
    requires
        segment.len() >= 18,
        segment[16] == 0,
        segment[17] == 0,
    ensures
        verifies(src, dst, crate::net::ipv4::checked_segment(src, dst, segment)),
{
    let filled = crate::net::ipv4::checked_segment(src, dst, segment);
    let sum = crate::net::ipv4::transport_sum(src, dst, PROTOCOL_TCP, segment);
    crate::net::ether::lemma_be16(sum);
    assert(unchecked(filled) =~= segment);
    assert(filled[16] == be16_bytes(sum)[0]);
    assert(filled[17] == be16_bytes(sum)[1]);
}

/// The MSS among the options: option by option, up to the end, a malformed option, or the
/// MSS itself.
pub open spec fn mss_of(options: Seq<u8>) -> Option<u16>
    decreases options.len(),
{
    if options.len() == 0 || options[0] == 0 {
        None
    } else if options[0] == 1 {
        mss_of(options.skip(1))
    } else if options[0] == 2 {
        if options.len() >= 4 && options[1] == 4 {
            Some(be16(options[2], options[3]))
        } else {
            None
        }
    } else if options.len() < 2 || options[1] < 2 || options[1] > options.len() {
        None
    } else {
        mss_of(options.skip(options[1] as int))
    }
}

/// The MSS option of a SYN, when it is there.
pub fn parse_mss(options: &[u8]) -> (mss: Option<u16>)
    ensures
        mss == mss_of(options@),
{
    let length = options.len();
    let mut index: usize = 0;
    assert(options@.skip(0) =~= options@);
    while index < length
        invariant
            index <= length,
            length == options@.len(),
            mss_of(options@) == mss_of(options@.skip(index as int)),
        decreases length - index,
    {
        let ghost rest = options@.skip(index as int);
        let kind = options[index];
        if kind == 0 {
            return None;
        } else if kind == 1 {
            assert(rest.skip(1) =~= options@.skip(index + 1));
            index = index + 1;
        } else if kind == 2 {
            if length - index >= 4 && options[index + 1] == 4 {
                return Some(read_be16(options[index + 2], options[index + 3]));
            }
            return None;
        } else {
            if length - index < 2 {
                return None;
            }
            let size = options[index + 1] as usize;
            if size < 2 || size > length - index {
                return None;
            }
            assert(rest.skip(size as int) =~= options@.skip(index + size));
            index = index + size;
        }
    }
    None
}

} // verus!
