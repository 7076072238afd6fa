use rish_softvm_core::net::ipv4::{
    build_header, checksum, header_checksum_ok, icmp_echo_reply, next_identification, parse, transport_checksum,
    wrap_tcp, wrap_udp, Ipv4Address, PROTOCOL_ICMP, PROTOCOL_TCP, PROTOCOL_UDP,
};

const GUEST: Ipv4Address = Ipv4Address { a: 10, b: 0, c: 2, d: 15 };
const GW: Ipv4Address = Ipv4Address { a: 10, b: 0, c: 2, d: 2 };

#[test]
fn checksum_matches_the_rfc_1071_reference() {
    let data = [0x00, 0x01, 0xF2, 0x03, 0xF4, 0xF5, 0xF6, 0xF7];
    assert_eq!(checksum(&data), 0x220D);
    // A checksummed header verifies to zero: it is the one's-complement
    // of its own sum.
    let header = build_header(40, PROTOCOL_ICMP, GW, GUEST, 7);
    assert_eq!(checksum(&header), 0);
}

#[test]
fn echo_request_round_trips_through_the_reply() {
    let id: u16 = 0x1234;
    let mut icmp = Vec::new();
    icmp.extend_from_slice(&[8, 0, 0, 0]);
    icmp.extend_from_slice(&id.to_be_bytes());
    icmp.extend_from_slice(&7_u16.to_be_bytes());
    icmp.extend_from_slice(b"ping-payload");
    let sum = checksum(&icmp);
    icmp[2..4].copy_from_slice(&sum.to_be_bytes());
    let mut packet = Vec::new();
    let header = build_header(20 + icmp.len(), PROTOCOL_ICMP, GUEST, GW, 1);
    packet.extend_from_slice(&header);
    packet.extend_from_slice(&icmp);

    let parsed = parse(&packet).unwrap();
    assert_eq!(parsed.src, GUEST);
    assert_eq!(parsed.dst, GW);
    assert!(header_checksum_ok(parsed.header));
    let mut identification = 9;
    let reply = icmp_echo_reply(parsed, &mut identification).unwrap();
    let reply = parse(&reply).unwrap();
    assert_eq!(reply.src, GW);
    assert_eq!(reply.dst, GUEST);
    assert_eq!(reply.protocol, PROTOCOL_ICMP);
    assert!(header_checksum_ok(reply.header));
    assert_eq!(&reply.payload[0..2], &[0, 0]);
    assert_eq!(checksum(reply.payload), 0);
    assert_eq!(&reply.payload[4..6], &id.to_be_bytes());
    assert_eq!(&reply.payload[6..8], &7_u16.to_be_bytes());
    assert_eq!(&reply.payload[8..], b"ping-payload");
}

#[test]
fn udp_wrapper_produces_a_verifiable_datagram() {
    let packet = wrap_udp(GW, GUEST, 53, 40000, b"dns-payload", 5);
    let parsed = parse(&packet).unwrap();
    assert!(header_checksum_ok(parsed.header));
    assert_eq!(parsed.protocol, PROTOCOL_UDP);
    assert_eq!(&parsed.payload[0..2], &53_u16.to_be_bytes());
    assert_eq!(&parsed.payload[2..4], &40000_u16.to_be_bytes());
    let mut with_checksum_zeroed = parsed.payload.to_vec();
    with_checksum_zeroed[6..8].copy_from_slice(&[0, 0]);
    assert_eq!(
        transport_checksum(GW, GUEST, PROTOCOL_UDP, &with_checksum_zeroed),
        u16::from_be_bytes([parsed.payload[6], parsed.payload[7]]),
    );
    assert_eq!(&parsed.payload[8..], b"dns-payload");
}

#[test]
fn echo_replies_refuse_a_request_with_a_bad_checksum() {
    let mut icmp = Vec::new();
    icmp.extend_from_slice(&[8, 0, 0, 0]); // type, code, checksum 0
    icmp.extend_from_slice(&0x1234_u16.to_be_bytes());
    icmp.extend_from_slice(&7_u16.to_be_bytes());
    icmp.extend_from_slice(b"ping-payload");
    let mut packet = Vec::new();
    let header = build_header(20 + icmp.len(), PROTOCOL_ICMP, GUEST, GW, 1);
    packet.extend_from_slice(&header);
    packet.extend_from_slice(&icmp);
    let parsed = parse(&packet).unwrap();
    let mut identification = 9;
    assert!(icmp_echo_reply(parsed, &mut identification).is_none());
}

#[test]
fn parse_rejects_truncated_and_fragmented_packets() {
    let packet = wrap_udp(GW, GUEST, 53, 40000, &[1, 2, 3], 1);
    assert!(parse(&packet[..19]).is_none());
    let mut bad_len = packet.clone();
    bad_len[2..4].copy_from_slice(&999_u16.to_be_bytes());
    assert!(parse(&bad_len).is_none());
    let mut fragmented = packet.clone();
    fragmented[6..8].copy_from_slice(&0x2000_u16.to_be_bytes());
    assert!(parse(&fragmented).unwrap().more_fragments);
}

#[test]
fn an_odd_byte_counts_as_the_high_one() {
    assert_eq!(checksum(&[]), 0xFFFF);
    assert_eq!(checksum(&[0x12]), 0xFFFF - 0x1200);
    assert_eq!(checksum(&[0xFF, 0xFF]), 0);
    assert_eq!(checksum(&[0xFF, 0xFF, 0x00, 0x01]), 0xFFFE);
}

#[test]
fn identifications_wrap() {
    let mut identification = u16::MAX;
    assert_eq!(next_identification(&mut identification), u16::MAX);
    assert_eq!(identification, 0);
}

#[test]
fn a_wrapped_segment_carries_its_checksum() {
    let segment = [0_u8; 21];
    let packet = wrap_tcp(GW, GUEST, &segment, 0x1234);
    let parsed = parse(&packet).unwrap();
    assert_eq!(parsed.protocol, PROTOCOL_TCP);
    assert_eq!(&packet[4..6], &[0x12, 0x34]);
    assert_eq!(parsed.payload.len(), 21);
    let carried = u16::from_be_bytes([parsed.payload[16], parsed.payload[17]]);
    assert_eq!(carried, transport_checksum(GW, GUEST, PROTOCOL_TCP, &segment));
    // 10.0 + 2.2 + 10.0 + 2.15 + protocol 6 + length 21, complemented.
    assert_eq!(carried, 0xFFFF - (0x0A00 + 0x0202 + 0x0A00 + 0x020F + 6 + 21));
}

#[test]
fn other_versions_and_cut_headers_are_no_packets() {
    let packet = wrap_udp(GW, GUEST, 53, 40000, &[1, 2, 3], 1);
    let mut version = packet.clone();
    version[0] = 0x65;
    assert!(parse(&version).is_none());
    let mut short = packet.clone();
    short[0] = 0x44;
    assert!(parse(&short).is_none());
    let mut below = packet;
    below[2..4].copy_from_slice(&19_u16.to_be_bytes());
    assert!(parse(&below).is_none());
}

#[test]
fn every_single_bit_error_in_a_header_is_detected() {
    let header = build_header(40, PROTOCOL_ICMP, GW, GUEST, 7);
    for index in 0..20 {
        for place in 0..8 {
            let mut turned = header;
            turned[index] ^= 1 << place;
            assert!(!header_checksum_ok(&turned));
        }
    }
}

#[test]
fn the_transport_checksum_covers_the_pseudo_header() {
    let segment = [1, 2, 3, 4, 5];
    let mut together = vec![10, 0, 2, 15, 10, 0, 2, 2, 0, PROTOCOL_UDP, 0, 5];
    together.extend_from_slice(&segment);
    assert_eq!(transport_checksum(GUEST, GW, PROTOCOL_UDP, &segment), checksum(&together));
    assert_eq!(parse(&together), None);
}
