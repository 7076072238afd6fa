use rish_softvm_core::net::ether::{build_arp_reply, for_us, frame, parse, parse_arp_request};
use rish_softvm_core::net::ipv4::Ipv4Address;

const BROADCAST_MAC: [u8; 6] = [0xFF; 6];
const MAC: [u8; 6] = [0x52, 0x54, 0x00, 0x12, 0x34, 0x56];
const GATEWAY_MAC: [u8; 6] = [0x52, 0x55, 0x0A, 0x00, 0x02, 0x02];
const GUEST_MAC: [u8; 6] = [0x02, 0x00, 0x00, 0x00, 0x00, 0x01];
const GW: Ipv4Address = Ipv4Address { a: 10, b: 0, c: 2, d: 2 };
const GUEST: Ipv4Address = Ipv4Address { a: 10, b: 0, c: 2, d: 15 };

fn arp_request_for(target: Ipv4Address) -> Vec<u8> {
    let mut arp = Vec::new();
    arp.extend_from_slice(&[0x00, 0x01, 0x08, 0x00, 6, 4, 0x00, 0x01]);
    arp.extend_from_slice(&GUEST_MAC);
    arp.extend_from_slice(&GUEST.octets());
    arp.extend_from_slice(&[0_u8; 6]);
    arp.extend_from_slice(&target.octets());
    frame(MAC, GUEST_MAC, 0x0806, &arp)
}

#[test]
fn parses_an_arp_request_and_builds_the_reply() {
    let request = arp_request_for(GW);
    let (dst, ethertype, payload) = parse(&request).unwrap();
    assert_eq!(ethertype, 0x0806);
    assert_eq!(dst, MAC);
    let (sender_mac, sender_ip, target) = parse_arp_request(payload).unwrap();
    assert_eq!(sender_mac, GUEST_MAC);
    assert_eq!(sender_ip, GUEST);
    assert_eq!(target, GW);

    let reply = build_arp_reply(GATEWAY_MAC, GW, sender_mac, sender_ip).unwrap();
    let (dst, ethertype, payload) = parse(&reply).unwrap();
    assert_eq!(dst, GUEST_MAC);
    assert_eq!(ethertype, 0x0806);
    assert_eq!(&payload[0..8], &[0x00, 0x01, 0x08, 0x00, 6, 4, 0x00, 0x02]);
    assert_eq!(&reply[6..12], &GATEWAY_MAC);
    assert_eq!(&payload[8..14], &GATEWAY_MAC);
    assert_eq!(&payload[14..18], &GW.octets());
    assert_eq!(&payload[18..24], &GUEST_MAC);
    assert_eq!(&payload[24..28], &GUEST.octets());
}

#[test]
fn drops_malformed_arp() {
    assert!(parse_arp_request(&[]).is_none());
    let mut bogus = arp_request_for(GW);
    bogus[14 + 7] = 2; // operation: reply, not request
    let (_, _, payload) = parse(&bogus).unwrap();
    assert!(parse_arp_request(payload).is_none());
}

#[test]
fn frame_filtering_accepts_broadcast_own_and_gateway_macs() {
    assert!(for_us(BROADCAST_MAC, MAC, GATEWAY_MAC));
    assert!(for_us(MAC, MAC, GATEWAY_MAC));
    assert!(for_us(GATEWAY_MAC, MAC, GATEWAY_MAC));
    assert!(!for_us(GUEST_MAC, MAC, GATEWAY_MAC));
    assert!(parse(&[0_u8; 13]).is_none());
    let unknown = frame(MAC, GUEST_MAC, 0x0800, &[]);
    let mut unknown = unknown;
    unknown[12] = 0x86; // IPv6 ethertype
    unknown[13] = 0xDD;
    let (_, ethertype, _) = parse(&unknown).unwrap();
    assert_eq!(ethertype, 0x86DD);
}

#[test]
fn a_frame_parses_to_what_it_was_built_from() {
    let built = frame(MAC, GUEST_MAC, 0x1234, b"payload");
    let (destination, ethertype, payload) = parse(&built).unwrap();
    assert_eq!(destination, MAC);
    assert_eq!(ethertype, 0x1234);
    assert_eq!(payload, b"payload");
    assert_eq!(built.len(), 14 + 7);
}
