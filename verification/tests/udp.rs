use rish_softvm_core::net::config::{NetConfig, NetCounters};
use rish_softvm_core::net::ipv4::{parse, wrap_udp, Ipv4Address};
use rish_softvm_core::net::udp::{Endpoint, HostAddress, PendingQuery, UdpState};

const RESOLVER: Endpoint = Endpoint {
    address: HostAddress::V4(Ipv4Address { a: 127, b: 0, c: 0, d: 1 }),
    port: 5353,
};

fn config() -> NetConfig {
    NetConfig {
        mac: [0x52, 0x54, 0x00, 0x12, 0x34, 0x56],
        gateway_mac: [0x52, 0x55, 0x0A, 0x00, 0x02, 0x02],
        guest_ip: Ipv4Address::new(10, 0, 2, 15),
        gateway_ip: Ipv4Address::new(10, 0, 2, 2),
        mtu: 1500,
    }
}

/// A minimal DNS query for the given name and id.
fn dns_query(id: u16, name: &str) -> Vec<u8> {
    let mut query = Vec::new();
    query.extend_from_slice(&id.to_be_bytes());
    query.extend_from_slice(&[0x01, 0x00, 0x00, 0x01, 0, 0, 0, 0, 0, 0]);
    for label in name.split('.') {
        query.push(label.len() as u8);
        query.extend_from_slice(label.as_bytes());
    }
    query.push(0);
    query.extend_from_slice(&[0x00, 0x01, 0x00, 0x01]); // A IN
    query
}

/// Wraps a DNS payload in the envelope that the guest would send.
fn guest_udp(payload: &[u8], guest_port: u16) -> Vec<u8> {
    wrap_udp(
        Ipv4Address::new(10, 0, 2, 15),
        Ipv4Address::new(10, 0, 2, 2),
        guest_port,
        53,
        payload,
        3,
    )
}

#[test]
fn forwards_a_query_and_relays_the_answer_with_the_guest_id() {
    let mut state = UdpState::new(Some(RESOLVER));
    let config = config();
    let mut counters = NetCounters::default();
    let mut frames = Vec::new();
    let mut ip_id = 0;

    let forward = state
        .handle(
            parse(&guest_udp(&dns_query(0xBEEF, "example.com"), 41000)).unwrap(),
            &config,
            &mut counters,
        )
        .unwrap();
    state.finish_send(&forward, true, 1000, &mut counters);
    assert_eq!(counters.dns_queries, 1);

    // The resolver receives the query with a rewritten id.
    let buffer = &forward.datagram;
    let upstream_id = u16::from_be_bytes([buffer[0], buffer[1]]);
    assert_ne!(upstream_id, 0xBEEF);
    assert_eq!(&buffer[12..], &dns_query(0xBEEF, "example.com")[12..]);

    // Answer: same id, a minimal A record response.
    let mut answer = Vec::new();
    answer.extend_from_slice(&upstream_id.to_be_bytes());
    answer.extend_from_slice(&[0x81, 0x80, 0x00, 0x01, 0x00, 0x01, 0, 0, 0, 0]);
    answer.extend_from_slice(&dns_query(0, "example.com")[12..]);
    answer.extend_from_slice(&[0xC0, 0x0C, 0x00, 0x01, 0x00, 0x01, 0, 0, 0, 60, 0, 4]);
    answer.extend_from_slice(&[93, 184, 215, 14]);

    state.poll(
        1005,
        &vec![(RESOLVER, answer)],
        &config,
        &mut ip_id,
        &mut counters,
        &mut frames,
    );
    assert_eq!(counters.dns_answers, 1);
    let relayed = frames.last().unwrap();
    let parsed = parse(relayed).unwrap();
    assert_eq!(parsed.src, config.gateway_ip);
    assert_eq!(parsed.dst, config.guest_ip);
    assert_eq!(&parsed.payload[0..2], &53_u16.to_be_bytes());
    assert_eq!(&parsed.payload[2..4], &41000_u16.to_be_bytes());
    // The answer carries the guest's original transaction id.
    assert_eq!(&parsed.payload[8..10], &0xBEEF_u16.to_be_bytes());
}

#[test]
fn drops_udp_that_is_not_dns_to_the_gateway() {
    let mut state = UdpState::new(Some(RESOLVER));
    let config = config();
    let mut counters = NetCounters::default();
    // UDP to the gateway, but not port 53.
    let packet = guest_udp(&dns_query(1, "example.com"), 41000);
    let mut not_dns = packet.clone();
    // Rewrite the destination port from 53 to 80 inside the UDP header
    // (which starts after the 20-byte IPv4 header).
    not_dns[22..24].copy_from_slice(&80_u16.to_be_bytes());
    assert!(state.handle(parse(&not_dns).unwrap(), &config, &mut counters).is_none());
    assert_eq!(counters.dropped_other_udp, 1);
}

#[test]
fn every_drop_has_its_counter() {
    let config = config();
    let mut counters = NetCounters::default();
    let good = guest_udp(&dns_query(1, "example.com"), 41000);
    // No resolver.
    let mut deaf = UdpState::new(None);
    assert!(deaf.handle(parse(&good).unwrap(), &config, &mut counters).is_none());
    assert_eq!(counters.dns_drops, 1);
    // A bad checksum; a checksum of zero is none.
    let mut state = UdpState::new(Some(RESOLVER));
    let mut corrupt = good.clone();
    corrupt[30] ^= 1;
    assert!(state.handle(parse(&corrupt).unwrap(), &config, &mut counters).is_none());
    assert_eq!(counters.dropped_bad_checksum, 1);
    corrupt[26..28].copy_from_slice(&[0, 0]);
    assert!(state.handle(parse(&corrupt).unwrap(), &config, &mut counters).is_some());
    // A query shorter than its header.
    assert!(state.handle(parse(&guest_udp(&[0; 11], 1)).unwrap(), &config, &mut counters).is_none());
    assert_eq!(counters.dropped_bad_packet, 1);
    // A query that could not be sent.
    let forward = state.handle(parse(&good).unwrap(), &config, &mut counters).unwrap();
    state.finish_send(&forward, false, 0, &mut counters);
    assert_eq!(counters.dns_drops, 2);
    assert!(state.pending.is_empty());
    assert_eq!(counters.dns_queries, 0);
}

#[test]
fn strangers_and_unknown_ids_are_not_relayed() {
    let config = config();
    let mut counters = NetCounters::default();
    let mut frames = Vec::new();
    let mut ip_id = 0;
    let mut state = UdpState::new(Some(RESOLVER));
    let stranger = Endpoint { address: HostAddress::V6(1), port: 53 };
    let received = vec![(stranger, vec![0, 0, 1]), (RESOLVER, vec![0, 0, 1]), (RESOLVER, vec![7])];
    state.poll(0, &received, &config, &mut ip_id, &mut counters, &mut frames);
    assert!(frames.is_empty());
    assert_eq!(counters.dns_drops, 2);
}

#[test]
fn unanswered_queries_expire_after_thirty_seconds() {
    let config = config();
    let mut counters = NetCounters::default();
    let mut frames = Vec::new();
    let mut ip_id = 0;
    let mut state = UdpState::new(Some(RESOLVER));
    for (id, created) in [(0, 0), (1, 1), (2, 40_000)] {
        state.pending.push(PendingQuery { id, guest_id: id, guest_port: 1, created });
    }
    state.poll(30_000, &Vec::new(), &config, &mut ip_id, &mut counters, &mut frames);
    assert_eq!(counters.dns_drops, 1);
    assert_eq!(state.pending.iter().map(|query| query.id).collect::<Vec<_>>(), [1, 2]);
}

#[test]
fn ids_in_use_are_passed_over() {
    let config = config();
    let mut counters = NetCounters::default();
    let mut state = UdpState::new(Some(RESOLVER));
    state.next_id = u16::MAX;
    state.pending.push(PendingQuery { id: u16::MAX, guest_id: 0, guest_port: 0, created: 0 });
    state.pending.push(PendingQuery { id: 0, guest_id: 0, guest_port: 0, created: 0 });
    let packet = guest_udp(&dns_query(9, "example.com"), 41000);
    let forward = state.handle(parse(&packet).unwrap(), &config, &mut counters).unwrap();
    assert_eq!(forward.id, 1);
    assert_eq!(state.next_id, 2);
    state.reset();
    assert!(state.pending.is_empty());
    assert_eq!(state.next_id, 2);
}
