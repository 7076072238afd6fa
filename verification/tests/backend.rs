use rish_softvm_core::net::backend::{NetBackend, SlirpNetBackend, OUTPUT_CAP};
use rish_softvm_core::net::config::NetConfig;
use rish_softvm_core::net::ether::{frame, parse as parse_frame};
use rish_softvm_core::net::host::HostEvent;
use rish_softvm_core::net::ipv4::{build_header, checksum, parse, wrap_tcp, wrap_udp, Ipv4Address};
use rish_softvm_core::net::nameserver::first_nameserver;
use rish_softvm_core::net::tcp::Salts;
use rish_softvm_core::net::tcp_segment::{build_segment, parse_segment, FLAG_ACK, FLAG_SYN};
use rish_softvm_core::net::udp::{Endpoint, HostAddress};

const RESOLVER: Endpoint = Endpoint { address: HostAddress::V6(7), port: 53 };

fn backend() -> SlirpNetBackend {
    let mut backend = SlirpNetBackend::new(NetConfig::slirp_defaults(), Some(RESOLVER), None, &mut Salts::new());
    backend.tcp.next_isn = 100;
    backend
}

/// A frame from the guest to the gateway.
fn from_guest(packet: &[u8]) -> Vec<u8> {
    let config = NetConfig::slirp_defaults();
    frame(config.gateway_mac, config.mac, 0x0800, packet)
}

fn polled(backend: &mut SlirpNetBackend, now: u64) -> Vec<Vec<u8>> {
    let mut output = Vec::new();
    backend.poll(now, &mut output);
    output
}

fn ping() -> Vec<u8> {
    let config = NetConfig::slirp_defaults();
    let mut icmp = vec![8, 0, 0, 0, 0x12, 0x34, 0, 7];
    icmp.extend_from_slice(b"ping-payload");
    let sum = checksum(&icmp);
    icmp[2..4].copy_from_slice(&sum.to_be_bytes());
    let mut packet = build_header(20 + icmp.len(), 1, config.guest_ip, config.gateway_ip, 1).to_vec();
    packet.extend_from_slice(&icmp);
    packet
}

#[test]
fn the_defaults_are_the_conventional_ones() {
    assert_eq!(NetConfig::slirp_defaults(), NetConfig::slirp_defaults());
    let config = NetConfig::slirp_defaults();
    assert_eq!(config.guest_ip.octets(), [10, 0, 2, 15]);
    assert_eq!(config.gateway_ip.octets(), [10, 0, 2, 2]);
    assert_eq!(config.mtu, 1500);
    assert_eq!(backend().mac(), [0x52, 0x54, 0x00, 0x12, 0x34, 0x56]);
}

#[test]
fn the_gateway_answers_arp_and_pings() {
    let mut backend = backend();
    let config = backend.config;
    let mut arp = vec![0, 1, 8, 0, 6, 4, 0, 1];
    arp.extend_from_slice(&config.mac);
    arp.extend_from_slice(&config.guest_ip.octets());
    arp.extend_from_slice(&[0; 6]);
    arp.extend_from_slice(&config.gateway_ip.octets());
    backend.enqueue(&frame([0xFF; 6], config.mac, 0x0806, &arp));
    assert_eq!(backend.counters().arp_replies, 1);
    // A request for another address is not answered, and not counted.
    arp[27] = 99;
    backend.enqueue(&frame([0xFF; 6], config.mac, 0x0806, &arp));
    backend.enqueue(&from_guest(&ping()));
    assert_eq!(backend.counters().icmp_echo_replies, 1);
    let output = polled(&mut backend, 0);
    assert_eq!(output.len(), 2);
    assert_eq!(&output[0][6..12], &config.gateway_mac);
    let (destination, ethertype, payload) = parse_frame(&output[1]).unwrap();
    assert_eq!(destination, config.mac);
    assert_eq!(ethertype, 0x0800);
    let reply = parse(payload).unwrap();
    assert_eq!(reply.src, config.gateway_ip);
    assert_eq!(&reply.payload[8..], b"ping-payload");
    assert!(polled(&mut backend, 1).is_empty());
}

#[test]
fn everything_else_is_dropped_and_counted() {
    let mut backend = backend();
    let config = backend.config;
    backend.enqueue(&[0; 13]);
    assert_eq!(backend.counters().dropped_bad_packet, 1);
    backend.enqueue(&frame([2, 0, 0, 0, 0, 1], config.mac, 0x0800, &ping()));
    assert_eq!(backend.counters().dropped_not_for_us, 1);
    backend.enqueue(&frame(config.gateway_mac, config.mac, 0x86DD, &[]));
    assert_eq!(backend.counters().dropped_unknown_ethertype, 1);
    backend.enqueue(&frame(config.gateway_mac, config.mac, 0x0806, &[0; 28]));
    assert_eq!(backend.counters().dropped_bad_packet, 2);
    backend.enqueue(&from_guest(&[0x45]));
    assert_eq!(backend.counters().dropped_bad_packet, 3);
    let mut fragment = ping();
    fragment[6] = 0x20;
    backend.enqueue(&from_guest(&fragment));
    assert_eq!(backend.counters().dropped_fragmented, 1);
    let mut corrupt = ping();
    corrupt[8] = 1;
    backend.enqueue(&from_guest(&corrupt));
    assert_eq!(backend.counters().dropped_bad_checksum, 1);
    let mut other = build_header(20, 1, config.guest_ip, Ipv4Address::new(8, 8, 8, 8), 1);
    backend.enqueue(&from_guest(&other));
    other = build_header(20, 1, config.guest_ip, config.gateway_ip, 1);
    backend.enqueue(&from_guest(&other));
    assert_eq!(backend.counters().dropped_other_icmp, 2);
    other = build_header(20, 99, config.guest_ip, config.gateway_ip, 1);
    backend.enqueue(&from_guest(&other));
    assert_eq!(backend.counters().dropped_not_ipv4, 1);
    assert!(polled(&mut backend, 0).is_empty());
}

#[test]
fn connections_and_queries_are_handed_to_the_host() {
    let mut backend = backend();
    let config = backend.config;
    let remote = Ipv4Address::new(93, 184, 215, 14);
    let syn = build_segment(40000, 80, 1000, 0, FLAG_SYN, 65535, &[], &[]);
    backend.enqueue(&from_guest(&wrap_tcp(config.guest_ip, remote, &syn, 1)));
    let key = backend.dials.pop().unwrap();
    assert_eq!((key.local_port, key.remote_addr, key.remote_port), (40000, remote, 80));
    backend.tcp.deliver(key, HostEvent::Connected);
    let mut query = vec![0xBE, 0xEF];
    query.extend_from_slice(&[0; 10]);
    let datagram = wrap_udp(config.guest_ip, config.gateway_ip, 41000, 53, &query, 2);
    backend.enqueue(&from_guest(&datagram));
    let forward = backend.queries.pop().unwrap();
    backend.udp.finish_send(&forward, true, 0, &mut backend.counters);
    backend.inbox.push((RESOLVER, forward.datagram));
    let output = polled(&mut backend, 5);
    assert_eq!(output.len(), 2);
    let answer = parse(&output[0][14..]).unwrap();
    assert_eq!(&answer.payload[8..10], &[0xBE, 0xEF]);
    let syn_ack = parse(&output[1][14..]).unwrap();
    let segment = parse_segment(syn_ack.payload).unwrap();
    assert_eq!(segment.flags, FLAG_SYN | FLAG_ACK);
    assert_eq!((segment.seq, segment.ack), (100, 1001));
    assert_eq!(segment.options, &[2, 4, 5, 0xB4]);
    assert!(backend.inbox.is_empty());
    assert_eq!(backend.counters().dns_answers, 1);
}

#[test]
fn a_stuck_guest_cannot_grow_the_queue() {
    let mut backend = backend();
    for _ in 0..OUTPUT_CAP + 3 {
        backend.enqueue(&from_guest(&ping()));
    }
    assert_eq!(backend.counters().dropped_bad_packet, 3);
    let output = polled(&mut backend, 0);
    assert_eq!(output.len(), OUTPUT_CAP);
    // The oldest are gone.
    assert_eq!(&output[0][18..20], &3_u16.to_be_bytes());
}

#[test]
fn a_device_reset_leaves_no_session_state() {
    let mut backend = backend();
    let config = backend.config;
    let syn = build_segment(40000, 80, 1000, 0, FLAG_SYN, 65535, &[], &[]);
    backend.enqueue(&from_guest(&wrap_tcp(config.guest_ip, Ipv4Address::new(1, 1, 1, 1), &syn, 1)));
    backend.enqueue(&from_guest(&ping()));
    let counters = backend.counters();
    backend.reset();
    assert!(backend.tcp.connections.is_empty());
    assert!(backend.dials.is_empty());
    assert!(polled(&mut backend, 0).is_empty());
    assert_eq!(backend.counters(), counters);
}

#[test]
fn the_first_nameserver_is_found() {
    for (text, expected) in [
        ("", None),
        ("nameserver 1.2.3.4", Some("1.2.3.4")),
        ("# comment\n\n  nameserver\t::1  # local\nnameserver 9.9.9.9\n", Some("::1")),
        ("nameservers 1.2.3.4\nsearch example\n", None),
        ("nameserver\nnameserver 1.2.3.4\n", None),
        ("options a\r\nnameserver 10.0.0.1\r\n", Some("10.0.0.1")),
    ] {
        let text: Vec<char> = text.chars().collect();
        let found = first_nameserver(&text).map(|field| field.into_iter().collect::<String>());
        assert_eq!(found.as_deref(), expected);
    }
}
