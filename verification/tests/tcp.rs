use std::collections::VecDeque;

use rish_softvm_core::net::config::{NetConfig, NetCounters};
use rish_softvm_core::net::dial::{Dial, Next};
use rish_softvm_core::net::host::HostEvent;
use rish_softvm_core::net::ipv4::{parse, wrap_tcp, Ipv4Address, PROTOCOL_TCP};
use rish_softvm_core::net::tcp::{isn_seed, Salts, TcpState};
use rish_softvm_core::net::tcp_conn::{
    process_segment, seq_ge, seq_gt, seq_lt, ConnKey, OutSeg, TcpConn, LINGER_TIMEOUT, MAX_RETRANSMITS,
    RETRANSMIT_TIMEOUT, TCP_PENDING_CAP,
};
use rish_softvm_core::net::tcp_poll::{drain_host_events, poll_conn, retransmit, retry_held, send_pending};
use rish_softvm_core::net::tcp_segment::{
    build_segment, parse_mss, parse_segment, FLAG_ACK, FLAG_FIN, FLAG_RST, FLAG_SYN, OUR_MSS,
};

const GUEST: Ipv4Address = Ipv4Address { a: 10, b: 0, c: 2, d: 15 };
const REMOTE: Ipv4Address = Ipv4Address { a: 127, b: 0, c: 0, d: 1 };

fn config() -> NetConfig {
    NetConfig {
        mac: [0x52, 0x54, 0x00, 0x12, 0x34, 0x56],
        gateway_mac: [0x52, 0x55, 0x0A, 0x00, 0x02, 0x02],
        guest_ip: GUEST,
        gateway_ip: Ipv4Address::new(10, 0, 2, 2),
        mtu: 1500,
    }
}

/// Builds the guest-side packet for a segment.
fn guest_tcp(segment: &[u8], remote: Ipv4Address) -> Vec<u8> {
    wrap_tcp(GUEST, remote, segment, 7)
}

/// Handles one guest packet into state, appending emitted frames.
fn handle(
    state: &mut TcpState,
    packet: Vec<u8>,
    counters: &mut NetCounters,
    frames: &mut Vec<Vec<u8>>,
) -> Option<ConnKey> {
    let mut ip_id = 0;
    state.handle(parse(&packet).unwrap(), &config(), &mut ip_id, counters, frames)
}

/// A connection without a host side.
fn fake_conn(key: ConnKey) -> TcpConn {
    TcpConn {
        key,
        established: true,
        guest_next: 1000,
        guest_window: 65535,
        guest_mss: OUR_MSS,
        our_isn: 0x0100_0000,
        our_next: 0x0100_0000,
        our_una: 0x0100_0000,
        pending: Vec::new(),
        unacked: VecDeque::new(),
        retransmit_deadline: None,
        retransmits: 0,
        held_guest: None,
        to_host: VecDeque::new(),
        host_gone: false,
        from_host: VecDeque::new(),
        host_silent: false,
        fin_sent: false,
        fin_acked: false,
        fin_seq: 0,
        fin_pending: false,
        guest_fin: false,
        guest_fin_acked: false,
        host_eof: false,
        linger_deadline: None,
        closed: false,
    }
}

#[test]
fn segments_round_trip_and_options_parse() {
    let segment = build_segment(
        1234,
        80,
        0xDEAD_BEEF,
        0x0102_0304,
        FLAG_SYN,
        65535,
        &[2, 4, 0x05, 0xB4],
        b"payload",
    );
    let parsed = parse_segment(&segment).unwrap();
    assert_eq!(parsed.sport, 1234);
    assert_eq!(parsed.dport, 80);
    assert_eq!(parsed.seq, 0xDEAD_BEEF);
    assert_eq!(parsed.flags, FLAG_SYN);
    assert_eq!(parsed.payload, b"payload");
    assert_eq!(parse_mss(parsed.options), Some(1460));
    assert!(parse_segment(&segment[..19]).is_none());
    // A window-scale option (kind 3, len 3) is skipped before the MSS.
    assert_eq!(parse_mss(&[3, 3, 7, 2, 4, 0x05, 0xB4]), Some(1460));
}

#[test]
fn a_corrupt_checksum_is_dropped_and_counted() {
    let mut state = TcpState::new(Some(5), &mut Salts::new());
    let mut counters = NetCounters::default();
    let mut frames = Vec::new();
    let segment = build_segment(40000, 80, 100, 0, FLAG_SYN, 65535, &[], &[]);
    let mut packet = guest_tcp(&segment, Ipv4Address::new(93, 184, 215, 14));
    packet[20 + 4] ^= 0xFF; // corrupt a header byte: checksum mismatch
    handle(&mut state, packet, &mut counters, &mut frames);
    assert_eq!(counters.dropped_bad_checksum, 1);
    assert_eq!(counters.tcp_opened, 0);
}

#[test]
fn unknown_connections_get_a_reset() {
    let mut state = TcpState::new(Some(5), &mut Salts::new());
    let mut counters = NetCounters::default();
    let mut frames = Vec::new();
    let segment = build_segment(40000, 80, 100, 0, FLAG_ACK, 65535, &[], &[]);
    handle(
        &mut state,
        guest_tcp(&segment, Ipv4Address::new(93, 184, 215, 14)),
        &mut counters,
        &mut frames,
    );
    assert_eq!(counters.tcp_resets, 1);
    let reply = parse(&frames[0]).unwrap();
    assert_eq!(reply.protocol, PROTOCOL_TCP);
    assert_eq!(
        reply.payload[13] & (FLAG_RST | FLAG_ACK),
        FLAG_RST | FLAG_ACK,
    );
}

#[test]
fn connection_creation_is_capped_and_excess_syns_get_a_reset() {
    let remote = Ipv4Address::new(127, 0, 0, 1);
    let mut state = TcpState::new(Some(5), &mut Salts::new());
    let mut counters = NetCounters::default();
    let mut frames = Vec::new();
    let cap = 64; // MAX_CONNECTIONS
    for port in 0..cap {
        let syn = build_segment(40000 + port as u16, 9, 1000, 0, FLAG_SYN, 65535, &[], &[]);
        handle(
            &mut state,
            guest_tcp(&syn, remote),
            &mut counters,
            &mut frames,
        );
    }
    assert_eq!(counters.tcp_opened, cap as u64);
    assert_eq!(state.connections.len(), cap);
    // The 65th SYN is refused with a reset.
    let syn = build_segment(40000 + 64, 9, 1000, 0, FLAG_SYN, 65535, &[], &[]);
    handle(
        &mut state,
        guest_tcp(&syn, remote),
        &mut counters,
        &mut frames,
    );
    assert_eq!(counters.tcp_opened, cap as u64);
    assert_eq!(state.connections.len(), cap);
    assert_eq!(counters.tcp_resets, 1);
    assert!(frames.iter().any(|frame| {
        let parsed = parse(frame).unwrap();
        parsed.payload[13] & (FLAG_RST | FLAG_ACK) == FLAG_RST | FLAG_ACK
    }));
}

#[test]
fn isn_seeds_stay_distinct_when_the_clock_reads_before_1970() {
    assert_ne!(isn_seed(None, 1), isn_seed(None, 2));
}

#[test]
fn a_host_burst_over_the_pending_cap_applies_backpressure_not_a_reset() {
    let key = ConnKey {
        local_port: 40000,
        remote_addr: Ipv4Address::new(127, 0, 0, 1),
        remote_port: 80,
    };
    let mut conn = fake_conn(key);
        // 33 x 16 KiB = 528 KiB queued before a single poll drains it.
    for _ in 0..33 {
        conn.from_host.push_back(HostEvent::Data(vec![0xAB_u8; 16 * 1024]));
    }
    let mut counters = NetCounters::default();
    drain_host_events(&mut conn, 0, GUEST, &mut 0, &mut counters, &mut Vec::new());
    assert!(!conn.closed);
    assert_eq!(counters.tcp_resets, 0);
    // The buffer is bounded at the cap (plus at most one 16 KiB event) and
    // the remaining events stay queued for later polls.
    assert!(conn.pending.len() >= TCP_PENDING_CAP - 16 * 1024);
    assert!(conn.pending.len() <= TCP_PENDING_CAP + 16 * 1024);
    assert!(matches!(conn.from_host.pop_front(), Some(HostEvent::Data(_))));
}

#[test]
fn an_ack_outside_the_receive_window_is_ignored() {
    let key = ConnKey {
        local_port: 40000,
        remote_addr: Ipv4Address::new(127, 0, 0, 1),
        remote_port: 80,
    };
    let mut conn = fake_conn(key);
    conn.our_next = conn.our_una.wrapping_add(100);
    conn.unacked.push_back(OutSeg {
        seq: conn.our_una,
        bytes: vec![0_u8; 100],
        syn: false,
    });
    let mut counters = NetCounters::default();
    let mut frames = Vec::new();
    let beyond = build_segment(
        40000,
        80,
        conn.guest_next,
        conn.our_next.wrapping_add(0x1000),
        FLAG_ACK,
        65535,
        &[],
        &[],
    );
    let segment = parse_segment(&beyond).unwrap();
    process_segment(&mut conn, segment, GUEST, &mut 0, &mut counters, &mut frames);
    assert_eq!(conn.unacked.len(), 1);
    assert_eq!(conn.our_una, 0x0100_0000);
    // A legitimate partial ACK inside the window advances our_una.
    let partial = build_segment(
        40000,
        80,
        conn.guest_next,
        conn.our_una.wrapping_add(50),
        FLAG_ACK,
        65535,
        &[],
        &[],
    );
    let segment = parse_segment(&partial).unwrap();
    process_segment(&mut conn, segment, GUEST, &mut 0, &mut counters, &mut frames);
    assert_eq!(conn.unacked.len(), 1);
    assert_eq!(conn.our_una, 0x0100_0032);
    // The full ACK completes the segment.
    let full = build_segment(
        40000,
        80,
        conn.guest_next,
        conn.our_next,
        FLAG_ACK,
        65535,
        &[],
        &[],
    );
    let segment = parse_segment(&full).unwrap();
    process_segment(&mut conn, segment, GUEST, &mut 0, &mut counters, &mut frames);
    assert!(conn.unacked.is_empty());
    assert_eq!(conn.our_una, conn.our_next);
}

#[test]
fn retransmitted_data_never_reuses_the_syn_flag() {
    let key = ConnKey {
        local_port: 40000,
        remote_addr: Ipv4Address::new(127, 0, 0, 1),
        remote_port: 80,
    };
    let mut conn = fake_conn(key);
    // Force the wrap scenario directly: data starts exactly at our_isn.
    conn.our_isn = 0;
    conn.our_una = 0;
    conn.our_next = 0;
    conn.pending.extend(vec![0x11_u8; 100]);
    let mut counters = NetCounters::default();
    let mut frames = Vec::new();
    send_pending(&mut conn, 0, GUEST, &mut 0, &mut frames);
    frames.clear();
    conn.retransmit_deadline = Some(0);
    retransmit(&mut conn, RETRANSMIT_TIMEOUT, GUEST, &mut 0, &mut counters, &mut frames);
    let parsed = parse(&frames[0]).unwrap();
    assert_eq!(parsed.payload[13] & FLAG_SYN, 0);
    assert_eq!(parsed.payload[13] & FLAG_ACK, FLAG_ACK);
    assert_eq!(&parsed.payload[20..], &vec![0x11_u8; 100][..]);
}

#[test]
fn retransmit_exhaustion_sends_the_rst_it_counts() {
    let key = ConnKey {
        local_port: 40000,
        remote_addr: Ipv4Address::new(127, 0, 0, 1),
        remote_port: 80,
    };
    let mut conn = fake_conn(key);
    conn.unacked.push_back(OutSeg {
        seq: conn.our_una,
        bytes: vec![0x22_u8; 100],
        syn: false,
    });
    let mut counters = NetCounters::default();
    let mut frames = Vec::new();
    for _ in 0..=MAX_RETRANSMITS {
        conn.retransmit_deadline = Some(0);
        retransmit(&mut conn, RETRANSMIT_TIMEOUT, GUEST, &mut 0, &mut counters, &mut frames);
        if conn.closed {
            break;
        }
    }
    assert!(conn.closed);
    assert_eq!(counters.tcp_resets, 1);
    let parsed = parse(frames.last().unwrap()).unwrap();
    assert_eq!(
        parsed.payload[13] & (FLAG_RST | FLAG_ACK),
        FLAG_RST | FLAG_ACK
    );
}

#[test]
fn a_payload_and_fin_in_one_segment_advances_the_fin_sequence() {
    let key = ConnKey {
        local_port: 40000,
        remote_addr: Ipv4Address::new(127, 0, 0, 1),
        remote_port: 80,
    };
    let mut conn = fake_conn(key);
    let segment = build_segment(40000, 80, 1000, 0, FLAG_ACK | FLAG_FIN, 65535, &[], b"data");
    let segment = parse_segment(&segment).unwrap();
    let mut counters = NetCounters::default();
    let mut frames = Vec::new();
    process_segment(&mut conn, segment, GUEST, &mut 0, &mut counters, &mut frames);
    assert!(conn.guest_fin);
    assert!(conn.guest_fin_acked);
    assert_eq!(conn.guest_next, 1005);
    // The ACK covers the payload and the FIN.
    let ack_frame = parse(&frames[0]).unwrap();
    assert_eq!(
        u32::from_be_bytes(ack_frame.payload[8..12].try_into().unwrap()),
        1005
    );
}

fn key() -> ConnKey {
    ConnKey {
        local_port: 40000,
        remote_addr: REMOTE,
        remote_port: 80,
    }
}

/// A table, its counters and its packets, driven by hand.
struct Bench {
    state: TcpState,
    counters: NetCounters,
    frames: Vec<Vec<u8>>,
    ip_id: u16,
}

impl Bench {
    fn new() -> Bench {
        Bench {
            state: TcpState { connections: Vec::new(), next_isn: 7000 },
            counters: NetCounters::default(),
            frames: Vec::new(),
            ip_id: 0,
        }
    }

    fn guest(&mut self, seq: u32, ack: u32, flags: u8, payload: &[u8]) -> Option<ConnKey> {
        let segment = build_segment(40000, 80, seq, ack, flags, 65535, &[], payload);
        handle(
            &mut self.state,
            guest_tcp(&segment, REMOTE),
            &mut self.counters,
            &mut self.frames,
        )
    }

    fn poll(&mut self, now: u64) {
        self.state
            .poll(now, &config(), &mut self.ip_id, &mut self.counters, &mut self.frames);
    }

    /// The sequence number, acknowledgement, flags and payload of each packet so far.
    fn taken(&mut self) -> Vec<(u32, u32, u8, Vec<u8>)> {
        std::mem::take(&mut self.frames)
            .iter()
            .map(|frame| {
                let packet = parse(frame).unwrap();
                assert_eq!(packet.src, REMOTE);
                assert_eq!(packet.dst, GUEST);
                let segment = parse_segment(packet.payload).unwrap();
                (segment.seq, segment.ack, segment.flags, segment.payload.to_vec())
            })
            .collect()
    }

    /// Opens a connection up to its handshake.
    fn opened() -> Bench {
        let mut bench = Bench::new();
        assert_eq!(bench.guest(1000, 0, FLAG_SYN, &[]), Some(key()));
        assert!(bench.state.deliver(key(), HostEvent::Connected).is_none());
        bench.poll(0);
        assert_eq!(bench.taken(), [(7000, 1001, FLAG_SYN | FLAG_ACK, vec![])]);
        bench.guest(1001, 7001, FLAG_ACK, &[]);
        assert!(bench.taken().is_empty());
        let conn = &bench.state.connections[0];
        assert!(conn.established);
        assert!(conn.unacked.is_empty());
        assert!(conn.retransmit_deadline.is_none());
        bench
    }
}

#[test]
fn a_connection_lives_from_its_syn_to_both_fins() {
    let mut bench = Bench::opened();
    // Guest data reaches the host and is acknowledged.
    bench.guest(1001, 7001, FLAG_ACK | 0x08, b"hello from guest");
    assert_eq!(bench.taken(), [(7001, 1017, FLAG_ACK, vec![])]);
    assert_eq!(bench.state.take_outgoing(key()).unwrap(), b"hello from guest");
    assert!(bench.state.take_outgoing(key()).is_none());
    // Host data reaches the guest.
    bench.state.deliver(key(), HostEvent::Data(b"reply from host".to_vec()));
    bench.poll(10);
    assert_eq!(bench.taken(), [(7001, 1017, FLAG_ACK, b"reply from host".to_vec())]);
    bench.guest(1017, 7016, FLAG_ACK, &[]);
    // The host closes, and the FIN handshake completes.
    bench.state.deliver(key(), HostEvent::Eof);
    bench.poll(20);
    assert_eq!(bench.taken(), [(7016, 1017, FLAG_FIN | FLAG_ACK, vec![])]);
    bench.guest(1017, 7017, FLAG_FIN | FLAG_ACK, &[]);
    assert_eq!(bench.taken(), [(7017, 1018, FLAG_ACK, vec![])]);
    bench.poll(30);
    assert_eq!(bench.counters.tcp_closed, 1);
    assert_eq!(bench.counters.tcp_resets, 0);
    assert!(bench.state.connections.is_empty());
}

#[test]
fn host_data_keeps_flowing_after_the_guests_fin() {
    let mut bench = Bench::opened();
    bench.guest(1001, 7001, FLAG_FIN | FLAG_ACK, &[]);
    assert_eq!(bench.taken(), [(7001, 1002, FLAG_ACK, vec![])]);
    assert!(bench.state.guest_finished(key()));
    bench.poll(5);
    assert!(bench.taken().is_empty(), "no FIN before the host closes");
    // Its data is no longer accepted.
    bench.guest(1002, 7001, FLAG_ACK, b"late");
    assert!(bench.taken().is_empty());
    bench.state.deliver(key(), HostEvent::Data(b"tail".to_vec()));
    bench.poll(6);
    assert_eq!(bench.taken(), [(7001, 1002, FLAG_ACK, b"tail".to_vec())]);
    bench.guest(1002, 7005, FLAG_ACK, &[]);
    bench.state.host_ended(key());
    bench.poll(7);
    assert_eq!(bench.taken(), [(7005, 1002, FLAG_FIN | FLAG_ACK, vec![])]);
    bench.guest(1002, 7006, FLAG_ACK, &[]);
    bench.poll(8);
    assert_eq!(bench.counters.tcp_closed, 1);
}

#[test]
fn a_failed_connect_is_answered_with_a_reset() {
    let mut bench = Bench::new();
    bench.guest(1000, 0, FLAG_SYN, &[]);
    bench.state.deliver(key(), HostEvent::ConnectFailed("refused".to_string()));
    bench.poll(0);
    assert_eq!(bench.taken(), [(7000, 1001, FLAG_RST | FLAG_ACK, vec![])]);
    assert_eq!(bench.counters.tcp_resets, 1);
    assert_eq!(bench.counters.tcp_closed, 1);
    assert!(bench.state.connections.is_empty());
}

#[test]
fn a_reset_of_the_guest_closes_only_at_its_own_sequence() {
    let mut bench = Bench::opened();
    bench.guest(5000, 0, FLAG_RST, &[]);
    assert!(!bench.state.connections[0].closed);
    bench.guest(1001, 0, FLAG_RST, &[]);
    assert!(bench.state.connections[0].closed);
    assert_eq!(bench.counters.tcp_resets, 1);
    // A reset of an unknown connection is not answered.
    bench.poll(0);
    bench.guest(1001, 0, FLAG_RST, &[]);
    assert!(bench.taken().is_empty());
}

#[test]
fn duplicates_are_acknowledged_again_and_gaps_are_ignored() {
    let mut bench = Bench::opened();
    bench.guest(1001, 7001, FLAG_ACK, b"abcd");
    bench.guest(1001, 7001, FLAG_ACK, b"abcd");
    let twice = (7001, 1005, FLAG_ACK, vec![]);
    assert_eq!(bench.taken(), [twice.clone(), twice]);
    assert_eq!(bench.state.connections[0].to_host.len(), 1, "not replayed");
    bench.guest(1009, 7001, FLAG_ACK, b"efgh");
    assert!(bench.taken().is_empty());
}

#[test]
fn a_full_queue_holds_the_segment_until_there_is_room() {
    let mut bench = Bench::opened();
    for index in 0..32 {
        bench.guest(1001 + index, 7001, FLAG_ACK, b"x");
    }
    assert_eq!(bench.taken().len(), 32);
    bench.guest(1033, 7001, FLAG_ACK, b"held");
    assert!(bench.taken().is_empty(), "not acknowledged yet");
    bench.poll(0);
    assert!(bench.taken().is_empty());
    bench.state.take_outgoing(key()).unwrap();
    bench.poll(1);
    assert_eq!(bench.taken(), [(7001, 1037, FLAG_ACK, vec![])]);
    // Once delivered it is not offered again.
    bench.state.take_outgoing(key()).unwrap();
    bench.poll(2);
    assert!(bench.taken().is_empty());
    assert_eq!(bench.state.connections[0].guest_next, 1037);
}

#[test]
fn a_retransmission_that_is_taken_clears_what_was_held() {
    let mut conn = fake_conn(key());
    conn.held_guest = Some(b"data".to_vec());
    let bytes = build_segment(40000, 80, 1000, 0, FLAG_ACK, 65535, &[], b"data");
    let mut frames = Vec::new();
    let mut counters = NetCounters::default();
    process_segment(&mut conn, parse_segment(&bytes).unwrap(), GUEST, &mut 0, &mut counters, &mut frames);
    assert!(conn.held_guest.is_none());
    assert_eq!(conn.guest_next, 1004);
    retry_held(&mut conn, GUEST, &mut 0, &mut frames);
    assert_eq!(conn.to_host.len(), 1);
}

#[test]
fn data_for_a_host_that_is_gone_resets_the_connection() {
    let mut bench = Bench::opened();
    bench.state.host_ended(key());
    bench.guest(1001, 7001, FLAG_ACK, b"lost");
    assert_eq!(bench.counters.tcp_resets, 1);
    assert!(bench.state.connections[0].closed);
    let mut conn = fake_conn(key());
    conn.held_guest = Some(vec![1]);
    conn.host_gone = true;
    retry_held(&mut conn, GUEST, &mut 0, &mut Vec::new());
    assert!(conn.closed);
}

#[test]
fn sending_stops_at_the_window_and_at_the_mss() {
    let mut conn = fake_conn(key());
    conn.guest_window = 2000;
    conn.pending = vec![7; 5000];
    let mut frames = Vec::new();
    send_pending(&mut conn, 0, GUEST, &mut 0, &mut frames);
    let lengths: Vec<usize> = conn.unacked.iter().map(|segment| segment.bytes.len()).collect();
    assert_eq!(lengths, [1460, 540]);
    assert_eq!(conn.pending.len(), 3000);
    assert_eq!(conn.our_next.wrapping_sub(conn.our_una), 2000);
    assert_eq!(conn.retransmit_deadline, Some(RETRANSMIT_TIMEOUT));
}

#[test]
fn a_lost_fin_is_sent_again_and_a_half_closed_connection_lingers() {
    let mut conn = fake_conn(key());
    conn.fin_pending = true;
    let mut counters = NetCounters::default();
    let mut frames = Vec::new();
    poll_conn(&mut conn, 0, GUEST, &mut 0, &mut counters, &mut frames);
    poll_conn(&mut conn, RETRANSMIT_TIMEOUT, GUEST, &mut 0, &mut counters, &mut frames);
    assert_eq!(frames.len(), 2);
    assert_eq!(counters.tcp_retransmits, 1);
    conn.fin_acked = true;
    poll_conn(&mut conn, 1000, GUEST, &mut 0, &mut counters, &mut frames);
    assert_eq!(conn.linger_deadline, Some(1000 + LINGER_TIMEOUT));
    assert!(!conn.closed);
    poll_conn(&mut conn, 1000 + LINGER_TIMEOUT, GUEST, &mut 0, &mut counters, &mut frames);
    assert!(conn.closed);
}

#[test]
fn a_syn_on_a_live_key_is_ignored_and_on_a_lingering_one_replaces_it() {
    let mut bench = Bench::opened();
    assert_eq!(bench.guest(9000, 0, FLAG_SYN, &[]), None);
    assert_eq!(bench.counters.tcp_opened, 1);
    bench.state.connections[0].linger_deadline = Some(99);
    assert_eq!(bench.guest(9000, 0, FLAG_SYN, &[]), Some(key()));
    assert_eq!(bench.counters.tcp_opened, 2);
    assert_eq!(bench.counters.tcp_closed, 1);
    assert_eq!(bench.state.connections.len(), 1);
    assert_eq!(bench.state.connections[0].guest_next, 9001);
    assert_eq!(bench.state.connections[0].our_isn, 7000_u32.wrapping_add(0x2F6B_35C5));
    bench.state.reset();
    assert!(bench.state.connections.is_empty());
}

#[test]
fn only_the_guest_may_open_connections() {
    let mut state = TcpState::new(None, &mut Salts::new());
    let mut counters = NetCounters::default();
    let mut frames = Vec::new();
    let syn = build_segment(40000, 80, 1000, 0, FLAG_SYN, 65535, &[], &[]);
    handle(
        &mut state,
        wrap_tcp(Ipv4Address::new(10, 0, 2, 16), REMOTE, &syn, 7),
        &mut counters,
        &mut frames,
    );
    assert_eq!(counters.dropped_not_for_us, 1);
    handle(&mut state, guest_tcp(&[0; 19], REMOTE), &mut counters, &mut frames);
    assert_eq!(counters.dropped_bad_packet, 1);
    assert!(state.connections.is_empty());
}

#[test]
fn a_full_event_queue_hands_the_event_back() {
    let mut bench = Bench::opened();
    for _ in 0..32 {
        assert!(bench.state.deliver(key(), HostEvent::Data(vec![1])).is_none());
    }
    assert!(matches!(bench.state.deliver(key(), HostEvent::Eof), Some(HostEvent::Eof)));
    let other = ConnKey { remote_port: 81, ..key() };
    assert!(matches!(bench.state.deliver(other, HostEvent::Eof), Some(HostEvent::Eof)));
    assert!(bench.state.find(other).is_none());
}

#[test]
fn the_mss_of_the_guest_is_clamped() {
    for (options, expected) in [
        (vec![], 536),
        (vec![2, 4, 0, 0], 1),
        (vec![2, 4, 0x02, 0x00], 512),
        (vec![2, 4, 0xFF, 0xFF], OUR_MSS),
        (vec![1, 1, 0, 0], 536),
        (vec![2, 3, 5, 0xB4], 536),
    ] {
        let mut state = TcpState::new(None, &mut Salts::new());
        let syn = build_segment(40000, 80, 1000, 0, FLAG_SYN, 65535, &options, &[]);
        handle(
            &mut state,
            guest_tcp(&syn, REMOTE),
            &mut NetCounters::default(),
            &mut Vec::new(),
        );
        assert_eq!(state.connections[0].guest_mss, expected);
    }
    assert_eq!(parse_mss(&[5, 1, 2, 4, 5, 0xB4]), None);
    assert_eq!(parse_mss(&[5]), None);
}

#[test]
fn a_megabyte_goes_through_in_order_without_a_reset() {
    let mut bench = Bench::opened();
    let total = 1024 * 1024;
    let stream: Vec<u8> = (0..total).map(|index| (index / 251 + index) as u8).collect();
    let mut sent = 0;
    let mut held: Option<HostEvent> = None;
    let mut received: Vec<u8> = Vec::new();
    let mut now = 0;
    while received.len() < total {
        loop {
            let event = match held.take() {
                Some(event) => event,
                None if sent < total => {
                    let end = (sent + 16 * 1024).min(total);
                    let event = HostEvent::Data(stream[sent..end].to_vec());
                    sent = end;
                    event
                }
                None => break,
            };
            held = bench.state.deliver(key(), event);
            if held.is_some() {
                break;
            }
        }
        now += 1;
        bench.poll(now);
        assert!(bench.state.connections[0].pending.len() <= 262_144 + 16 * 1024);
        let mut ack = 0;
        for (seq, _, flags, payload) in bench.taken() {
            assert_eq!(flags, FLAG_ACK);
            assert_eq!(seq, 7001_u32.wrapping_add(received.len() as u32));
            assert!(payload.len() <= 1460);
            received.extend_from_slice(&payload);
            ack = seq.wrapping_add(payload.len() as u32);
        }
        assert_ne!(ack, 0, "stalled after {} bytes", received.len());
        bench.guest(1001, ack, FLAG_ACK, &[]);
    }
    assert!(received == stream);
    bench.state.deliver(key(), HostEvent::Eof);
    bench.poll(now + 1);
    assert_eq!(bench.taken(), [(7001 + total as u32, 1001, FLAG_FIN | FLAG_ACK, vec![])]);
    assert_eq!(bench.counters.tcp_resets, 0);
}

#[test]
fn the_guest_sees_one_connection_through_two_transient_closes() {
    let mut bench = Bench::opened();
    let mut dial = Dial::new();
    assert!(dial.connected());
    assert_eq!(dial.closed(), Next::Redial);
    assert!(!dial.connected());
    bench.guest(1001, 7001, FLAG_ACK | 0x08, b"hello from guest");
    assert_eq!(bench.taken(), [(7001, 1017, FLAG_ACK, vec![])]);
    dial.sent(&bench.state.take_outgoing(key()).unwrap());
    assert_eq!(dial.closed(), Next::Redial);
    assert!(!dial.connected());
    // The third dial stays and echoes what it is sent.
    let echo = dial.replay();
    dial.received();
    bench.state.deliver(key(), HostEvent::Data(echo));
    bench.poll(10);
    assert_eq!(bench.taken(), [(7001, 1017, FLAG_ACK, b"hello from guest".to_vec())]);
    assert_eq!(bench.counters.tcp_resets, 0);
    assert_eq!(dial.closed(), Next::End);
}

#[test]
fn tables_start_apart_without_a_clock() {
    let mut salts = Salts::new();
    let first = TcpState::new(None, &mut salts);
    let second = TcpState::new(None, &mut salts);
    assert_ne!(first.next_isn, second.next_isn);
    assert_eq!(first.next_isn, isn_seed(None, 0));
    assert_eq!(second.next_isn, isn_seed(None, 1));
    assert_eq!(first.next_isn, 0x1234 ^ 0x9E37_79B9);
    assert!(first.connections.is_empty() && second.connections.is_empty());
    let mut last = Salts { next: u32::MAX };
    assert_eq!(last.take(), u32::MAX);
    assert_eq!(last.take(), 0);
}

#[test]
fn sequence_numbers_are_ordered_across_the_wrap() {
    let half = 0x8000_0000_u32;
    for base in [0, 1, half - 1, half, u32::MAX] {
        assert!(seq_gt(base.wrapping_add(1), base) && !seq_gt(base, base.wrapping_add(1)));
        assert!(seq_lt(base, base.wrapping_add(1)) && !seq_lt(base, base));
        assert!(seq_ge(base, base) && !seq_gt(base, base));
        assert!(seq_gt(base.wrapping_add(half - 1), base));
        // Half the space away neither number comes after the other.
        assert!(!seq_gt(base.wrapping_add(half), base) && !seq_gt(base, base.wrapping_add(half)));
        assert!(seq_lt(base.wrapping_add(half), base));
    }
}
