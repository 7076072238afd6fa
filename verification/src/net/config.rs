//! Protocol counters and the fixed addressing of the emulated network.

use vstd::prelude::*;

use crate::net::ipv4::Ipv4Address;

verus! {

/// Monotonic protocol counters. Every dropped packet class is counted so that a
/// misbehaving guest is visible in diagnostics instead of silent.
#[derive(Clone, Copy, PartialEq, Eq, Structural, Debug)]
pub struct NetCounters {
    pub arp_replies: u64,
    pub icmp_echo_replies: u64,
    pub dns_queries: u64,
    pub dns_answers: u64,
    pub dns_drops: u64,
    pub tcp_opened: u64,
    pub tcp_closed: u64,
    pub tcp_resets: u64,
    pub tcp_retransmits: u64,
    pub dropped_unknown_ethertype: u64,
    pub dropped_not_for_us: u64,
    pub dropped_not_ipv4: u64,
    pub dropped_fragmented: u64,
    pub dropped_bad_checksum: u64,
    pub dropped_other_icmp: u64,
    pub dropped_other_udp: u64,
    pub dropped_bad_packet: u64,
}

/// All counters at zero.
pub open spec fn no_counts() -> NetCounters {
    NetCounters {
        arp_replies: 0,
        icmp_echo_replies: 0,
        dns_queries: 0,
        dns_answers: 0,
        dns_drops: 0,
        tcp_opened: 0,
        tcp_closed: 0,
        tcp_resets: 0,
        tcp_retransmits: 0,
        dropped_unknown_ethertype: 0,
        dropped_not_for_us: 0,
        dropped_not_ipv4: 0,
        dropped_fragmented: 0,
        dropped_bad_checksum: 0,
        dropped_other_icmp: 0,
        dropped_other_udp: 0,
        dropped_bad_packet: 0,
    }
}

impl Default for NetCounters {
    fn default() -> (counters: NetCounters)
        ensures
            counters == no_counts(),
    {
        NetCounters {
            arp_replies: 0,
            icmp_echo_replies: 0,
            dns_queries: 0,
            dns_answers: 0,
            dns_drops: 0,
            tcp_opened: 0,
            tcp_closed: 0,
            tcp_resets: 0,
            tcp_retransmits: 0,
            dropped_unknown_ethertype: 0,
            dropped_not_for_us: 0,
            dropped_not_ipv4: 0,
            dropped_fragmented: 0,
            dropped_bad_checksum: 0,
            dropped_other_icmp: 0,
            dropped_other_udp: 0,
            dropped_bad_packet: 0,
        }
    }
}

/// A counter after one more: it stays at its largest value.
pub open spec fn one_more(count: u64) -> u64 {
    if count == u64::MAX {
        count
    } else {
        (count + 1) as u64
    }
}

/// Whether the counters differ in one more drop, of one class.
pub open spec fn counts_a_drop(before: NetCounters, after: NetCounters) -> bool {
    ||| after == (NetCounters { dns_drops: one_more(before.dns_drops), ..before })
    ||| after == (NetCounters {
        dropped_unknown_ethertype: one_more(before.dropped_unknown_ethertype),
        ..before
    })
    ||| after == (NetCounters { dropped_not_for_us: one_more(before.dropped_not_for_us), ..before })
    ||| after == (NetCounters { dropped_not_ipv4: one_more(before.dropped_not_ipv4), ..before })
    ||| after == (NetCounters { dropped_fragmented: one_more(before.dropped_fragmented), ..before })
    ||| after == (NetCounters { dropped_bad_checksum: one_more(before.dropped_bad_checksum), ..before })
    ||| after == (NetCounters { dropped_other_icmp: one_more(before.dropped_other_icmp), ..before })
    ||| after == (NetCounters { dropped_other_udp: one_more(before.dropped_other_udp), ..before })
    ||| after == (NetCounters { dropped_bad_packet: one_more(before.dropped_bad_packet), ..before })
}

/// Counts one more.
pub fn bump(count: u64) -> (next: u64)
    ensures
        next == one_more(count),
{
    if count == u64::MAX {
        count
    } else {
        count + 1
    }
}

/// Fixed addressing for the emulated network.
#[derive(Clone, Copy, PartialEq, Eq, Debug)]
pub struct NetConfig {
    /// The guest interface MAC, which the device reports in its config space.
    pub mac: [u8; 6],
    /// The MAC that is answered for on the emulated wire.
    pub gateway_mac: [u8; 6],
    pub guest_ip: Ipv4Address,
    pub gateway_ip: Ipv4Address,
    /// The largest IP payload; frames that carry more are dropped by the device.
    pub mtu: usize,
}

impl NetConfig {
    /// The conventional defaults: guest 10.0.2.15 behind gateway 10.0.2.2.
    pub fn slirp_defaults() -> (config: NetConfig)
        ensures
            config.mac@ == seq![0x52u8, 0x54, 0x00, 0x12, 0x34, 0x56],
            config.gateway_mac@ == seq![0x52u8, 0x55, 0x0A, 0x00, 0x02, 0x02],
            config.guest_ip == (Ipv4Address { a: 10, b: 0, c: 2, d: 15 }),
            config.gateway_ip == (Ipv4Address { a: 10, b: 0, c: 2, d: 2 }),
            config.mtu == 1500,
    {
        let config = NetConfig {
            mac: [0x52, 0x54, 0x00, 0x12, 0x34, 0x56],
            gateway_mac: [0x52, 0x55, 0x0A, 0x00, 0x02, 0x02],
            guest_ip: Ipv4Address::new(10, 0, 2, 15),
            gateway_ip: Ipv4Address::new(10, 0, 2, 2),
            mtu: 1500,
        };
        assert(config.mac@ =~= seq![0x52u8, 0x54, 0x00, 0x12, 0x34, 0x56]);
        assert(config.gateway_mac@ =~= seq![0x52u8, 0x55, 0x0A, 0x00, 0x02, 0x02]);
        config
    }
}

/// The bytes of each of the packets.
#[verifier::opaque]
pub open spec fn contents(packets: Seq<Vec<u8>>) -> Seq<Seq<u8>> {
    packets.map_values(|packet: Vec<u8>| packet@)
}

pub proof fn lemma_contents_push(packets: Seq<Vec<u8>>, packet: Vec<u8>)
    ensures
        contents(packets.push(packet)) == contents(packets).push(packet@),
{
    reveal(contents);
    assert(contents(packets.push(packet)) =~= contents(packets).push(packet@));
}

pub proof fn lemma_contents(packets: Seq<Vec<u8>>)
    ensures
        contents(packets).len() == packets.len(),
        packets.len() > 0 ==> contents(packets)[0] == packets[0]@,
        packets.len() > 0 ==> contents(packets.skip(1)) == contents(packets).skip(1),
{
    reveal(contents);
    if packets.len() > 0 {
        assert(contents(packets.skip(1)) =~= contents(packets).skip(1));
    }
}

/// Appends a packet.
pub fn push_packet(packets: &mut Vec<Vec<u8>>, packet: Vec<u8>)
    ensures
        contents(final(packets)@) == contents(old(packets)@).push(packet@),
{
    proof {
        lemma_contents_push(packets@, packet);
    }
    packets.push(packet);
}

} // verus!
