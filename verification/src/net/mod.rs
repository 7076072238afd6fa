//! Host-side user-mode network backend for the virtio-net device.
//!
//! The backend terminates the guest's Ethernet frames. It speaks a deliberately small
//! protocol surface:
//!
//! - ARP: answers requests for the gateway address.
//! - IPv4: forwards only unfragmented packets with a valid header checksum.
//! - ICMP: answers echo requests addressed to the gateway.
//! - UDP: forwards DNS queries addressed to the gateway's port 53 to the host resolver and
//!   relays the answers back.
//! - TCP: proxies outbound connections from the guest to real hosts, translating the
//!   guest's TCP stream.
//!
//! Everything else fails closed: frames are dropped and counted, never guessed at.
//!
//! Sockets, threads and the clock are the host's. The backend tells the host what to dial
//! and which queries to send, takes host events and datagrams from it, and is told the time
//! in milliseconds.

pub mod backend;
pub mod config;
pub mod dial;
pub mod dns_laws;
pub mod dns_question;
pub mod ether;
pub mod host;
pub mod ipv4;
pub mod nameserver;
pub mod service_laws;
pub mod system_dns;
pub mod tcp;
pub mod tcp_conn;
pub mod tcp_laws;
pub mod tcp_poll;
pub mod tcp_segment;
pub mod tcp_stream;
pub mod udp;
