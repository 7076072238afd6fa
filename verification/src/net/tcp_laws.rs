//! What holds of proxied connections whatever the guest and the host do.

use vstd::prelude::*;

use crate::net::host::EventView;
use crate::net::ipv4::Ipv4Address;
use crate::net::tcp_conn::{
    advanced, at_or_after, before, in_window, segment_end, tcp_packet, trimmed, ConnKey, ConnView, Line, Offer,
    OutSegView, Scene, MAX_RETRANSMITS, TCP_PENDING_CAP,
};
use crate::net::tcp_segment::{has_flag, SegmentView, FLAG_FIN, FLAG_RST};

verus! {

/// Every packet to the guest is a whole IPv4 packet from the remote end with both
/// checksums right, and its segment says what it was built from.
pub proof fn packets_verify(
    key: ConnKey,
    seq: u32,
    ack: u32,
    flags: u8,
    window: u16,
    options: Seq<u8>,
    payload: Seq<u8>,
    guest_ip: Ipv4Address,
    ip_id: u16,
)
    requires
        options.len() <= 40,
        options.len() % 4 == 0,
        payload.len() + options.len() + 40 <= 0xFFFF,
    ensures
        ({
            let data = tcp_packet(key, seq, ack, flags, window, options, payload, guest_ip, ip_id);
            let packet = crate::net::ipv4::packet_of(data);
            &&& crate::net::ipv4::is_packet(data)
            &&& crate::net::ipv4::checksum_of(packet.header) == 0
            &&& packet.src == key.remote_addr
            &&& packet.dst == guest_ip
            &&& packet.protocol == crate::net::ipv4::PROTOCOL_TCP
            &&& !packet.more_fragments
            &&& packet.fragment_offset == 0
            &&& crate::net::tcp_segment::verifies(packet.src, packet.dst, packet.payload)
            &&& crate::net::tcp_segment::is_segment(packet.payload)
            &&& crate::net::tcp_segment::segment_of(packet.payload) == (SegmentView {
                sport: key.remote_port,
                dport: key.local_port,
                seq,
                ack,
                flags,
                window,
                options,
                payload,
            })
        }),
{
    reveal(tcp_packet);
    let segment = crate::net::tcp_segment::segment_bytes(
        key.remote_port,
        key.local_port,
        seq,
        ack,
        flags,
        window,
        options,
        payload,
    );
    crate::net::tcp_segment::parse_undoes_build(
        key.remote_port,
        key.local_port,
        seq,
        ack,
        flags,
        window,
        options,
        payload,
    );
    let filled = crate::net::ipv4::checked_segment(key.remote_addr, guest_ip, segment);
    crate::net::tcp_segment::filled_checksum_verifies(key.remote_addr, guest_ip, segment);
    crate::net::ipv4::parse_undoes_build(crate::net::ipv4::PROTOCOL_TCP, key.remote_addr, guest_ip, filled, ip_id);
    assert forall|i: int| 0 <= i < segment.len() && i != 16 && i != 17 implies filled[i] == segment[i] by {}
    let offset = crate::net::tcp_segment::data_offset(segment);
    assert(filled.subrange(20, offset) =~= segment.subrange(20, offset));
    assert(filled.skip(offset) =~= segment.skip(offset));
}

/// An acknowledgement outside the window changes nothing but the window that the guest
/// advertises: what waits for an acknowledgement goes on waiting.
pub proof fn strange_acks_are_ignored(conn: ConnView, ack: u32, window: u16)
    requires
        !in_window(ack, conn.our_una, conn.our_next),
    ensures
        conn.after_ack(ack, window) == (ConnView { guest_window: window as u32, ..conn }),
{
    reveal(ConnView::after_ack);
}

/// Acknowledged segments leave from the front, and only those that the acknowledgement
/// covers.
pub proof fn acks_drop_what_they_cover(unacked: Seq<OutSegView>, ack: u32)
    ensures
        trimmed(unacked, ack).len() <= unacked.len(),
        trimmed(unacked, ack) == unacked.skip(unacked.len() - trimmed(unacked, ack).len()),
        forall|i: int|
            0 <= i < unacked.len() - trimmed(unacked, ack).len() ==> at_or_after(
                ack,
                segment_end(#[trigger] unacked[i]),
            ),
    decreases unacked.len(),
{
    if unacked.len() > 0 && at_or_after(ack, segment_end(unacked[0])) {
        acks_drop_what_they_cover(unacked.skip(1), ack);
        let left = trimmed(unacked, ack).len();
        assert(unacked.skip(1).skip(unacked.len() - 1 - left) =~= unacked.skip(unacked.len() - left));
        assert forall|i: int| 0 <= i < unacked.len() - left implies at_or_after(
            ack,
            segment_end(#[trigger] unacked[i]),
        ) by {
            if i > 0 {
                assert(unacked.skip(1)[i - 1] == unacked[i]);
            }
        }
    } else {
        assert(unacked.skip(0) =~= unacked);
    }
}

/// A segment that starts ahead of what is expected is ignored: nothing changes, and nothing
/// is answered.
pub proof fn gaps_are_ignored(here: Scene, seq: u32, payload: Seq<u8>, guest_ip: Ipv4Address)
    requires
        payload.len() > 0,
        seq != here.conn.guest_next,
        !before(seq, here.conn.guest_next),
    ensures
        here.after_body(seq, payload, false, guest_ip) == here,
{
    reveal(Scene::after_body);
    reveal(ConnView::after_body);
}

/// A segment that was received before is acknowledged again and not replayed.
pub proof fn duplicates_are_acknowledged(here: Scene, seq: u32, payload: Seq<u8>, guest_ip: Ipv4Address)
    requires
        payload.len() > 0,
        before(seq, here.conn.guest_next),
    ensures
        here.after_body(seq, payload, false, guest_ip) == (Scene {
            conn: ConnView { guest_fin_acked: here.conn.guest_fin_acked || here.conn.guest_fin, ..here.conn },
            ..here
        }).acknowledged(guest_ip),
{
    reveal(Scene::after_body);
    reveal(ConnView::after_body);
}

/// The data of the guest that waits for the host side.
pub open spec fn forwarded(to_host: Seq<Seq<u8>>) -> Seq<u8>
    decreases to_host.len(),
{
    if to_host.len() == 0 {
        Seq::empty()
    } else {
        forwarded(to_host.drop_last()) + to_host.last()
    }
}

/// The host side gets the guest's stream in order and once: a segment adds nothing, or
/// its whole payload where the payload starts at the expected sequence number, which then
/// moves on past it.
pub proof fn guest_data_stays_in_order(here: Scene, segment: SegmentView, guest_ip: Ipv4Address)
    ensures
        ({
            let after = here.after_segment(segment, guest_ip).conn;
            let fin = has_flag(segment.flags, FLAG_FIN);
            ||| after.to_host == here.conn.to_host && (after.guest_next == here.conn.guest_next || (fin
                && after.guest_next == here.conn.guest_next.wrapping_add(1)))
            ||| {
                &&& segment.seq == here.conn.guest_next
                &&& forwarded(after.to_host) == forwarded(here.conn.to_host) + segment.payload
                &&& after.guest_next == advanced(
                    here.conn.guest_next,
                    segment.payload.len() + if fin {
                        1nat
                    } else {
                        0nat
                    },
                )
            }
        }),
{
    let acked = here.conn.after_ack(segment.ack, segment.window);
    let fin = has_flag(segment.flags, FLAG_FIN);
    lemma_acks_keep_the_stream(here.conn, segment.ack, segment.window);
    lemma_scene_body(here, segment.seq, segment.payload, fin, guest_ip);
    lemma_scene_body(Scene { conn: acked, ..here }, segment.seq, segment.payload, fin, guest_ip);
    lemma_body_stream(here.conn, segment.seq, segment.payload, fin);
    lemma_body_stream(acked, segment.seq, segment.payload, fin);
}

proof fn lemma_acks_keep_the_stream(conn: ConnView, ack: u32, window: u16)
    ensures
        conn.after_ack(ack, window).guest_next == conn.guest_next,
        conn.after_ack(ack, window).to_host == conn.to_host,
        conn.after_ack(ack, window).guest_fin == conn.guest_fin,
{
    reveal(ConnView::after_ack);
}

proof fn lemma_scene_body(here: Scene, seq: u32, payload: Seq<u8>, fin: bool, guest_ip: Ipv4Address)
    ensures
        here.after_body(seq, payload, fin, guest_ip).conn.to_host == here.conn.after_body(seq, payload, fin).0.to_host,
        here.after_body(seq, payload, fin, guest_ip).conn.guest_next == here.conn.after_body(
            seq,
            payload,
            fin,
        ).0.guest_next,
        here.after_body(seq, payload, fin, guest_ip).conn.guest_fin == here.conn.after_body(
            seq,
            payload,
            fin,
        ).0.guest_fin,
{
    reveal(Scene::after_body);
}

proof fn lemma_body_stream(conn: ConnView, seq: u32, payload: Seq<u8>, fin: bool)
    ensures
        ({
            let after = conn.after_body(seq, payload, fin).0;
            &&& {
                ||| after.to_host == conn.to_host && (after.guest_next == conn.guest_next || (fin && after.guest_next
                    == conn.guest_next.wrapping_add(1)))
                ||| {
                    &&& seq == conn.guest_next
                    &&& !conn.guest_fin
                    &&& forwarded(after.to_host) == forwarded(conn.to_host) + payload
                    &&& after.guest_next == advanced(
                        conn.guest_next,
                        payload.len() + if fin {
                            1nat
                        } else {
                            0nat
                        },
                    )
                }
            }
            &&& conn.guest_fin ==> after.to_host == conn.to_host && after.guest_fin
        }),
{
    reveal(ConnView::after_body);
    let added = conn.to_host.push(payload);
    assert(added.drop_last() =~= conn.to_host);
}

/// Once the guest has closed its side, its data is not taken any more.
pub proof fn nothing_follows_the_guests_fin(here: Scene, segment: SegmentView, guest_ip: Ipv4Address)
    requires
        here.conn.guest_fin,
    ensures
        here.after_segment(segment, guest_ip).conn.to_host == here.conn.to_host,
        here.after_segment(segment, guest_ip).conn.guest_fin,
{
    let acked = here.conn.after_ack(segment.ack, segment.window);
    let fin = has_flag(segment.flags, FLAG_FIN);
    lemma_acks_keep_the_stream(here.conn, segment.ack, segment.window);
    lemma_scene_body(here, segment.seq, segment.payload, fin, guest_ip);
    lemma_scene_body(Scene { conn: acked, ..here }, segment.seq, segment.payload, fin, guest_ip);
    lemma_body_stream(here.conn, segment.seq, segment.payload, fin);
    lemma_body_stream(acked, segment.seq, segment.payload, fin);
}

/// Data for which the host side has no room is held and not acknowledged, so that the
/// guest sends it again.
pub proof fn full_queues_hold_the_segment(here: Scene, payload: Seq<u8>, guest_ip: Ipv4Address)
    requires
        payload.len() > 0,
        here.conn.takes(here.conn.guest_next),
        here.conn.offer() == Offer::Full,
    ensures
        here.after_body(here.conn.guest_next, payload, false, guest_ip) == (Scene {
            conn: ConnView { held_guest: Some(payload), ..here.conn },
            ..here
        }),
{
    reveal(Scene::after_body);
    reveal(ConnView::after_body);
}

/// Our FIN comes last: only once the host has closed, and all of its data has been sent
/// and acknowledged.
pub proof fn our_fin_comes_last(here: Line, now: u64, guest_ip: Ipv4Address)
    requires
        !here.conn.fin_sent,
    ensures
        here.after_own_fin(now, guest_ip).conn.fin_sent == (here.conn.fin_pending && here.conn.pending.len() == 0
            && here.conn.unacked.len() == 0),
        !here.after_own_fin(now, guest_ip).conn.fin_sent ==> here.after_own_fin(now, guest_ip) == here,
{
    reveal(Line::after_own_fin);
}

/// Past the retry budget a connection is reset.
pub proof fn retries_end(here: Scene, now: u64, guest_ip: Ipv4Address)
    requires
        here.conn.fires(now),
        here.conn.retransmits >= MAX_RETRANSMITS,
    ensures
        here.after_timer(now, guest_ip).conn.closed,
        here.after_timer(now, guest_ip).counters.tcp_resets == crate::net::config::one_more(here.counters.tcp_resets),
        here.after_timer(now, guest_ip).frames.len() == here.frames.len() + 1,
{
    reveal(Scene::after_timer);
    reveal(Scene::after_try);
}

/// A reset outside the two sequence numbers that the guest may use is ignored.
pub proof fn strange_resets_are_ignored(here: Scene, segment: SegmentView, guest_ip: Ipv4Address)
    requires
        has_flag(segment.flags, FLAG_RST),
        segment.seq != here.conn.guest_next,
        segment.seq != here.conn.guest_next.wrapping_sub(1),
    ensures
        here.after_segment(segment, guest_ip) == here,
{
}

/// The host data in events that wait.
pub open spec fn data_in(events: Seq<EventView>) -> Seq<u8>
    decreases events.len(),
{
    if events.len() == 0 {
        Seq::empty()
    } else {
        (match events[0] {
            EventView::Data(bytes) => bytes,
            _ => Seq::empty(),
        }) + data_in(events.skip(1))
    }
}

/// Whether a failed connect is among the events.
pub open spec fn fails(events: Seq<EventView>) -> bool {
    exists|i: int| 0 <= i < events.len() && (#[trigger] events[i]) is ConnectFailed
}

/// However much the host sends, draining loses none of it.
pub proof fn draining_loses_nothing(here: Scene, now: u64, guest_ip: Ipv4Address)
    ensures
        here.drained(now, guest_ip).conn.pending + data_in(here.drained(now, guest_ip).conn.from_host)
            == here.conn.pending + data_in(here.conn.from_host),
    decreases here.conn.from_host.len(),
{
    reveal(Scene::drained);
    if here.drains() {
        draining_loses_nothing(here.after_first_event(now, guest_ip), now, guest_ip);
        let first = here.after_first_event(now, guest_ip);
        assert(first.conn.pending + data_in(first.conn.from_host) =~= here.conn.pending + data_in(here.conn.from_host));
    }
}

/// However much the host sends, the connection is not reset for it: only a failed connect
/// closes a connection while it drains.
pub proof fn bursts_reset_nothing(here: Scene, now: u64, guest_ip: Ipv4Address)
    requires
        !fails(here.conn.from_host),
    ensures
        here.drained(now, guest_ip).conn.closed == here.conn.closed,
        here.drained(now, guest_ip).counters == here.counters,
    decreases here.conn.from_host.len(),
{
    reveal(Scene::drained);
    if here.drains() {
        let first = here.after_first_event(now, guest_ip);
        assert(here.conn.from_host[0] !is ConnectFailed);
        assert forall|i: int| 0 <= i < first.conn.from_host.len() implies !((#[trigger] first.conn.from_host[i]) is ConnectFailed) by {
            assert(first.conn.from_host[i] == here.conn.from_host[i + 1]);
        }
        bursts_reset_nothing(first, now, guest_ip);
    }
}

/// However much the host sends, the buffer towards the guest stays within the cap and one
/// event more.
pub proof fn the_buffer_stays_bounded(here: Scene, now: u64, guest_ip: Ipv4Address, largest: nat)
    requires
        here.conn.pending.len() <= TCP_PENDING_CAP + largest,
        forall|i: int|
            0 <= i < here.conn.from_host.len() ==> ((#[trigger] here.conn.from_host[i]) matches EventView::Data(bytes)
                ==> bytes.len() <= largest),
    ensures
        here.drained(now, guest_ip).conn.pending.len() <= TCP_PENDING_CAP + largest,
    decreases here.conn.from_host.len(),
{
    reveal(Scene::drained);
    if here.drains() {
        let first = here.after_first_event(now, guest_ip);
        assert(here.conn.from_host[0] matches EventView::Data(bytes) ==> bytes.len() <= largest);
        assert forall|i: int| 0 <= i < first.conn.from_host.len() implies ((
        #[trigger] first.conn.from_host[i]) matches EventView::Data(bytes) ==> bytes.len() <= largest) by {
            assert(first.conn.from_host[i] == here.conn.from_host[i + 1]);
        }
        the_buffer_stays_bounded(first, now, guest_ip, largest);
    }
}

/// The bytes of the segments that wait for an acknowledgement.
pub open spec fn in_transit(unacked: Seq<OutSegView>) -> Seq<u8>
    decreases unacked.len(),
{
    if unacked.len() == 0 {
        Seq::empty()
    } else {
        in_transit(unacked.drop_last()) + unacked.last().bytes
    }
}

/// Sending moves bytes from the buffer to the retransmission queue, in order, and loses
/// none.
pub proof fn sending_loses_nothing(here: Line, now: u64, guest_ip: Ipv4Address)
    ensures
        in_transit(here.flushed(now, guest_ip).conn.unacked) + here.flushed(now, guest_ip).conn.pending == in_transit(
            here.conn.unacked,
        ) + here.conn.pending,
    decreases here.conn.pending.len(),
{
    reveal(Line::flushed);
    if here.conn.sendable() > 0 {
        let after = here.after_chunk(now, guest_ip);
        let count = here.conn.sendable();
        sending_loses_nothing(after, now, guest_ip);
        assert(after.conn.unacked.drop_last() =~= here.conn.unacked);
        assert(here.conn.pending =~= here.conn.pending.take(count) + here.conn.pending.skip(count));
        assert(in_transit(after.conn.unacked) + after.conn.pending =~= in_transit(here.conn.unacked)
            + here.conn.pending);
    }
}

/// A packet with data to the guest fits in the device, whatever the guest asked for.
pub proof fn data_packets_fit_the_device(here: Line, now: u64, guest_ip: Ipv4Address)
    requires
        here.conn.wf(),
        here.conn.sendable() > 0,
    ensures
        here.after_chunk(now, guest_ip).frames.drop_last() == here.frames,
        here.after_chunk(now, guest_ip).frames.last().len() == 40 + here.conn.sendable(),
        here.after_chunk(now, guest_ip).frames.last().len() <= 1500,
{
    reveal(tcp_packet);
    assert(here.after_chunk(now, guest_ip).frames.drop_last() =~= here.frames);
}

/// Sending never puts more in flight than the guest's window holds.
pub proof fn sending_respects_the_window(here: Line, now: u64, guest_ip: Ipv4Address)
    requires
        here.conn.in_flight() <= here.conn.guest_window,
    ensures
        here.flushed(now, guest_ip).conn.in_flight() <= here.conn.guest_window,
    decreases here.conn.pending.len(),
{
    reveal(Line::flushed);
    if here.conn.sendable() > 0 {
        let after = here.after_chunk(now, guest_ip);
        let count = here.conn.sendable();
        assert(after.conn.in_flight() == here.conn.in_flight() + count);
        sending_respects_the_window(after, now, guest_ip);
    }
}

/// Resending touches no byte of the stream: the connection stays as it is.
pub proof fn resending_changes_nothing(here: Line, index: int, guest_ip: Ipv4Address)
    ensures
        here.resent(index, guest_ip).conn == here.conn,
    decreases here.conn.unacked.len() - index,
{
    reveal(Line::resent);
    if 0 <= index < here.conn.unacked.len() {
        resending_changes_nothing(here.after_resend(index, guest_ip), index + 1, guest_ip);
    }
}

} // verus!
