//! Where the host's bytes stand on their way to the guest, read off the packets themselves.

use vstd::prelude::*;

use crate::net::host::EventView;
use crate::net::ipv4::Ipv4Address;
use crate::net::tcp_conn::{trimmed, ConnKey, ConnView, Line, OutSegView, Scene};
use crate::net::tcp_laws::{acks_drop_what_they_cover, packets_verify};
use crate::net::tcp_segment::SegmentView;

verus! {

/// The segment in a packet to the guest.
pub open spec fn carried(data: Seq<u8>) -> SegmentView {
    crate::net::tcp_segment::segment_of(crate::net::ipv4::packet_of(data).payload)
}

/// Whether a packet is a whole one, with its checksums right, from the remote end of a
/// connection to the guest's port.
pub open spec fn comes_from(data: Seq<u8>, key: ConnKey, guest_ip: Ipv4Address) -> bool {
    let packet = crate::net::ipv4::packet_of(data);
    &&& crate::net::ipv4::is_packet(data)
    &&& packet.src == key.remote_addr
    &&& packet.dst == guest_ip
    &&& packet.protocol == 6
    &&& crate::net::tcp_segment::is_segment(packet.payload)
    &&& crate::net::tcp_segment::verifies(packet.src, packet.dst, packet.payload)
    &&& carried(data).sport == key.remote_port
    &&& carried(data).dport == key.local_port
}

/// Whether the bytes stand in the stream from position `start` on.
pub open spec fn stands_at(stream: Seq<u8>, bytes: Seq<u8>, start: int) -> bool {
    0 <= start && start + bytes.len() <= stream.len() && bytes == stream.subrange(start, start + bytes.len())
}

/// Whether the bytes stand in the stream where the sequence number tells: the first byte
/// of the stream has the number after that of the answer to the SYN.
pub open spec fn in_place(isn: u32, stream: Seq<u8>, seq: u32, bytes: Seq<u8>) -> bool {
    exists|start: int| #[trigger] stands_at(stream, bytes, start) && seq == (isn + 1 + start) % 0x1_0000_0000
}

/// Whether `stream` is what the host's side of a connection has sent so far: the next
/// number follows it, and every segment that waits for an acknowledgement is a piece of it
/// in its place, or the answer to the SYN.
pub open spec fn has_sent(conn: ConnView, stream: Seq<u8>) -> bool {
    &&& conn.our_next == (conn.our_isn + 1 + stream.len()) % 0x1_0000_0000
    &&& forall|i: int|
        0 <= i < conn.unacked.len() ==> {
            let segment = #[trigger] conn.unacked[i];
            if segment.syn {
                segment.seq == conn.our_isn && segment.bytes.len() == 0
            } else {
                in_place(conn.our_isn, stream, segment.seq, segment.bytes)
            }
        }
}

proof fn lemma_sent(
    here: Line,
    seq: u32,
    flags: u8,
    window: u16,
    options: Seq<u8>,
    payload: Seq<u8>,
    guest_ip: Ipv4Address,
)
    requires
        options.len() == 0 || options.len() == 4,
        payload.len() <= 1460,
    ensures
        ({
            let after = here.sent(seq, flags, window, options, payload, guest_ip);
            let data = after.frames[here.frames.len() as int];
            &&& after.frames.len() == here.frames.len() + 1
            &&& after.frames.take(here.frames.len() as int) == here.frames
            &&& after.conn == here.conn
            &&& comes_from(data, here.conn.key, guest_ip)
            &&& carried(data).seq == seq
            &&& carried(data).ack == here.conn.guest_next
            &&& carried(data).flags == flags
            &&& carried(data).window == window
            &&& carried(data).options == options
            &&& carried(data).payload == payload
        }),
{
    packets_verify(here.conn.key, seq, here.conn.guest_next, flags, window, options, payload, guest_ip, here.ip_id);
    let after = here.sent(seq, flags, window, options, payload, guest_ip);
    assert(after.frames.take(here.frames.len() as int) =~= here.frames);
}

/// Whether a packet repeats a segment as it was sent first: at its sequence number, with
/// its bytes, and the answer to the SYN with its flag and our MSS.
pub open spec fn repeats(data: Seq<u8>, conn: ConnView, segment: OutSegView, guest_ip: Ipv4Address) -> bool {
    &&& comes_from(data, conn.key, guest_ip)
    &&& carried(data).seq == segment.seq
    &&& carried(data).payload == segment.bytes
    &&& carried(data).ack == conn.guest_next
    &&& carried(data).window == 0xFFFF
    &&& carried(data).flags == if segment.syn { 0x12u8 } else { 0x10u8 }
    &&& carried(data).options == if segment.syn { seq![2u8, 4, 5, 0xB4] } else { Seq::<u8>::empty() }
}

proof fn lemma_resent(here: Line, index: int, guest_ip: Ipv4Address, i: int)
    requires
        here.conn.wf(),
        0 <= index <= here.conn.unacked.len(),
        index <= i,
    ensures
        ({
            let after = here.resent(index, guest_ip);
            &&& after.conn == here.conn
            &&& after.frames.len() == here.frames.len() + here.conn.unacked.len() - index
            &&& after.frames.take(here.frames.len() as int) == here.frames
            &&& i < here.conn.unacked.len() ==> repeats(
                after.frames[here.frames.len() + i - index],
                here.conn,
                here.conn.unacked[i],
                guest_ip,
            )
        }),
    decreases here.conn.unacked.len() - index,
{
    reveal(Line::resent);
    if index < here.conn.unacked.len() {
        let segment = here.conn.unacked[index];
        let one = here.after_resend(index, guest_ip);
        lemma_sent(
            here,
            segment.seq,
            if segment.syn { 0x12u8 } else { 0x10u8 },
            0xFFFF,
            if segment.syn { seq![2u8, 4, 5, 0xB4] } else { Seq::<u8>::empty() },
            segment.bytes,
            guest_ip,
        );
        let next = if i == index { index + 1 } else { i };
        lemma_resent(one, index + 1, guest_ip, next);
        let after = here.resent(index, guest_ip);
        assert(after.frames.take(here.frames.len() as int) =~= one.frames.take(here.frames.len() as int));
        assert(after.frames[here.frames.len() as int] == after.frames.take(one.frames.len() as int)[here.frames.len() as int]);
    } else {
        assert(here.frames.take(here.frames.len() as int) =~= here.frames);
    }
}

/// When the timer runs out within the retry budget, every unacknowledged segment goes out
/// again in order, at the sequence number and with the bytes that were recorded for it, and
/// goes on waiting; the timer then runs for another 750 milliseconds.
pub proof fn retransmissions_repeat_what_was_sent(here: Scene, now: u64, guest_ip: Ipv4Address, i: int)
    requires
        here.conn.wf(),
        here.conn.retransmit_deadline is Some,
        now >= here.conn.retransmit_deadline->0,
        now <= u64::MAX - 750,
        here.conn.retransmits < 8,
        0 <= i < here.conn.unacked.len(),
    ensures
        ({
            let after = here.after_timer(now, guest_ip);
            &&& after.frames.len() == here.frames.len() + here.conn.unacked.len()
            &&& after.frames.take(here.frames.len() as int) == here.frames
            &&& repeats(after.frames[here.frames.len() + i], here.conn, here.conn.unacked[i], guest_ip)
            &&& after.conn.unacked == here.conn.unacked
            &&& after.conn.our_next == here.conn.our_next
            &&& after.conn.retransmits == here.conn.retransmits + 1
            &&& after.conn.retransmit_deadline == Some((now + 750) as u64)
            &&& after.conn.closed == here.conn.closed
        }),
{
    reveal(Scene::after_timer);
    reveal(Scene::after_try);
    let counted = Scene { conn: ConnView { retransmits: here.conn.tries(), ..here.conn }, ..here };
    lemma_resent(counted.line(), 0, guest_ip, i);
}

/// A FIN that is still unacknowledged when the timer runs out goes out again, at its own
/// sequence number.
pub proof fn an_unacknowledged_fin_is_repeated(here: Scene, now: u64, guest_ip: Ipv4Address)
    requires
        here.conn.retransmit_deadline is Some,
        now >= here.conn.retransmit_deadline->0,
        here.conn.retransmits < 8,
        here.conn.unacked.len() == 0,
        here.conn.fin_sent,
        !here.conn.fin_acked,
    ensures
        ({
            let after = here.after_timer(now, guest_ip);
            let data = after.frames[here.frames.len() as int];
            &&& after.frames.len() == here.frames.len() + 1
            &&& comes_from(data, here.conn.key, guest_ip)
            &&& carried(data).seq == here.conn.fin_seq
            &&& carried(data).ack == here.conn.guest_next
            &&& carried(data).flags == 0x11
            &&& carried(data).payload.len() == 0
            &&& after.conn.closed == here.conn.closed
        }),
{
    reveal(Scene::after_timer);
    reveal(Scene::after_try);
    lemma_sent(here.line(), here.conn.fin_seq, 0x11, 0xFFFF, Seq::empty(), Seq::empty(), guest_ip);
}

/// Before its time the timer does nothing, and past the retry budget the connection is
/// reset at the next sequence number.
pub proof fn the_timer_waits_and_gives_up(here: Scene, now: u64, guest_ip: Ipv4Address)
    ensures
        here.conn.retransmit_deadline is None ==> here.after_timer(now, guest_ip) == here,
        here.conn.retransmit_deadline matches Some(deadline) ==> {
            &&& now < deadline ==> here.after_timer(now, guest_ip) == here
            &&& now >= deadline && here.conn.retransmits >= 8 ==> {
                let after = here.after_timer(now, guest_ip);
                let data = after.frames[here.frames.len() as int];
                &&& after.frames.len() == here.frames.len() + 1
                &&& comes_from(data, here.conn.key, guest_ip)
                &&& carried(data).seq == here.conn.our_next
                &&& carried(data).ack == here.conn.guest_next
                &&& carried(data).flags == 0x14
                &&& carried(data).payload.len() == 0
                &&& after.conn.closed
            }
        },
{
    reveal(Scene::after_timer);
    reveal(Scene::after_try);
    lemma_sent(here.line(), here.conn.our_next, 0x14, 0, Seq::empty(), Seq::empty(), guest_ip);
}

proof fn lemma_in_place_grows(isn: u32, stream: Seq<u8>, more: Seq<u8>, seq: u32, bytes: Seq<u8>)
    requires
        in_place(isn, stream, seq, bytes),
    ensures
        in_place(isn, stream + more, seq, bytes),
{
    let start = choose|start: int| #[trigger] stands_at(stream, bytes, start) && seq == (isn + 1 + start) % 0x1_0000_0000;
    assert(stands_at(stream + more, bytes, start)) by {
        assert((stream + more).subrange(start, start + bytes.len()) =~= stream.subrange(start, start + bytes.len()));
    }
}

/// The first sending of a piece of the host's data: the packet has it at the next sequence
/// number, which moves on behind it, and the same is recorded for retransmission.
pub proof fn data_goes_out_at_its_place(here: Line, stream: Seq<u8>, now: u64, guest_ip: Ipv4Address)
    requires
        here.conn.wf(),
        has_sent(here.conn, stream),
        here.conn.sendable() > 0,
    ensures
        ({
            let after = here.after_chunk(now, guest_ip);
            let data = after.frames[here.frames.len() as int];
            let count = here.conn.pending.len() - after.conn.pending.len();
            let piece = here.conn.pending.take(count);
            &&& count > 0
            &&& after.frames.len() == here.frames.len() + 1
            &&& after.frames.take(here.frames.len() as int) == here.frames
            &&& comes_from(data, here.conn.key, guest_ip)
            &&& carried(data).flags == 0x10
            &&& carried(data).window == 0xFFFF
            &&& carried(data).ack == here.conn.guest_next
            &&& carried(data).seq == (here.conn.our_isn + 1 + stream.len()) % 0x1_0000_0000
            &&& carried(data).payload == piece
            &&& after.conn.pending == here.conn.pending.skip(count)
            &&& after.conn.unacked == here.conn.unacked.push(
                OutSegView { seq: carried(data).seq, bytes: carried(data).payload, syn: false },
            )
            &&& has_sent(after.conn, stream + piece)
        }),
{
    let after = here.after_chunk(now, guest_ip);
    let count = here.conn.sendable();
    let piece = here.conn.pending.take(count);
    lemma_sent(here, here.conn.our_next, 0x10, 0xFFFF, Seq::empty(), piece, guest_ip);
    let whole = stream + piece;
    assert forall|i: int| 0 <= i < after.conn.unacked.len() implies {
        let segment = #[trigger] after.conn.unacked[i];
        if segment.syn {
            segment.seq == here.conn.our_isn && segment.bytes.len() == 0
        } else {
            in_place(here.conn.our_isn, whole, segment.seq, segment.bytes)
        }
    } by {
        if i < here.conn.unacked.len() {
            let segment = here.conn.unacked[i];
            assert(after.conn.unacked[i] == segment);
            if !segment.syn {
                lemma_in_place_grows(here.conn.our_isn, stream, piece, segment.seq, segment.bytes);
            }
        } else {
            assert(whole.subrange(stream.len() as int, (stream.len() + piece.len()) as int) =~= piece);
            assert(stands_at(whole, piece, stream.len() as int));
        }
    }
    let isn = here.conn.our_isn;
    assert(after.conn.our_next == (isn + 1 + whole.len()) % 0x1_0000_0000);
}

/// Whatever the window lets out, every packet of it has host data at the place of the
/// stream that its sequence number tells.
pub proof fn every_data_packet_is_in_place(here: Line, stream: Seq<u8>, now: u64, guest_ip: Ipv4Address, i: int)
    requires
        here.conn.wf(),
        has_sent(here.conn, stream),
        here.frames.len() <= i,
    ensures
        ({
            let after = here.flushed(now, guest_ip);
            let count = here.conn.pending.len() - after.conn.pending.len();
            &&& 0 <= count
            &&& here.frames.len() <= after.frames.len()
            &&& after.frames.take(here.frames.len() as int) == here.frames
            &&& after.conn.pending == here.conn.pending.skip(count)
            &&& has_sent(after.conn, stream + here.conn.pending.take(count))
            &&& i < after.frames.len() ==> {
                let data = after.frames[i];
                &&& comes_from(data, here.conn.key, guest_ip)
                &&& carried(data).payload.len() > 0
                &&& carried(data).ack == here.conn.guest_next
                &&& in_place(here.conn.our_isn, stream + here.conn.pending, carried(data).seq, carried(data).payload)
            }
        }),
    decreases here.conn.pending.len(),
{
    reveal(Line::flushed);
    let after = here.flushed(now, guest_ip);
    if here.conn.sendable() > 0 {
        let one = here.after_chunk(now, guest_ip);
        let first = here.conn.sendable();
        let piece = here.conn.pending.take(first);
        data_goes_out_at_its_place(here, stream, now, guest_ip);
        assert(one.conn.wf()) by {
            assert forall|k: int| 0 <= k < one.conn.unacked.len() implies (#[trigger] one.conn.unacked[k]).bytes.len()
                <= 1460 by {
                if k < here.conn.unacked.len() {
                    assert(one.conn.unacked[k] == here.conn.unacked[k]);
                }
            }
        }
        let next = if i == here.frames.len() { i + 1 } else { i };
        every_data_packet_is_in_place(one, stream + piece, now, guest_ip, next);
        let rest = one.conn.pending.len() - after.conn.pending.len();
        let count = here.conn.pending.len() - after.conn.pending.len();
        assert((stream + piece) + one.conn.pending.take(rest) =~= stream + here.conn.pending.take(count));
        assert((stream + piece) + one.conn.pending =~= stream + here.conn.pending);
        assert(one.conn.pending.skip(rest) =~= here.conn.pending.skip(count));
        assert(after.frames.take(here.frames.len() as int) =~= one.frames.take(here.frames.len() as int));
        if i == here.frames.len() {
            assert(after.frames[i] == after.frames.take(one.frames.len() as int)[i]);
            assert(stands_at(stream + here.conn.pending, piece, stream.len() as int)) by {
                assert((stream + here.conn.pending).subrange(stream.len() as int, (stream.len() + piece.len()) as int)
                    =~= piece);
            }
        }
    } else {
        assert(here.frames.take(here.frames.len() as int) =~= here.frames);
        assert(here.conn.pending.skip(0) =~= here.conn.pending);
        assert(stream + here.conn.pending.take(0) =~= stream);
    }
}

/// So does every packet of a retransmission: it is the answer to the SYN, or has host data
/// at its place.
pub proof fn every_resent_packet_is_in_place(
    here: Scene,
    stream: Seq<u8>,
    now: u64,
    guest_ip: Ipv4Address,
    i: int,
)
    requires
        here.conn.wf(),
        has_sent(here.conn, stream),
        here.conn.retransmit_deadline is Some,
        here.conn.retransmit_deadline->0 <= now <= u64::MAX - 750,
        here.conn.retransmits < 8,
        0 <= i < here.conn.unacked.len(),
    ensures
        ({
            let after = here.after_timer(now, guest_ip);
            let segment = carried(after.frames[here.frames.len() + i]);
            &&& comes_from(after.frames[here.frames.len() + i], here.conn.key, guest_ip)
            &&& segment.flags == 0x12 && segment.seq == here.conn.our_isn && segment.payload.len() == 0
                || segment.flags == 0x10 && in_place(here.conn.our_isn, stream, segment.seq, segment.payload)
            &&& has_sent(after.conn, stream)
        }),
{
    retransmissions_repeat_what_was_sent(here, now, guest_ip, i);
    reveal(Scene::after_timer);
    reveal(Scene::after_try);
    let counted = Scene { conn: ConnView { retransmits: here.conn.tries(), ..here.conn }, ..here };
    lemma_resent(counted.line(), 0, guest_ip, i);
}

/// The host's FIN stands behind the whole of the stream.
pub proof fn the_fin_follows_the_stream(here: Line, stream: Seq<u8>, now: u64, guest_ip: Ipv4Address)
    requires
        has_sent(here.conn, stream),
        here.conn.fin_pending,
        !here.conn.fin_sent,
        here.conn.pending.len() == 0,
        here.conn.unacked.len() == 0,
    ensures
        ({
            let after = here.after_own_fin(now, guest_ip);
            let data = after.frames[here.frames.len() as int];
            let place = (here.conn.our_isn + 1 + stream.len()) % 0x1_0000_0000;
            &&& after.frames.len() == here.frames.len() + 1
            &&& comes_from(data, here.conn.key, guest_ip)
            &&& carried(data).flags == 0x11
            &&& carried(data).seq == place
            &&& carried(data).ack == here.conn.guest_next
            &&& carried(data).payload.len() == 0
            &&& after.conn.fin_sent
            &&& after.conn.fin_seq == place
            &&& after.conn.our_next == (place + 1) % 0x1_0000_0000
        }),
{
    reveal(Line::after_own_fin);
    lemma_sent(here, here.conn.our_next, 0x11, 0xFFFF, Seq::empty(), Seq::empty(), guest_ip);
}

/// A guest's SYN opens a connection that has sent nothing and expects the number after the
/// SYN's.
pub proof fn a_fresh_connection_has_sent_nothing(key: ConnKey, segment: SegmentView, isn: u32)
    ensures
        ({
            let conn = crate::net::tcp::fresh(key, segment, isn);
            &&& has_sent(conn, Seq::empty())
            &&& conn.our_isn == isn
            &&& conn.our_una == isn
            &&& conn.guest_next == (segment.seq + 1) % 0x1_0000_0000
            &&& conn.guest_window == segment.window
            &&& !conn.established
            &&& !conn.closed
        }),
{
}

/// Once the host is connected, the answer to the SYN goes out: it acknowledges the SYN,
/// has the initial sequence number and tells our MSS of 1460 bytes.
pub proof fn connecting_answers_the_syn(here: Scene, stream: Seq<u8>, now: u64, guest_ip: Ipv4Address)
    requires
        !here.conn.established,
        here.conn.unacked.len() == 0,
        has_sent(here.conn, stream),
    ensures
        ({
            let after = here.after_event(EventView::Connected, now, guest_ip);
            let data = after.frames[here.frames.len() as int];
            &&& after.frames.len() == here.frames.len() + 1
            &&& comes_from(data, here.conn.key, guest_ip)
            &&& carried(data).flags == 0x12
            &&& carried(data).seq == here.conn.our_isn
            &&& carried(data).ack == here.conn.guest_next
            &&& carried(data).options == seq![2u8, 4, 0x05, 0xB4]
            &&& carried(data).payload.len() == 0
            &&& has_sent(after.conn, stream)
        }),
{
    lemma_sent(here.line(), here.conn.our_isn, 0x12, 0xFFFF, seq![2u8, 4, 5, 0xB4], Seq::empty(), guest_ip);
}

/// A host that cannot be reached is told to the guest with a reset that acknowledges its
/// SYN, and the connection closes.
pub proof fn failing_to_connect_resets(here: Scene, message: Seq<char>, now: u64, guest_ip: Ipv4Address)
    ensures
        ({
            let after = here.after_event(EventView::ConnectFailed(message), now, guest_ip);
            let data = after.frames[here.frames.len() as int];
            &&& after.frames.len() == here.frames.len() + 1
            &&& comes_from(data, here.conn.key, guest_ip)
            &&& carried(data).flags == 0x14
            &&& carried(data).seq == here.conn.our_isn
            &&& carried(data).ack == here.conn.guest_next
            &&& carried(data).payload.len() == 0
            &&& after.conn.closed
        }),
{
    lemma_sent(here.line(), here.conn.our_isn, 0x14, 0, Seq::empty(), Seq::empty(), guest_ip);
}

/// An acknowledgement takes from the front every segment that ends at or before it, and
/// no other.
pub proof fn acks_leave_what_they_do_not_cover(unacked: Seq<OutSegView>, ack: u32)
    ensures
        trimmed(unacked, ack).len() > 0 ==> {
            let first = trimmed(unacked, ack)[0];
            let end = first.seq + first.bytes.len() + if first.syn { 1int } else { 0int };
            (ack - end) % 0x1_0000_0000 >= 0x8000_0000
        },
        forall|i: int|
            0 <= i < unacked.len() - trimmed(unacked, ack).len() ==> {
                let gone = #[trigger] unacked[i];
                let end = gone.seq + gone.bytes.len() + if gone.syn { 1int } else { 0int };
                (ack - end) % 0x1_0000_0000 < 0x8000_0000
            },
    decreases unacked.len(),
{
    acks_drop_what_they_cover(unacked, ack);
    assert forall|i: int| 0 <= i < unacked.len() - trimmed(unacked, ack).len() implies {
        let gone = #[trigger] unacked[i];
        let end = gone.seq + gone.bytes.len() + if gone.syn { 1int } else { 0int };
        (ack - end) % 0x1_0000_0000 < 0x8000_0000
    } by {
        lemma_covers(unacked[i], ack);
    }
    if unacked.len() > 0 {
        lemma_covers(unacked[0], ack);
        acks_leave_what_they_do_not_cover(unacked.skip(1), ack);
    }
}

proof fn lemma_covers(segment: OutSegView, ack: u32)
    ensures
        ({
            let end = segment.seq + segment.bytes.len() + if segment.syn { 1int } else { 0int };
            crate::net::tcp_conn::at_or_after(ack, crate::net::tcp_conn::segment_end(segment)) == ((ack - end)
                % 0x1_0000_0000 < 0x8000_0000)
        }),
{
    let end = segment.seq + segment.bytes.len() + if segment.syn { 1int } else { 0int };
    let wrapped = end % 0x1_0000_0000;
    assert(crate::net::tcp_conn::segment_end(segment) == wrapped);
    let turns = end / 0x1_0000_0000;
    assert(end == 0x1_0000_0000 * turns + wrapped);
    assert((ack - end) % 0x1_0000_0000 == (ack - wrapped) % 0x1_0000_0000);
}

/// Acknowledgements take nothing away from what has been sent, and tell when the handshake
/// is done and the FIN has arrived.
pub proof fn acks_keep_the_stream(conn: ConnView, stream: Seq<u8>, ack: u32, window: u16)
    requires
        has_sent(conn, stream),
    ensures
        ({
            let after = conn.after_ack(ack, window);
            let known = (ack - conn.our_una) % 0x1_0000_0000 <= (conn.our_next - conn.our_una) % 0x1_0000_0000;
            &&& has_sent(after, stream)
            &&& after.guest_window == window
            &&& after.our_una == if known { ack } else { conn.our_una }
            &&& after.established == (conn.established || known && ack == (conn.our_isn + 1) % 0x1_0000_0000)
            &&& after.fin_acked == (conn.fin_acked || known && conn.fin_sent && ack == conn.our_next)
            &&& known && ack != conn.our_una ==> after.retransmits == 0 && after.unacked == trimmed(conn.unacked, ack)
            &&& !known || ack == conn.our_una ==> after.retransmits == conn.retransmits && after.unacked == conn.unacked
            &&& after.pending == conn.pending
            &&& after.guest_next == conn.guest_next
        }),
{
    reveal(ConnView::after_ack);
    acks_drop_what_they_cover(conn.unacked, ack);
    let after = conn.after_ack(ack, window);
    let gone = conn.unacked.len() - after.unacked.len();
    assert forall|i: int| 0 <= i < after.unacked.len() implies {
        let segment = #[trigger] after.unacked[i];
        if segment.syn {
            segment.seq == conn.our_isn && segment.bytes.len() == 0
        } else {
            in_place(conn.our_isn, stream, segment.seq, segment.bytes)
        }
    } by {
        assert(after.unacked[i] == conn.unacked[i + gone]);
    }
}

/// Data of the guest that comes next goes to the host as it is, and is acknowledged up to
/// its end; with a FIN behind it the acknowledgement covers that too, and the host's side
/// learns that no more will come.
pub proof fn data_in_order_is_taken_and_acknowledged(
    here: Scene,
    payload: Seq<u8>,
    fin: bool,
    guest_ip: Ipv4Address,
)
    requires
        here.conn.established,
        !here.conn.guest_fin,
        !here.conn.host_gone,
        here.conn.to_host.len() < crate::net::host::QUEUE_LENGTH,
        payload.len() > 0,
    ensures
        ({
            let after = here.after_body(here.conn.guest_next, payload, fin, guest_ip);
            let data = after.frames[here.frames.len() as int];
            let end = here.conn.guest_next + payload.len() + if fin { 1int } else { 0 };
            &&& after.conn.to_host == here.conn.to_host.push(payload)
            &&& after.conn.guest_next == end % 0x1_0000_0000
            &&& after.conn.guest_fin == fin
            &&& fin ==> after.conn.guest_fin_acked
            &&& after.conn.closed == here.conn.closed
            &&& after.conn.pending == here.conn.pending
            &&& after.conn.unacked == here.conn.unacked
            &&& after.frames.len() == here.frames.len() + 1
            &&& after.frames.take(here.frames.len() as int) == here.frames
            &&& comes_from(data, here.conn.key, guest_ip)
            &&& carried(data).ack == end % 0x1_0000_0000
            &&& carried(data).seq == here.conn.our_next
            &&& carried(data).flags == 0x10
            &&& carried(data).payload.len() == 0
        }),
{
    reveal(Scene::after_body);
    reveal(ConnView::after_body);
    let (conn, acknowledge) = here.conn.after_body(here.conn.guest_next, payload, fin);
    let taken = Scene { conn, ..here };
    lemma_sent(taken.line(), conn.our_next, 0x10, 0xFFFF, Seq::empty(), Seq::empty(), guest_ip);
    let middle = (here.conn.guest_next + payload.len()) % 0x1_0000_0000;
    assert((middle + 1) % 0x1_0000_0000 == (here.conn.guest_next + payload.len() + 1) % 0x1_0000_0000);
}

/// A connection closes once both sides have sent a FIN and both are acknowledged. Where the
/// guest has acknowledged ours and sends none, it is kept for thirty seconds from the first
/// poll that finds it so; in every other case it stays as it is.
pub proof fn connections_close_after_both_fins(conn: ConnView, now: u64)
    requires
        now <= u64::MAX - 30_000,
    ensures
        ({
            let after = conn.after_teardown(now);
            let over = conn.fin_sent && conn.fin_acked && conn.guest_fin && conn.guest_fin_acked;
            let lingers = conn.fin_acked && !conn.guest_fin;
            &&& over ==> after.closed
            &&& lingers && conn.linger_deadline is None ==> after.linger_deadline == Some((now + 30_000) as u64)
                && after.closed == conn.closed
            &&& lingers && conn.linger_deadline is Some ==> after.linger_deadline == conn.linger_deadline && after.closed
                == (conn.closed || now >= conn.linger_deadline->0)
            &&& !over && !lingers ==> after == conn
            &&& after.pending == conn.pending
            &&& after.unacked == conn.unacked
            &&& after.guest_next == conn.guest_next
            &&& after.our_next == conn.our_next
        }),
{
}

/// A reset of the guest at the number that is expected, or right before it, closes the
/// connection without an answer; one elsewhere changes nothing.
pub proof fn resets_close_only_in_place(here: Scene, segment: SegmentView, guest_ip: Ipv4Address)
    requires
        segment.flags == 0x04 || segment.flags == 0x14,
    ensures
        ({
            let after = here.after_segment(segment, guest_ip);
            let distance = (segment.seq - here.conn.guest_next) % 0x1_0000_0000;
            if distance == 0 || distance == 0xFFFF_FFFF {
                after.conn.closed && after.frames == here.frames && after.conn.to_host == here.conn.to_host
            } else {
                after == here
            }
        }),
{
}

/// The host's data and the end of it: data waits behind what waits already, and once the
/// host has closed a FIN is due.
pub proof fn host_events_are_taken_in_order(here: Scene, bytes: Seq<u8>, now: u64, guest_ip: Ipv4Address)
    ensures
        ({
            let data = here.after_event(EventView::Data(bytes), now, guest_ip);
            let end = here.after_event(EventView::Eof, now, guest_ip);
            &&& data.conn.pending == here.conn.pending + bytes
            &&& data.conn.fin_pending == here.conn.fin_pending
            &&& data.frames == here.frames
            &&& data.conn.unacked == here.conn.unacked
            &&& data.conn.our_next == here.conn.our_next
            &&& end.conn.pending == here.conn.pending
            &&& end.conn.fin_pending
            &&& end.frames == here.frames
            &&& end.conn.closed == here.conn.closed
        }),
{
}

/// How much goes out in one segment: no more than the guest's MSS, no more than what its
/// window leaves beside the bytes in flight, no more than there is, and as much as that;
/// nothing while 64 segments wait for an acknowledgement.
pub proof fn segments_fill_the_window(conn: ConnView)
    ensures
        ({
            let flight = (conn.our_next - conn.our_una) % 0x1_0000_0000;
            let count = conn.sendable();
            &&& count <= conn.pending.len()
            &&& count > 0 ==> count <= conn.guest_mss && flight + count <= conn.guest_window && conn.unacked.len() < 64
            &&& conn.unacked.len() < 64 && flight < conn.guest_window ==> count == conn.pending.len() || count
                == conn.guest_mss || flight + count == conn.guest_window
            &&& conn.unacked.len() >= 64 || flight >= conn.guest_window ==> count == 0
        }),
{
}

} // verus!
