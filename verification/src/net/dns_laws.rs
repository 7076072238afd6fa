//! What holds of every question that is read and of every answer to it, byte by byte.

use vstd::prelude::*;

use crate::net::dns_question::{
    is_label, name_from, question_in, record, record_data, records_from, with_label, QuestionView,
};
use crate::net::udp::HostAddress;

verus! {

/// Whether bytes make a label: one to 63 letters, digits, hyphens and underscores.
pub open spec fn fits_label(label: Seq<u8>) -> bool {
    &&& 1 <= label.len() <= 63
    &&& forall|i: int|
        0 <= i < label.len() ==> {
            let byte = #[trigger] label[i];
            ||| 48 <= byte <= 57
            ||| 65 <= byte <= 90
            ||| 97 <= byte <= 122
            ||| byte == 45
            ||| byte == 95
        }
}

pub open spec fn all_fit(labels: Seq<Seq<u8>>) -> bool {
    forall|i: int| 0 <= i < labels.len() ==> fits_label(#[trigger] labels[i])
}

/// Labels as they stand in a packet, each behind its length.
pub open spec fn counted(labels: Seq<Seq<u8>>) -> Seq<u8>
    decreases labels.len(),
{
    if labels.len() == 0 {
        Seq::empty()
    } else {
        counted(labels.drop_last()) + seq![labels.last().len() as u8] + labels.last()
    }
}

/// Labels as a name is written: a dot between each two.
pub open spec fn dotted(labels: Seq<Seq<u8>>) -> Seq<u8>
    decreases labels.len(),
{
    if labels.len() == 0 {
        Seq::empty()
    } else if labels.len() == 1 {
        labels[0]
    } else {
        dotted(labels.drop_last()) + seq![46u8] + labels.last()
    }
}

proof fn lemma_lengths(labels: Seq<Seq<u8>>)
    requires
        all_fit(labels),
    ensures
        labels.len() == 0 ==> counted(labels).len() == 0 && dotted(labels).len() == 0,
        labels.len() > 0 ==> counted(labels).len() == dotted(labels).len() + 1 && dotted(labels).len() > 0,
    decreases labels.len(),
{
    if labels.len() > 0 {
        assert(fits_label(labels[labels.len() - 1]));
        assert forall|i: int| 0 <= i < labels.drop_last().len() implies fits_label(#[trigger] labels.drop_last()[i]) by {
            assert(labels.drop_last()[i] == labels[i]);
        }
        lemma_lengths(labels.drop_last());
    }
}

proof fn lemma_take(labels: Seq<Seq<u8>>, count: int)
    requires
        all_fit(labels),
        0 <= count <= labels.len(),
    ensures
        all_fit(labels.take(count)),
        counted(labels.take(count)).len() <= counted(labels).len(),
        counted(labels).take(counted(labels.take(count)).len() as int) == counted(labels.take(count)),
        count < labels.len() ==> {
            &&& counted(labels.take(count + 1)) == counted(labels.take(count)) + seq![labels[count].len() as u8]
                + labels[count]
            &&& dotted(labels.take(count + 1)) == with_label(dotted(labels.take(count)), labels[count])
        },
    decreases labels.len() - count,
{
    assert forall|i: int| 0 <= i < labels.take(count).len() implies fits_label(#[trigger] labels.take(count)[i]) by {
        assert(labels.take(count)[i] == labels[i]);
    }
    if count < labels.len() {
        assert(labels.take(count + 1).drop_last() =~= labels.take(count));
        assert(labels.take(count + 1).last() == labels[count]);
        lemma_lengths(labels.take(count));
        assert(dotted(labels.take(count + 1)) =~= with_label(dotted(labels.take(count)), labels[count]));
        lemma_take(labels, count + 1);
        let next = counted(labels.take(count + 1));
        let here = counted(labels.take(count));
        assert(next.take(here.len() as int) =~= here);
        assert(counted(labels).take(here.len() as int) =~= counted(labels).take(next.len() as int).take(here.len() as int));
    } else {
        assert(labels.take(count) =~= labels);
        assert(counted(labels).take(counted(labels).len() as int) =~= counted(labels));
    }
}

proof fn lemma_read(packet: Seq<u8>, labels: Seq<Seq<u8>>, count: int)
    requires
        all_fit(labels),
        0 <= count <= labels.len(),
        dotted(labels).len() <= 253,
        12int + counted(labels).len() < packet.len(),
        packet.subrange(12, 12int + counted(labels).len()) == counted(labels),
        packet[12int + counted(labels).len()] == 0,
    ensures
        name_from(packet, 12int + counted(labels.take(count)).len(), dotted(labels.take(count))) == Some(
            (dotted(labels), 13int + counted(labels).len()),
        ),
    decreases labels.len() - count,
{
    lemma_take(labels, count);
    lemma_lengths(labels);
    let offset = 12int + counted(labels.take(count)).len();
    if count < labels.len() {
        let label = labels[count];
        assert(fits_label(label));
        lemma_take(labels, count + 1);
        let next = counted(labels.take(count + 1));
        let end = 12int + next.len();
        assert(next == counted(labels).take(next.len() as int));
        assert forall|i: int| 0 <= i < next.len() implies packet[12 + i] == #[trigger] next[i] by {
            assert(next[i] == counted(labels).take(next.len() as int)[i]);
            assert(packet.subrange(12, 12int + counted(labels).len())[i] == packet[12 + i]);
        }
        assert(packet[offset] == next[offset - 12]);
        assert(packet[offset] == label.len());
        assert(packet.subrange(offset + 1, end) =~= label) by {
            assert forall|i: int| 0 <= i < label.len() implies packet[offset + 1 + i] == label[i] by {
                assert(packet[12 + (offset - 12 + 1 + i)] == next[offset - 12 + 1 + i]);
            }
        }
        assert(is_label(label));
        lemma_read(packet, labels, count + 1);
    } else {
        assert(labels.take(count) =~= labels);
    }
}

/// A query for the name of any labels is read as those labels with a dot between each two,
/// and its type and its bytes up to the end of the question with it.
pub proof fn names_are_read_label_by_label(
    header: Seq<u8>,
    labels: Seq<Seq<u8>>,
    kind_high: u8,
    kind_low: u8,
    rest: Seq<u8>,
)
    requires
        header.len() == 12,
        header[2] <= 1,
        header.subrange(4, 10) == seq![0u8, 1, 0, 0, 0, 0],
        labels.len() > 0,
        all_fit(labels),
        dotted(labels).len() <= 253,
        12int + counted(labels).len() + 5 + rest.len() <= 4096,
    ensures
        ({
            let wire = header + counted(labels) + seq![0u8, kind_high, kind_low, 0, 1];
            question_in(wire + rest) == Some(
                QuestionView { wire, name: dotted(labels), kind: (kind_high * 256 + kind_low) as u16 },
            )
        }),
{
    let wire = header + counted(labels) + seq![0u8, kind_high, kind_low, 0, 1];
    let packet = wire + rest;
    lemma_lengths(labels);
    assert(packet.subrange(12, 12int + counted(labels).len()) =~= counted(labels));
    assert(labels.take(0) =~= Seq::<Seq<u8>>::empty());
    lemma_read(packet, labels, 0);
    assert forall|i: int| 4 <= i < 10 implies packet[i] == header.subrange(4, 10)[i - 4] by {}
    assert(packet[4] == header.subrange(4, 10)[0]);
    assert(packet[5] == header.subrange(4, 10)[1]);
    assert(packet[6] == header.subrange(4, 10)[2]);
    assert(packet[7] == header.subrange(4, 10)[3]);
    assert(packet[8] == header.subrange(4, 10)[4]);
    assert(packet[9] == header.subrange(4, 10)[5]);
    let end = 13int + counted(labels).len();
    assert(packet.take(end + 4) =~= wire);
}

proof fn lemma_labels_of(packet: Seq<u8>, offset: int, before: Seq<Seq<u8>>) -> (labels: Seq<Seq<u8>>)
    requires
        12 <= offset <= packet.len(),
        all_fit(before),
        packet.subrange(12, offset) == counted(before),
        name_from(packet, offset, dotted(before)) is Some,
    ensures
        ({
            let (name, end) = name_from(packet, offset, dotted(before))->0;
            &&& all_fit(labels)
            &&& name == dotted(labels)
            &&& end == 13int + counted(labels).len()
            &&& end <= packet.len()
            &&& packet.subrange(12, end) == counted(labels) + seq![0u8]
        }),
    decreases packet.len() - offset,
{
    lemma_lengths(before);
    if packet[offset] == 0 {
        assert(packet.subrange(12, offset + 1) =~= counted(before) + seq![0u8]);
        before
    } else {
        let end = offset + 1 + packet[offset];
        let label = packet.subrange(offset + 1, end);
        let labels = before.push(label);
        assert(labels.drop_last() =~= before);
        assert(fits_label(label)) by {
            assert forall|i: int| 0 <= i < label.len() implies crate::net::dns_question::label_byte(#[trigger] label[i]) by {}
        }
        assert forall|i: int| 0 <= i < labels.len() implies fits_label(#[trigger] labels[i]) by {
            if i < before.len() {
                assert(labels[i] == before[i]);
            }
        }
        assert(packet.subrange(12, end) =~= packet.subrange(12, offset) + seq![packet[offset]] + label);
        assert(counted(labels) == packet.subrange(12, end));
        assert(dotted(labels) =~= with_label(dotted(before), label));
        lemma_labels_of(packet, end, labels)
    }
}

/// And nothing else is read: a packet that gives a question holds labels from its
/// thirteenth byte on, ended by an empty one, and the name is made of them.
pub proof fn read_names_stand_in_the_packet(packet: Seq<u8>) -> (labels: Seq<Seq<u8>>)
    requires
        question_in(packet) is Some,
    ensures
        ({
            let question = question_in(packet)->0;
            let end = 13int + counted(labels).len();
            &&& labels.len() > 0
            &&& all_fit(labels)
            &&& question.name == dotted(labels)
            &&& 1 <= question.name.len() <= 253
            &&& end + 4 <= packet.len() <= 4096
            &&& packet.subrange(12, end) == counted(labels) + seq![0u8]
            &&& question.kind == packet[end] * 256 + packet[end + 1]
            &&& packet[end + 2] == 0
            &&& packet[end + 3] == 1
            &&& question.wire == packet.take(end + 4)
            &&& packet[2] <= 1
            &&& packet.subrange(4, 10) == seq![0u8, 1, 0, 0, 0, 0]
        }),
{
    assert(packet.subrange(12, 12) =~= Seq::<u8>::empty());
    let labels = lemma_labels_of(packet, 12, Seq::empty());
    lemma_lengths(labels);
    assert(packet.subrange(4, 10) =~= seq![0u8, 1, 0, 0, 0, 0]);
    labels
}

/// Whether an address is of the family that a question asks for.
pub open spec fn is_asked(kind: u16, address: HostAddress) -> bool {
    match address {
        HostAddress::V4(_) => kind == 1,
        HostAddress::V6(_) => kind == 28,
    }
}

/// The addresses of the family that a question asks for, in order, each of them once.
pub open spec fn asked(kind: u16, addresses: Seq<HostAddress>) -> Seq<HostAddress>
    decreases addresses.len(),
{
    if addresses.len() == 0 {
        Seq::empty()
    } else {
        let before = asked(kind, addresses.drop_last());
        if is_asked(kind, addresses.last()) && !before.contains(addresses.last()) {
            before.push(addresses.last())
        } else {
            before
        }
    }
}

/// How many bytes an address of the family has.
pub open spec fn address_size(kind: u16) -> int {
    if kind == 1 {
        4
    } else {
        16
    }
}

/// The four bytes from `at` on as a number, high byte first.
pub open spec fn word_at(bytes: Seq<u8>, at: int) -> int {
    bytes[at] * 0x100_0000 + bytes[at + 1] * 0x1_0000 + bytes[at + 2] * 0x100 + bytes[at + 3]
}

/// Whether the bytes from `at` on are those of an address.
pub open spec fn holds_address(bytes: Seq<u8>, at: int, address: HostAddress) -> bool {
    match address {
        HostAddress::V4(ip) => bytes[at] == ip.a && bytes[at + 1] == ip.b && bytes[at + 2] == ip.c && bytes[at + 3]
            == ip.d,
        HostAddress::V6(number) => number == ((word_at(bytes, at) * 0x1_0000_0000 + word_at(bytes, at + 4))
            * 0x1_0000_0000 + word_at(bytes, at + 8)) * 0x1_0000_0000 + word_at(bytes, at + 12),
    }
}

/// Whether an Internet record of a kind stands at `at` for an address: it points back to
/// the name in the question, and may not be cached.
pub open spec fn holds_record(bytes: Seq<u8>, at: int, kind: u16, address: HostAddress) -> bool {
    &&& 0 <= at
    &&& at + 12 + address_size(kind) <= bytes.len()
    &&& bytes[at] == 0xC0 && bytes[at + 1] == 12
    &&& bytes[at + 2] == 0 && bytes[at + 3] == kind
    &&& bytes[at + 4] == 0 && bytes[at + 5] == 1
    &&& bytes[at + 6] == 0 && bytes[at + 7] == 0 && bytes[at + 8] == 0 && bytes[at + 9] == 0
    &&& bytes[at + 10] == 0 && bytes[at + 11] == address_size(kind)
    &&& holds_address(bytes, at + 12, address)
}

proof fn lemma_word(value: u32)
    ensures
        word_at(crate::net::tcp_segment::be32_bytes(value), 0) == value,
{
}

proof fn lemma_record(kind: u16, address: HostAddress)
    requires
        is_asked(kind, address),
    ensures
        record_data(kind, address) is Some,
        record(kind, record_data(kind, address)->0).len() == 12 + address_size(kind),
        holds_record(record(kind, record_data(kind, address)->0), 0, kind, address),
{
    let data = record_data(kind, address)->0;
    let bytes = record(kind, data);
    match address {
        HostAddress::V4(ip) => {
            assert(data.len() == 4);
        },
        HostAddress::V6(number) => {
            let first = (number / 0x1_0000_0000_0000_0000_0000_0000) as u32;
            let second = ((number / 0x1_0000_0000_0000_0000) % 0x1_0000_0000) as u32;
            let third = ((number / 0x1_0000_0000) % 0x1_0000_0000) as u32;
            let fourth = (number % 0x1_0000_0000) as u32;
            lemma_word(first);
            lemma_word(second);
            lemma_word(third);
            lemma_word(fourth);
            assert(data.len() == 16);
            assert(word_at(bytes, 12) == first);
            assert(word_at(bytes, 16) == second);
            assert(word_at(bytes, 20) == third);
            assert(word_at(bytes, 24) == fourth);
            let a = number as int / 0x1_0000_0000;
            let b = a / 0x1_0000_0000;
            let c = b / 0x1_0000_0000;
            assert(b == number as int / 0x1_0000_0000_0000_0000);
            assert(c == number as int / 0x1_0000_0000_0000_0000_0000_0000);
        },
    }
}

proof fn lemma_asked_take(kind: u16, addresses: Seq<HostAddress>, from: int)
    requires
        0 <= from <= addresses.len(),
    ensures
        asked(kind, addresses.take(from)).len() <= asked(kind, addresses).len(),
        asked(kind, addresses.take(from)) == asked(kind, addresses).take(asked(kind, addresses.take(from)).len() as int),
        from < addresses.len() ==> asked(kind, addresses.take(from + 1)) == (if is_asked(kind, addresses[from]) && !asked(
            kind,
            addresses.take(from),
        ).contains(addresses[from]) {
            asked(kind, addresses.take(from)).push(addresses[from])
        } else {
            asked(kind, addresses.take(from))
        }),
    decreases addresses.len() - from,
{
    let here = asked(kind, addresses.take(from));
    if from < addresses.len() {
        assert(addresses.take(from + 1).drop_last() =~= addresses.take(from));
        assert(addresses.take(from + 1).last() == addresses[from]);
        lemma_asked_take(kind, addresses, from + 1);
        let next = asked(kind, addresses.take(from + 1));
        assert(next.take(here.len() as int) =~= here);
        assert(asked(kind, addresses).take(here.len() as int) =~= asked(kind, addresses).take(next.len() as int).take(
            here.len() as int,
        ));
    } else {
        assert(addresses.take(from) =~= addresses);
        assert(asked(kind, addresses).take(here.len() as int) =~= here);
    }
}

/// The number of addresses that have room behind the question.
pub open spec fn room(start: nat, kind: u16, addresses: Seq<HostAddress>) -> int {
    let size = 12 + address_size(kind);
    let fit = if start > 512 {
        0
    } else {
        (512 - start) / size
    };
    if asked(kind, addresses).len() <= fit {
        asked(kind, addresses).len() as int
    } else {
        fit
    }
}

proof fn lemma_collected(start: nat, kind: u16, addresses: Seq<HostAddress>, from: int, bytes: Seq<u8>)
    requires
        kind == 1 || kind == 28,
        0 <= from <= addresses.len(),
        bytes.len() == (12 + address_size(kind)) * asked(kind, addresses.take(from)).len(),
        bytes.len() == 0 || start + bytes.len() <= 512,
        forall|i: int|
            #![trigger asked(kind, addresses.take(from))[i]]
            0 <= i < asked(kind, addresses.take(from)).len() ==> holds_record(
                bytes,
                i * (12 + address_size(kind)),
                kind,
                asked(kind, addresses.take(from))[i],
            ),
    ensures
        ({
            let records = records_from(start, kind, addresses, from, asked(kind, addresses.take(from)), bytes);
            let size = 12 + address_size(kind);
            let count = room(start, kind, addresses);
            &&& records.seen == asked(kind, addresses).take(count)
            &&& records.seen.len() == count
            &&& records.truncated == (count < asked(kind, addresses).len())
            &&& records.bytes.len() == size * count
            &&& forall|i: int|
                #![trigger asked(kind, addresses)[i]]
                0 <= i < count ==> holds_record(records.bytes, i * size, kind, asked(kind, addresses)[i])
        }),
    decreases addresses.len() - from,
{
    let size = 12 + address_size(kind);
    let here = asked(kind, addresses.take(from));
    let all = asked(kind, addresses);
    lemma_asked_take(kind, addresses, from);
    let fit = if start > 512 { 0 } else { (512 - start) / size };
    if start <= 512 {
        lemma_fits(size, here.len() as int, 512 - start);
    } else {
        lemma_fits(size, here.len() as int, 0);
    }
    assert(here.len() <= fit);
    if from < addresses.len() {
        let address = addresses[from];
        if here.contains(address) || !is_asked(kind, address) {
            lemma_collected(start, kind, addresses, from + 1, bytes);
        } else {
            lemma_record(kind, address);
            let data = record_data(kind, address)->0;
            let entry = record(kind, data);
            assert(data.len() == address_size(kind));
            lemma_asked_take(kind, addresses, from + 1);
            let next = asked(kind, addresses.take(from + 1));
            if start + bytes.len() + 12 + data.len() <= 512 {
                let longer = bytes + entry;
                assert forall|i: int| #![trigger next[i]] 0 <= i < next.len() implies holds_record(
                    longer,
                    i * size,
                    kind,
                    next[i],
                ) by {
                    if i < here.len() {
                        assert(next[i] == here[i]);
                        assert(holds_record(bytes, i * size, kind, here[i]));
                        lemma_asked_are(kind, addresses.take(from), i);
                        assert(longer.subrange(i * size, i * size + size) =~= bytes.subrange(i * size, i * size + size));
                        lemma_moved(bytes, i * size, longer, i * size, kind, here[i]);
                    } else {
                        assert(i * size == bytes.len()) by (nonlinear_arith)
                            requires
                                i == here.len(),
                                bytes.len() == size * here.len(),
                        ;
                        assert(longer.subrange(i * size, i * size + size) =~= entry.subrange(0, size));
                        lemma_moved(entry, 0, longer, i * size, kind, address);
                    }
                }
                assert(longer.len() == size * next.len()) by (nonlinear_arith)
                    requires
                        longer.len() == bytes.len() + size,
                        bytes.len() == size * here.len(),
                        next.len() == here.len() + 1,
                ;
                lemma_collected(start, kind, addresses, from + 1, longer);
            } else {
                assert(all.len() >= next.len());
                assert(size * (here.len() + 1) == bytes.len() + size) by (nonlinear_arith)
                    requires
                        bytes.len() == size * here.len(),
                ;
                assert(fit == here.len());
                lemma_prefix(bytes, size, kind, here, all);
            }
        }
    } else {
        assert(addresses.take(from) =~= addresses);
        assert(all.take(all.len() as int) =~= all);
    }
}

proof fn lemma_fits(size: int, count: int, space: int)
    requires
        size == 16 || size == 28,
        0 <= count,
        0 <= space,
    ensures
        size * count <= space ==> count <= space / size,
        size * (count + 1) > space ==> space / size <= count,
{
    if size == 16 {
        assert(size * count == 16 * count && size * (count + 1) == 16 * (count + 1));
    } else {
        assert(size * count == 28 * count && size * (count + 1) == 28 * (count + 1));
    }
}

proof fn lemma_prefix(bytes: Seq<u8>, size: int, kind: u16, here: Seq<HostAddress>, all: Seq<HostAddress>)
    requires
        here.len() <= all.len(),
        here == all.take(here.len() as int),
        forall|i: int| #![trigger here[i]] 0 <= i < here.len() ==> holds_record(bytes, i * size, kind, here[i]),
    ensures
        forall|i: int| #![trigger all[i]] 0 <= i < here.len() ==> holds_record(bytes, i * size, kind, all[i]),
{
    assert forall|i: int| #![trigger all[i]] 0 <= i < here.len() implies holds_record(bytes, i * size, kind, all[i]) by {
        assert(here[i] == all[i]);
    }
}

proof fn lemma_moved(bytes: Seq<u8>, at: int, other: Seq<u8>, to: int, kind: u16, address: HostAddress)
    requires
        holds_record(bytes, at, kind, address),
        is_asked(kind, address),
        0 <= to,
        to + 12 + address_size(kind) <= other.len(),
        other.subrange(to, to + 12 + address_size(kind)) == bytes.subrange(at, at + 12 + address_size(kind)),
    ensures
        holds_record(other, to, kind, address),
{
    let size = 12 + address_size(kind);
    assert forall|k: int| 0 <= k < size implies #[trigger] other[to + k] == bytes[at + k] by {
        assert(other.subrange(to, to + size)[k] == bytes.subrange(at, at + size)[k]);
    }
    assert(other[to + 0] == bytes[at + 0]);
    assert(other[to + 1] == bytes[at + 1]);
    assert(other[to + 2] == bytes[at + 2]);
    assert(other[to + 3] == bytes[at + 3]);
    assert(other[to + 4] == bytes[at + 4]);
    assert(other[to + 5] == bytes[at + 5]);
    assert(other[to + 6] == bytes[at + 6]);
    assert(other[to + 7] == bytes[at + 7]);
    assert(other[to + 8] == bytes[at + 8]);
    assert(other[to + 9] == bytes[at + 9]);
    assert(other[to + 10] == bytes[at + 10]);
    assert(other[to + 11] == bytes[at + 11]);
    assert(other[to + 12] == bytes[at + 12]);
    assert(other[to + 13] == bytes[at + 13]);
    assert(other[to + 14] == bytes[at + 14]);
    assert(other[to + 15] == bytes[at + 15]);
    if kind == 28 {
        assert(other[to + 16] == bytes[at + 16]);
        assert(other[to + 17] == bytes[at + 17]);
        assert(other[to + 18] == bytes[at + 18]);
        assert(other[to + 19] == bytes[at + 19]);
        assert(other[to + 20] == bytes[at + 20]);
        assert(other[to + 21] == bytes[at + 21]);
        assert(other[to + 22] == bytes[at + 22]);
        assert(other[to + 23] == bytes[at + 23]);
        assert(other[to + 24] == bytes[at + 24]);
        assert(other[to + 25] == bytes[at + 25]);
        assert(other[to + 26] == bytes[at + 26]);
        assert(other[to + 27] == bytes[at + 27]);
    }
}

/// The answer to a question for addresses has one record for every address of the family,
/// in order and each once, as far as the answer stays within 512 bytes; the header counts
/// them and tells where some had no room.
#[verifier::rlimit(40)]
pub proof fn answers_hold_the_addresses(question: QuestionView, addresses: Seq<HostAddress>)
    requires
        question.wf(),
        question.kind == 1 || question.kind == 28,
    ensures
        ({
            let answer = question.answer(Some(addresses));
            let listed = asked(question.kind, addresses);
            let size = 12 + address_size(question.kind);
            let count = room(question.wire.len(), question.kind, addresses);
            &&& answer.len() == question.wire.len() + size * count
            &&& answer[6] * 256 + answer[7] == count
            &&& answer[2] == 0x80 + question.wire[2] % 2 + if count < listed.len() { 2int } else { 0int }
            &&& answer[3] == 0x80
            &&& forall|i: int|
                #![trigger listed[i]]
                0 <= i < count ==> holds_record(answer, question.wire.len() + i * size, question.kind, listed[i])
        }),
{
    let kind = question.kind;
    let start = question.wire.len();
    let size = 12 + address_size(kind);
    let listed = asked(kind, addresses);
    assert(addresses.take(0) =~= Seq::<HostAddress>::empty());
    assert(asked(kind, addresses.take(0)) =~= Seq::<HostAddress>::empty());
    lemma_collected(start, kind, addresses, 0, Seq::empty());
    let records = question.records(Some(addresses));
    let answer = question.answer(Some(addresses));
    let count = room(start, kind, addresses);
    lemma_answer_parts(question, addresses);
    assert forall|i: int| #![trigger listed[i]] 0 <= i < count implies holds_record(
        answer,
        start + i * size,
        kind,
        listed[i],
    ) by {
        assert(holds_record(records.bytes, i * size, kind, listed[i]));
        lemma_asked_are(kind, addresses, i);
        lemma_same_stretch(answer, start as int, records.bytes, i * size, size);
        lemma_moved(records.bytes, i * size, answer, start + i * size, kind, listed[i]);
    }
}

proof fn lemma_answer_parts(question: QuestionView, addresses: Seq<HostAddress>)
    requires
        question.wf(),
        question.kind == 1 || question.kind == 28,
        question.records(Some(addresses)).seen.len() <= 32,
    ensures
        ({
            let answer = question.answer(Some(addresses));
            let records = question.records(Some(addresses));
            &&& answer.len() == question.wire.len() + records.bytes.len()
            &&& answer.skip(question.wire.len() as int) == records.bytes
            &&& answer[2] == 0x80 + question.wire[2] % 2 + if records.truncated { 2int } else { 0int }
            &&& answer[3] == 0x80
            &&& answer[6] * 256 + answer[7] == records.seen.len()
        }),
{
    let answer = question.answer(Some(addresses));
    let records = question.records(Some(addresses));
    assert(answer.skip(question.wire.len() as int) =~= records.bytes);
}

proof fn lemma_same_stretch(answer: Seq<u8>, start: int, bytes: Seq<u8>, at: int, size: int)
    requires
        0 <= start <= answer.len(),
        answer.skip(start) == bytes,
        0 <= at,
        0 <= size,
        at + size <= bytes.len(),
    ensures
        start + at + size <= answer.len(),
        answer.subrange(start + at, start + at + size) == bytes.subrange(at, at + size),
{
    assert forall|k: int| at <= k < at + size implies answer[start + k] == bytes[k] by {
        assert(answer.skip(start)[k] == answer[start + k]);
    }
    assert(answer.subrange(start + at, start + at + size) =~= bytes.subrange(at, at + size));
}

/// What is listed is of the family that is asked for.
proof fn lemma_asked_are(kind: u16, addresses: Seq<HostAddress>, i: int)
    requires
        0 <= i < asked(kind, addresses).len(),
    ensures
        is_asked(kind, asked(kind, addresses)[i]),
    decreases addresses.len(),
{
    if addresses.len() > 0 {
        let before = asked(kind, addresses.drop_last());
        if i < before.len() {
            lemma_asked_are(kind, addresses.drop_last(), i);
        }
    }
}

/// A question that cannot be served comes back with no record and a code: 2 where the name
/// could not be resolved, 4 where the type is not that of an address.
pub proof fn refused_questions_come_back_empty(question: QuestionView, addresses: Option<Seq<HostAddress>>)
    requires
        question.wf(),
        question.kind != 1 && question.kind != 28 || addresses is None,
    ensures
        ({
            let answer = question.answer(addresses);
            &&& answer.len() == question.wire.len()
            &&& answer[0] == question.wire[0] && answer[1] == question.wire[1]
            &&& answer[2] == 0x80 + question.wire[2] % 2
            &&& answer[3] == if question.kind != 1 && question.kind != 28 { 0x84u8 } else { 0x82u8 }
            &&& answer.subrange(4, 6) == question.wire.subrange(4, 6)
            &&& answer.subrange(6, 12) == seq![0u8, 0, 0, 0, 0, 0]
            &&& answer.skip(12) == question.wire.skip(12)
        }),
{
    let answer = question.answer(addresses);
    assert(answer.subrange(4, 6) =~= question.wire.subrange(4, 6));
    assert(answer.subrange(6, 12) =~= seq![0u8, 0, 0, 0, 0, 0]);
    assert(answer.skip(12) =~= question.wire.skip(12));
}

} // verus!
