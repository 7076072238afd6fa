//! DNS questions that the system resolver can serve, and the answers to them.

use vstd::prelude::*;
use vstd::slice::slice_subrange;

use crate::net::ether::{be16, be16_bytes, push_be16, read_be16};
use crate::net::tcp_segment::{be32_bytes, push_be32};
use crate::net::udp::HostAddress;

verus! {

/// The record type of an IPv4 address.
pub const KIND_A: u16 = 1;

/// The record type of an IPv6 address.
pub const KIND_AAAA: u16 = 28;

/// The largest question packet that is read.
pub const LARGEST_QUESTION: usize = 4096;

/// The largest answer, unless the question itself is larger.
pub const LARGEST_ANSWER: usize = 512;

/// Where the name in a question may end at the latest.
pub const NAME_LIMIT: usize = 267;

/// A single question.
#[derive(Debug)]
pub struct Question {
    /// The packet up to the end of the question.
    pub wire: Vec<u8>,
    /// The name, its labels separated by dots.
    pub name: Vec<u8>,
    pub kind: u16,
}

#[verifier::ext_equal]
pub struct QuestionView {
    pub wire: Seq<u8>,
    pub name: Seq<u8>,
    pub kind: u16,
}

impl View for Question {
    type V = QuestionView;

    open spec fn view(&self) -> QuestionView {
        QuestionView { wire: self.wire@, name: self.name@, kind: self.kind }
    }
}

/// Whether a byte may stand in a label.
pub open spec fn label_byte(byte: u8) -> bool {
    ||| 0x30 <= byte <= 0x39
    ||| 0x41 <= byte <= 0x5A
    ||| 0x61 <= byte <= 0x7A
    ||| byte == 0x2D
    ||| byte == 0x5F
}

/// Whether all bytes may stand in a label.
pub open spec fn is_label(bytes: Seq<u8>) -> bool {
    forall|i: int| 0 <= i < bytes.len() ==> label_byte(#[trigger] bytes[i])
}

/// A name with one more label.
pub open spec fn with_label(name: Seq<u8>, label: Seq<u8>) -> Seq<u8> {
    if name.len() == 0 {
        label
    } else {
        name + seq![0x2Eu8] + label
    }
}

/// The name whose labels go on at `offset`, after those in `name`, and where it ends. A
/// label that is too long, cut short or holds another byte gives none, as does a name that
/// is too long. Compressed names are too long.
pub open spec fn name_from(packet: Seq<u8>, offset: int, name: Seq<u8>) -> Option<(Seq<u8>, int)>
    decreases packet.len() - offset,
{
    if offset < 0 || offset >= packet.len() {
        None
    } else if packet[offset] == 0 {
        Some((name, offset + 1))
    } else {
        let end = offset + 1 + packet[offset];
        if packet[offset] > 63 || end > packet.len() || !is_label(packet.subrange(offset + 1, end)) || end > NAME_LIMIT {
            None
        } else {
            name_from(packet, end, with_label(name, packet.subrange(offset + 1, end)))
        }
    }
}

/// Whether a packet is a plain query with one question and no answers.
pub open spec fn is_query(packet: Seq<u8>) -> bool {
    &&& 12 <= packet.len() <= LARGEST_QUESTION
    &&& packet[2] <= 1
    &&& packet[4] == 0
    &&& packet[5] == 1
    &&& packet[6] == 0
    &&& packet[7] == 0
    &&& packet[8] == 0
    &&& packet[9] == 0
}

/// The question in a packet: a name of the Internet class.
pub open spec fn question_in(packet: Seq<u8>) -> Option<QuestionView> {
    if !is_query(packet) {
        None
    } else {
        match name_from(packet, 12, Seq::empty()) {
            None => None,
            Some((name, end)) => if end + 4 > packet.len() || packet[end + 2] != 0 || packet[end + 3] != 1 || name.len()
                == 0 || name.len() > 253 {
                None
            } else {
                Some(
                    QuestionView {
                        wire: packet.take(end + 4),
                        name,
                        kind: be16(packet[end], packet[end + 1]),
                    },
                )
            },
        }
    }
}

/// Whether all bytes of a stretch may stand in a label.
fn check_label(packet: &[u8], from: usize, to: usize) -> (held: bool)
    requires
        from <= to <= packet@.len(),
    ensures
        held == is_label(packet@.subrange(from as int, to as int)),
{
    let ghost label = packet@.subrange(from as int, to as int);
    let mut index: usize = from;
    while index < to
        invariant
            from <= index <= to <= packet@.len(),
            label == packet@.subrange(from as int, to as int),
            forall|i: int| 0 <= i < index - from ==> label_byte(#[trigger] label[i]),
        decreases to - index,
    {
        let byte = packet[index];
        assert(label[index - from] == byte);
        if !((0x30 <= byte && byte <= 0x39) || (0x41 <= byte && byte <= 0x5A) || (0x61 <= byte && byte <= 0x7A) || byte
            == 0x2D || byte == 0x5F) {
            return false;
        }
        index = index + 1;
    }
    true
}

/// Reads the name of a question.
fn read_name(packet: &[u8]) -> (found: Option<(Vec<u8>, usize)>)
    requires
        12 <= packet@.len() <= LARGEST_QUESTION,
    ensures
        match name_from(packet@, 12, Seq::empty()) {
            None => found is None,
            Some((name, end)) => found matches Some((bytes, at)) && bytes@ == name && at == end && at <= packet@.len(),
        },
{
    let length = packet.len();
    let mut offset: usize = 12;
    let mut name: Vec<u8> = Vec::new();
    assert(name@ =~= Seq::empty());
    while offset < length
        invariant
            12 <= offset <= length,
            length == packet@.len(),
            length <= LARGEST_QUESTION,
            name_from(packet@, offset as int, name@) == name_from(packet@, 12, Seq::empty()),
        decreases length - offset,
    {
        let size = packet[offset] as usize;
        if size == 0 {
            return Some((name, offset + 1));
        }
        let end = offset + 1 + size;
        if size > 63 || end > length || !check_label(packet, offset + 1, end) || end > NAME_LIMIT {
            return None;
        }
        let ghost before = name@;
        if name.len() > 0 {
            name.push(0x2E);
        }
        name.extend_from_slice(slice_subrange(packet, offset + 1, end));
        assert(name@ =~= with_label(before, packet@.subrange(offset + 1, end as int)));
        offset = end;
    }
    None
}

/// The answer's code: not implemented, a failure of the server, or none.
pub open spec fn answer_code(kind: u16, resolved: bool) -> u8 {
    if kind != KIND_A && kind != KIND_AAAA {
        4
    } else if !resolved {
        2
    } else {
        0
    }
}

/// The bytes of an address in a record of a kind, if it is of that family.
pub open spec fn record_data(kind: u16, address: HostAddress) -> Option<Seq<u8>> {
    match address {
        HostAddress::V4(ip) => if kind == KIND_A {
            Some(ip@)
        } else {
            None
        },
        HostAddress::V6(number) => if kind == KIND_AAAA {
            Some(be128_bytes(number))
        } else {
            None
        },
    }
}

/// The sixteen bytes of a number, high byte first.
pub open spec fn be128_bytes(number: u128) -> Seq<u8> {
    be32_bytes((number / 0x1_0000_0000_0000_0000_0000_0000) as u32) + be32_bytes(
        ((number / 0x1_0000_0000_0000_0000) % 0x1_0000_0000) as u32,
    ) + be32_bytes(((number / 0x1_0000_0000) % 0x1_0000_0000) as u32) + be32_bytes((number % 0x1_0000_0000) as u32)
}

/// One record: it points back to the question's name, and is not to be cached.
pub open spec fn record(kind: u16, data: Seq<u8>) -> Seq<u8> {
    seq![0xC0u8, 0x0C] + be16_bytes(kind) + seq![0u8, 1, 0, 0, 0, 0] + be16_bytes(data.len() as u16) + data
}

/// The records for the addresses from `from` on.
pub struct Records {
    /// The addresses that have a record.
    pub seen: Seq<HostAddress>,
    pub bytes: Seq<u8>,
    /// Whether a record had no room.
    pub truncated: bool,
}

/// The records of addresses, each of them once, as long as the whole answer stays within
/// its limit.
pub open spec fn records_from(
    start: nat,
    kind: u16,
    addresses: Seq<HostAddress>,
    from: int,
    seen: Seq<HostAddress>,
    bytes: Seq<u8>,
) -> Records
    decreases addresses.len() - from,
{
    if from < 0 || from >= addresses.len() {
        Records { seen, bytes, truncated: false }
    } else if seen.contains(addresses[from]) {
        records_from(start, kind, addresses, from + 1, seen, bytes)
    } else {
        match record_data(kind, addresses[from]) {
            None => records_from(start, kind, addresses, from + 1, seen, bytes),
            Some(data) => if start + bytes.len() + 12 + data.len() > LARGEST_ANSWER {
                Records { seen, bytes, truncated: true }
            } else {
                records_from(
                    start,
                    kind,
                    addresses,
                    from + 1,
                    seen.push(addresses[from]),
                    bytes + record(kind, data),
                )
            },
        }
    }
}

impl QuestionView {
    /// Whether the question holds a whole header.
    pub open spec fn wf(self) -> bool {
        12 <= self.wire.len() <= LARGEST_QUESTION
    }

    /// The records of the answer.
    pub open spec fn records(self, addresses: Option<Seq<HostAddress>>) -> Records {
        let none = Records { seen: Seq::empty(), bytes: Seq::empty(), truncated: false };
        match addresses {
            None => none,
            Some(addresses) => if self.kind != KIND_A && self.kind != KIND_AAAA {
                none
            } else {
                records_from(self.wire.len(), self.kind, addresses, 0, Seq::empty(), Seq::empty())
            },
        }
    }

    /// The answer, from the addresses of the name if it could be resolved. The question
    /// comes back with it.
    pub open spec fn answer(self, addresses: Option<Seq<HostAddress>>) -> Seq<u8> {
        let records = self.records(addresses);
        self.wire.take(2) + seq![
            (0x80 + self.wire[2] % 2 + if records.truncated { 2int } else { 0int }) as u8,
            (0x80 + answer_code(self.kind, addresses is Some)) as u8,
        ] + self.wire.subrange(4, 6) + be16_bytes(records.seen.len() as u16) + seq![0u8, 0, 0, 0] + self.wire.skip(12)
            + records.bytes
    }
}

/// What the records hold: every address once, in the family asked for, and never past the
/// limit.
proof fn lemma_records(
    start: nat,
    kind: u16,
    addresses: Seq<HostAddress>,
    from: int,
    seen: Seq<HostAddress>,
    bytes: Seq<u8>,
)
    requires
        bytes.len() >= 16 * seen.len(),
        bytes.len() == 0 || start + bytes.len() <= LARGEST_ANSWER,
    ensures
        ({
            let records = records_from(start, kind, addresses, from, seen, bytes);
            &&& records.bytes.len() >= 16 * records.seen.len()
            &&& records.bytes.len() == 0 || start + records.bytes.len() <= LARGEST_ANSWER
        }),
    decreases addresses.len() - from,
{
    if 0 <= from < addresses.len() {
        if seen.contains(addresses[from]) || record_data(kind, addresses[from]) is None {
            lemma_records(start, kind, addresses, from + 1, seen, bytes);
        } else {
            let data = record_data(kind, addresses[from])->0;
            assert(record(kind, data).len() == 12 + data.len());
            if start + bytes.len() + 12 + data.len() <= LARGEST_ANSWER {
                lemma_records(start, kind, addresses, from + 1, seen.push(addresses[from]), bytes + record(kind, data));
            }
        }
    }
}

/// An answer is never larger than the limit, unless the question alone is; it has no
/// partial record, and the question comes back unchanged.
pub proof fn answers_stay_within_the_limit(question: QuestionView, addresses: Option<Seq<HostAddress>>)
    requires
        question.wf(),
    ensures
        question.answer(addresses).len() == question.wire.len() || question.answer(addresses).len() <= LARGEST_ANSWER,
        question.answer(addresses).take(2) == question.wire.take(2),
        question.answer(addresses).subrange(12, question.wire.len() as int) == question.wire.skip(12),
        question.records(addresses).seen.len() <= 32,
{
    if addresses is Some {
        lemma_records(question.wire.len(), question.kind, addresses->0, 0, Seq::empty(), Seq::empty());
    }
    let answer = question.answer(addresses);
    assert(answer.take(2) =~= question.wire.take(2));
    assert(answer.subrange(12, question.wire.len() as int) =~= question.wire.skip(12));
}

/// Whether an address has a record already.
fn contains(seen: &Vec<HostAddress>, address: HostAddress) -> (held: bool)
    ensures
        held == seen@.contains(address),
{
    let mut index: usize = 0;
    while index < seen.len()
        invariant
            index <= seen@.len(),
            forall|i: int| 0 <= i < index ==> seen@[i] != address,
        decreases seen@.len() - index,
    {
        if seen[index] == address {
            assert(seen@[index as int] == address);
            return true;
        }
        index = index + 1;
    }
    false
}

/// The bytes of an address in a record of a kind, if it is of that family.
fn record_bytes(kind: u16, address: HostAddress) -> (data: Option<Vec<u8>>)
    ensures
        match record_data(kind, address) {
            None => data is None,
            Some(bytes) => data matches Some(found) && found@ == bytes && bytes.len() <= 16,
        },
{
    match address {
        HostAddress::V4(ip) => {
            if kind != KIND_A {
                return None;
            }
            let mut data: Vec<u8> = Vec::new();
            ip.append(&mut data);
            assert(data@ =~= ip@);
            Some(data)
        },
        HostAddress::V6(number) => {
            if kind != KIND_AAAA {
                return None;
            }
            let mut data: Vec<u8> = Vec::new();
            push_be32(&mut data, (number / 0x1_0000_0000_0000_0000_0000_0000) as u32);
            push_be32(&mut data, ((number / 0x1_0000_0000_0000_0000) % 0x1_0000_0000) as u32);
            push_be32(&mut data, ((number / 0x1_0000_0000) % 0x1_0000_0000) as u32);
            push_be32(&mut data, (number % 0x1_0000_0000) as u32);
            assert(data@ =~= be128_bytes(number));
            Some(data)
        },
    }
}

/// Appends one record.
fn push_record(out: &mut Vec<u8>, kind: u16, data: &Vec<u8>)
    requires
        data@.len() <= 16,
    ensures
        final(out)@ == old(out)@ + record(kind, data@),
{
    out.push(0xC0);
    out.push(0x0C);
    push_be16(out, kind);
    out.push(0);
    out.push(1);
    out.push(0);
    out.push(0);
    out.push(0);
    out.push(0);
    push_be16(out, data.len() as u16);
    out.extend_from_slice(data.as_slice());
    assert(out@ =~= old(out)@ + record(kind, data@));
}

/// The reading of the addresses of a name.
pub open spec fn resolved(addresses: Result<&[HostAddress], ()>) -> Option<Seq<HostAddress>> {
    match addresses {
        Ok(addresses) => Some(addresses@),
        Err(_) => None,
    }
}

/// Collects the records: their bytes, how many there are, and whether one had no room.
fn collect(start: usize, kind: u16, addresses: &[HostAddress]) -> (records: (Vec<u8>, usize, bool))
    requires
        start <= LARGEST_QUESTION,
    ensures
        ({
            let expected = records_from(start as nat, kind, addresses@, 0, Seq::empty(), Seq::empty());
            records.0@ == expected.bytes && records.1 == expected.seen.len() && records.2 == expected.truncated
        }),
        records.1 <= 32,
{
    let mut bytes: Vec<u8> = Vec::new();
    let mut seen: Vec<HostAddress> = Vec::new();
    let count = addresses.len();
    let mut index: usize = 0;
    assert(bytes@ =~= Seq::empty());
    assert(seen@ =~= Seq::empty());
    proof {
        lemma_records(start as nat, kind, addresses@, 0, Seq::empty(), Seq::empty());
    }
    while index < count
        invariant
            index <= count,
            count == addresses@.len(),
            start <= LARGEST_QUESTION,
            bytes@.len() == 0 || start + bytes@.len() <= LARGEST_ANSWER,
            bytes@.len() >= 16 * seen@.len(),
            records_from(start as nat, kind, addresses@, index as int, seen@, bytes@) == records_from(
                start as nat,
                kind,
                addresses@,
                0,
                Seq::empty(),
                Seq::empty(),
            ),
        decreases count - index,
    {
        let address = addresses[index];
        if !contains(&seen, address) {
            if let Some(data) = record_bytes(kind, address) {
                if start + bytes.len() + 12 + data.len() > LARGEST_ANSWER {
                    return (bytes, seen.len(), true);
                }
                push_record(&mut bytes, kind, &data);
                seen.push(address);
            }
        }
        index = index + 1;
    }
    (bytes, seen.len(), false)
}

impl Question {
    /// Reads the one question of a query. Anything else than a plain query of one name
    /// gives none.
    pub fn parse(packet: &[u8]) -> (question: Option<Question>)
        ensures
            match question_in(packet@) {
                None => question is None,
                Some(view) => question matches Some(found) && found@ == view && found@.wf(),
            },
    {
        let length = packet.len();
        if length < 12 || length > LARGEST_QUESTION {
            return None;
        }
        if packet[2] > 1 || packet[4] != 0 || packet[5] != 1 || packet[6] != 0 || packet[7] != 0 || packet[8] != 0
            || packet[9] != 0 {
            return None;
        }
        match read_name(packet) {
            None => None,
            Some((name, end)) => {
                proof {
                    lemma_name_end(packet@, 12, Seq::empty());
                }
                if length - end < 4 || packet[end + 2] != 0 || packet[end + 3] != 1 || name.len() == 0 || name.len()
                    > 253 {
                    return None;
                }
                let mut wire: Vec<u8> = Vec::new();
                wire.extend_from_slice(slice_subrange(packet, 0, end + 4));
                assert(wire@ =~= packet@.take(end + 4));
                Some(Question { wire, name, kind: read_be16(packet[end], packet[end + 1]) })
            },
        }
    }

    /// The answer to the question: the addresses of the family asked for, or a code that
    /// says why there are none.
    pub fn answer(&self, addresses: Result<&[HostAddress], ()>) -> (answer: Vec<u8>)
        requires
            self@.wf(),
        ensures
            answer@ == self@.answer(resolved(addresses)),
    {
        let supported = self.kind == KIND_A || self.kind == KIND_AAAA;
        let mut bytes: Vec<u8> = Vec::new();
        let mut count: usize = 0;
        let mut truncated = false;
        let mut code: u8 = 0;
        if !supported {
            code = 4;
        }
        match addresses {
            Ok(addresses) => {
                if supported {
                    let (records, number, cut) = collect(self.wire.len(), self.kind, addresses);
                    bytes = records;
                    count = number;
                    truncated = cut;
                }
            },
            Err(_) => {
                if supported {
                    code = 2;
                }
            },
        }
        assert(bytes@ =~= self@.records(resolved(addresses)).bytes);
        let mut answer: Vec<u8> = Vec::new();
        answer.push(self.wire[0]);
        answer.push(self.wire[1]);
        if truncated {
            answer.push(0x82 + self.wire[2] % 2);
        } else {
            answer.push(0x80 + self.wire[2] % 2);
        }
        answer.push(0x80 + code);
        answer.push(self.wire[4]);
        answer.push(self.wire[5]);
        push_be16(&mut answer, count as u16);
        answer.push(0);
        answer.push(0);
        answer.push(0);
        answer.push(0);
        answer.extend_from_slice(slice_subrange(self.wire.as_slice(), 12, self.wire.len()));
        answer.extend_from_slice(bytes.as_slice());
        assert(answer@ =~= self@.answer(resolved(addresses)));
        answer
    }
}

/// A name ends within the packet, past its start.
proof fn lemma_name_end(packet: Seq<u8>, offset: int, name: Seq<u8>)
    ensures
        name_from(packet, offset, name) matches Some((_, end)) ==> offset < end <= packet.len(),
    decreases packet.len() - offset,
{
    if 0 <= offset < packet.len() && packet[offset] != 0 {
        let end = offset + 1 + packet[offset];
        if end <= packet.len() {
            lemma_name_end(packet, end, with_label(name, packet.subrange(offset + 1, end)));
        }
    }
}

} // verus!
