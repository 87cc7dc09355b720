//! DNS wire format: the message header, the fixed part of a resource record,
//! the question-name decoder and the answer locator.

use vstd::prelude::*;
use crate::wire::{be16_at, be32_at, read_be16, read_be32};

verus! {

/// The fixed header of a DNS message, each field decoded from network order.
#[allow(non_snake_case)]
#[derive(Clone, Copy, Debug, PartialEq, Eq, Structural)]
pub struct DNSHeader {
    /// Transaction identifier.
    pub ID: u16,
    /// QR, opcode, flags and response code, kept as one opaque field.
    pub HEADER_DATA: u16,
    /// Number of questions.
    pub QDCOUNT: u16,
    /// Number of answer records.
    pub ANCOUNT: u16,
    /// Number of authority records.
    pub NSCOUNT: u16,
    /// Number of additional records.
    pub ARCOUNT: u16,
}

impl DNSHeader {
    /// Length of the header on the wire.
    pub const HDRLEN: usize = 12;

    /// Length of the type and class fields that follow a question name.
    pub const QNAME_SUFFIX: usize = 4;

    /// The header that the twelve bytes at `at` encode.
    pub open spec fn decoded_at(bytes: Seq<u8>, at: int) -> DNSHeader {
        DNSHeader {
            ID: be16_at(bytes, at) as u16,
            HEADER_DATA: be16_at(bytes, at + 2) as u16,
            QDCOUNT: be16_at(bytes, at + 4) as u16,
            ANCOUNT: be16_at(bytes, at + 6) as u16,
            NSCOUNT: be16_at(bytes, at + 8) as u16,
            ARCOUNT: be16_at(bytes, at + 10) as u16,
        }
    }

    /// Reads the header at `at`, or fails where twelve bytes are not there.
    pub fn parse(bytes: &[u8], at: usize) -> (header: Result<DNSHeader, ()>)
        ensures
            header is Ok <==> at + 12 <= bytes@.len(),
            header is Ok ==> header.unwrap() == DNSHeader::decoded_at(bytes@, at as int),
    {
        if bytes.len() < 12 || at > bytes.len() - 12 {
            return Err(());
        }
        Ok(
            DNSHeader {
                ID: read_be16(bytes, at),
                HEADER_DATA: read_be16(bytes, at + 2),
                QDCOUNT: read_be16(bytes, at + 4),
                ANCOUNT: read_be16(bytes, at + 6),
                NSCOUNT: read_be16(bytes, at + 8),
                ARCOUNT: read_be16(bytes, at + 10),
            },
        )
    }
}

/// The fixed fields of a resource record, after its owner name, as they stand
/// on the wire: big-endian and unaligned, so kept as bytes.
#[derive(Clone, Copy, Debug)]
pub struct DNSAnswer {
    pub rtype: [u8; 2],
    pub class: [u8; 2],
    pub ttl: [u8; 4],
    pub data_len: [u8; 2],
}

/// Record type of an IPv4 address record.
pub const RTYPE_A: u16 = 1;

/// Record type of an IPv6 address record.
pub const RTYPE_AAAA: u16 = 28;

/// Length of a resource record's fixed fields.
pub const ANSWER_LEN: usize = 10;

impl DNSAnswer {
    /// Record type.
    pub fn rtype(&self) -> (value: u16)
        ensures
            value == be16_at(self.rtype@, 0),
    {
        read_be16(&self.rtype, 0)
    }

    /// Time to live, in seconds.
    pub fn ttl(&self) -> (value: u32)
        ensures
            value == be32_at(self.ttl@, 0),
    {
        read_be32(&self.ttl, 0)
    }

    /// Record class.
    pub fn class(&self) -> (value: u16)
        ensures
            value == be16_at(self.class@, 0),
    {
        read_be16(&self.class, 0)
    }

    /// Length of the record data that follows the fixed fields.
    pub fn data_len(&self) -> (value: u16)
        ensures
            value == be16_at(self.data_len@, 0),
    {
        read_be16(&self.data_len, 0)
    }

    /// The record whose fixed fields are the ten bytes at `at`.
    pub open spec fn located_at(bytes: Seq<u8>, at: int, answer: DNSAnswer) -> bool {
        &&& answer.rtype@ == bytes.subrange(at, at + 2)
        &&& answer.class@ == bytes.subrange(at + 2, at + 4)
        &&& answer.ttl@ == bytes.subrange(at + 4, at + 8)
        &&& answer.data_len@ == bytes.subrange(at + 8, at + 10)
    }

    /// Copies the fixed fields out of `bytes` at `at`, or fails where ten
    /// bytes are not there.
    pub fn parse(bytes: &[u8], at: usize) -> (answer: Result<DNSAnswer, ()>)
        ensures
            answer is Ok <==> at + 10 <= bytes@.len(),
            answer is Ok ==> DNSAnswer::located_at(bytes@, at as int, answer.unwrap()),
    {
        if bytes.len() < 10 || at > bytes.len() - 10 {
            return Err(());
        }
        let answer = DNSAnswer {
            rtype: [bytes[at], bytes[at + 1]],
            class: [bytes[at + 2], bytes[at + 3]],
            ttl: [bytes[at + 4], bytes[at + 5], bytes[at + 6], bytes[at + 7]],
            data_len: [bytes[at + 8], bytes[at + 9]],
        };
        assert(answer.rtype@ =~= bytes@.subrange(at as int, at + 2));
        assert(answer.class@ =~= bytes@.subrange(at + 2, at + 4));
        assert(answer.ttl@ =~= bytes@.subrange(at + 4, at + 8));
        assert(answer.data_len@ =~= bytes@.subrange(at + 8, at + 10));
        Ok(answer)
    }
}

/// The byte that marks a compression pointer.
pub const POINTER_MARKER: u8 = 0xC0;

/// The first position in `[from, limit)` that holds the pointer marker, or
/// `limit` where none does.
pub open spec fn first_marker(payload: Seq<u8>, from: int, limit: int) -> int
    decreases limit - from,
{
    if from >= limit {
        limit
    } else if payload[from] == POINTER_MARKER {
        from
    } else {
        first_marker(payload, from + 1, limit)
    }
}

/// Where the first record's fixed fields begin: two bytes behind the first
/// pointer marker among all but the last ten bytes, or 0 where there is none.
pub open spec fn answer_offset(payload: Seq<u8>) -> int {
    let limit = payload.len() - 10;
    let marker = first_marker(payload, 0, limit);
    if marker < limit {
        marker + 2
    } else {
        0
    }
}

/// `first_marker` is what its name says: it lies between `from` and `limit`,
/// no position before it holds the marker, and below `limit` it holds one.
pub proof fn lemma_first_marker(payload: Seq<u8>, from: int, limit: int)
    requires
        from <= limit,
    ensures
        from <= first_marker(payload, from, limit) <= limit,
        first_marker(payload, from, limit) < limit ==> payload[first_marker(payload, from, limit)]
            == POINTER_MARKER,
        forall|j: int|
            from <= j < first_marker(payload, from, limit) ==> payload[j] != POINTER_MARKER,
    decreases limit - from,
{
    if from < limit && payload[from] != POINTER_MARKER {
        lemma_first_marker(payload, from + 1, limit);
    }
}

/// The answer offset is 0, or lies two bytes behind a marker and at least ten
/// bytes before the end.
pub proof fn lemma_answer_offset_bounds(payload: Seq<u8>)
    requires
        payload.len() >= 10,
    ensures
        answer_offset(payload) == 0 || (2 <= answer_offset(payload) <= payload.len() - 9
            && payload[answer_offset(payload) - 2] == POINTER_MARKER),
        answer_offset(payload) == 0 <==> forall|j: int|
            0 <= j < payload.len() - 10 ==> payload[j] != POINTER_MARKER,
{
    lemma_first_marker(payload, 0, payload.len() - 10);
}

/// Locates the first resource record behind the question section by its
/// owner name, which is taken to be a two-byte compression pointer.
pub fn get_answer_offset_from_payload(buf: &mut [u8]) -> (offset: usize)
    requires
        old(buf)@.len() >= 10,
    ensures
        final(buf)@ == old(buf)@,
        offset == answer_offset(old(buf)@),
{
    let limit: usize = buf.len() - 10;
    let mut i: usize = 0;
    while i < limit
        invariant
            buf@ == old(buf)@,
            limit == buf@.len() - 10,
            i <= limit,
            first_marker(buf@, 0, limit as int) == first_marker(buf@, i as int, limit as int),
        decreases limit - i,
    {
        if buf[i] == POINTER_MARKER {
            return i + 2;
        }
        i += 1;
    }
    0
}

/// State of the label walk over a wire-encoded name: how many bytes of the
/// current label are still to come, and whether the root label has been met.
pub struct LabelWalk {
    pub remaining: int,
    pub finished: bool,
}

/// The walk's state just before output position `i` is produced. The walk
/// starts with the first byte as the length of the first label; each step
/// looks at input byte `i + 1`.
pub open spec fn label_walk(wire: Seq<u8>, i: nat) -> LabelWalk
    decreases i,
{
    if i == 0 {
        LabelWalk { remaining: wire[0] as int, finished: false }
    } else {
        let before = label_walk(wire, (i - 1) as nat);
        if before.finished {
            before
        } else if before.remaining > 0 {
            LabelWalk { remaining: before.remaining - 1, finished: false }
        } else {
            LabelWalk { remaining: wire[i as int] as int, finished: wire[i as int] == 0 }
        }
    }
}

/// The byte that decoding leaves at position `i` of a buffer that held `wire`.
///
/// A label byte moves one place to the left; a length byte that opens a
/// further label becomes a dot; from the root label on everything is zero.
/// The last position has no successor to take a byte from: it is cleared once
/// the root label has been met and keeps its byte otherwise.
pub open spec fn decoded_byte(wire: Seq<u8>, i: int) -> u8
    recommends
        0 <= i < wire.len(),
{
    let walk = label_walk(wire, i as nat);
    if walk.finished {
        0u8
    } else if i + 1 == wire.len() {
        wire[i]
    } else if walk.remaining > 0 {
        wire[i + 1]
    } else if wire[i + 1] == 0 {
        0u8
    } else {
        46u8
    }
}

/// The dot-delimited form of a wire-encoded name, position by position.
pub open spec fn decoded_qname(wire: Seq<u8>) -> Seq<u8> {
    Seq::new(wire.len(), |i: int| decoded_byte(wire, i))
}

/// Rewrites a wire-encoded question name in place into dot notation.
///
/// The loop runs over the buffer's length, never over a length byte read from
/// it, so every buffer of at least one byte is accepted.
pub fn decode_qname_data(buf: &mut [u8])
    requires
        old(buf)@.len() >= 1,
    ensures
        final(buf)@.len() == old(buf)@.len(),
        final(buf)@ == decoded_qname(old(buf)@),
{
    let ghost wire = buf@;
    let n: usize = buf.len();
    let mut bytes_until_segment_ends: u8 = buf[0];
    let mut zero_rest = false;
    let mut i: usize = 0;
    while i < n - 1
        invariant
            n == wire.len(),
            n >= 1,
            buf@.len() == n,
            i <= n - 1,
            forall|j: int| 0 <= j < i ==> buf@[j] == decoded_byte(wire, j),
            forall|j: int| i <= j < n ==> buf@[j] == wire[j],
            label_walk(wire, i as nat) == (LabelWalk {
                remaining: bytes_until_segment_ends as int,
                finished: zero_rest,
            }),
        decreases n - i,
    {
        if zero_rest {
            buf[i] = 0;
        } else if bytes_until_segment_ends > 0 {
            buf[i] = buf[i + 1];
            bytes_until_segment_ends -= 1;
        } else {
            bytes_until_segment_ends = buf[i + 1];
            if bytes_until_segment_ends == 0 {
                zero_rest = true;
                buf[i] = 0;
            } else {
                buf[i] = 46;
            }
        }
        i += 1;
    }
    if zero_rest {
        buf[i] = 0;
    }
    assert(buf@ =~= decoded_qname(wire));
}

/// The wire encoding of a name: each label behind its length byte, then the
/// root label's zero.
pub open spec fn encoded_name(labels: Seq<Seq<u8>>) -> Seq<u8>
    decreases labels.len(),
{
    if labels.len() == 0 {
        seq![0u8]
    } else {
        seq![labels[0].len() as u8] + labels[0] + encoded_name(labels.drop_first())
    }
}

/// The canonical form of a name: its labels joined by dots.
pub open spec fn dotted_name(labels: Seq<Seq<u8>>) -> Seq<u8>
    decreases labels.len(),
{
    if labels.len() == 0 {
        Seq::<u8>::empty()
    } else if labels.len() == 1 {
        labels[0]
    } else {
        labels[0] + seq![46u8] + dotted_name(labels.drop_first())
    }
}

/// Every label has at least one byte and a length that fits its length byte.
pub open spec fn labels_fit(labels: Seq<Seq<u8>>) -> bool {
    forall|j: int| 0 <= j < labels.len() ==> 1 <= (#[trigger] labels[j]).len() <= 255
}

/// `count` zero bytes.
pub open spec fn zero_bytes(count: nat) -> Seq<u8> {
    Seq::new(count, |i: int| 0u8)
}

/// Inside the first label the walk counts down from its length.
proof fn lemma_walk_in_first_label(wire: Seq<u8>, m: nat)
    requires
        m <= wire[0],
    ensures
        label_walk(wire, m) == (LabelWalk { remaining: wire[0] - m, finished: false }),
    decreases m,
{
    if m > 0 {
        lemma_walk_in_first_label(wire, (m - 1) as nat);
    }
}

/// Once the root label has been met the walk no longer changes.
proof fn lemma_walk_stays_finished(wire: Seq<u8>, from: nat, to: nat)
    requires
        from <= to,
        label_walk(wire, from).finished,
    ensures
        label_walk(wire, to) == label_walk(wire, from),
    decreases to - from,
{
    if from < to {
        lemma_walk_stays_finished(wire, from, (to - 1) as nat);
    }
}

/// Where the walk stands at the length byte of a further label, it goes on as
/// a walk over the rest of the buffer that begins there.
proof fn lemma_walk_of_suffix(wire: Seq<u8>, start: nat, i: nat)
    requires
        start + i < wire.len(),
        label_walk(wire, start) == (LabelWalk { remaining: wire[start as int] as int, finished: false }),
    ensures
        label_walk(wire, start + i) == label_walk(wire.skip(start as int), i),
    decreases i,
{
    if i > 0 {
        lemma_walk_of_suffix(wire, start, (i - 1) as nat);
    }
}

/// Decoding the encoding of a name gives its labels joined by dots, then
/// zeros to the end of the buffer, whatever stood behind the root label.
///
/// This holds of every name of at least one label whose labels are not empty
/// and at most 255 bytes long.
pub proof fn lemma_decode_of_encoded_name(labels: Seq<Seq<u8>>, tail: Seq<u8>)
    requires
        labels.len() >= 1,
        labels_fit(labels),
    ensures
        decoded_qname(encoded_name(labels) + tail) == dotted_name(labels) + zero_bytes(
            tail.len() + 2,
        ),
    decreases labels.len(),
{
    let first = labels[0];
    let more = labels.drop_first();
    let count: int = first.len() as int;
    let next: nat = (count + 1) as nat;
    let wire = encoded_name(labels) + tail;
    let rest = encoded_name(more) + tail;
    let expected = dotted_name(labels) + zero_bytes(tail.len() + 2);
    assert(wire =~= seq![count as u8] + first + rest);
    assert forall|j: int| 0 <= j < more.len() implies 1 <= (#[trigger] more[j]).len() <= 255 by {
        assert(more[j] == labels[j + 1]);
    }
    assert forall|m: nat| m <= count implies label_walk(wire, m) == (LabelWalk {
        remaining: count - m,
        finished: false,
    }) by {
        lemma_walk_in_first_label(wire, m);
    }
    assert(label_walk(wire, count as nat) == (LabelWalk { remaining: 0, finished: false }));
    assert(wire[count + 1] == rest[0]);
    assert(label_walk(wire, next) == (LabelWalk {
        remaining: rest[0] as int,
        finished: rest[0] == 0,
    }));
    if more.len() == 0 {
        assert(rest =~= seq![0u8] + tail);
        assert forall|i: int| 0 <= i < wire.len() implies decoded_byte(wire, i) == expected[i] by {
            if i > count {
                lemma_walk_stays_finished(wire, next, i as nat);
            } else {
                assert(label_walk(wire, i as nat).remaining == count - i);
            }
        }
    } else {
        lemma_decode_of_encoded_name(more, tail);
        assert(rest[0] == more[0].len() as u8);
        assert(wire.skip(next as int) =~= rest);
        let dotted_more = dotted_name(more);
        let decoded_rest = dotted_more + zero_bytes(tail.len() + 2);
        assert(dotted_name(labels) == first + seq![46u8] + dotted_more);
        assert(decoded_qname(rest).len() == rest.len());
        assert(expected.len() == wire.len());
        assert forall|i: int| 0 <= i < wire.len() implies decoded_byte(wire, i) == expected[i] by {
            if i > count {
                lemma_walk_of_suffix(wire, next, (i - next) as nat);
                assert(decoded_byte(wire, i) == decoded_byte(rest, i - next));
                assert(decoded_qname(rest)[i - next] == decoded_byte(rest, i - next));
                assert(expected[i] == decoded_rest[i - next]);
            } else {
                assert(label_walk(wire, i as nat).remaining == count - i);
            }
        }
    }
    assert(decoded_qname(wire) =~= expected);
}

} // verus!
