//! The ingress decision: in a DNS response for a blocked name the first
//! address record is overwritten with zeros. The packet itself always passes.

use vstd::prelude::*;
use crate::action::Action;
use crate::blocklist::Blocklist;
use crate::dns::{
    answer_offset, get_answer_offset_from_payload, lemma_answer_offset_bounds, zero_bytes,
    DNSAnswer, ANSWER_LEN, RTYPE_A, RTYPE_AAAA,
};
use crate::net::DNS_PORT;
use crate::packet::{
    carries_udp, headers_truncated, load_name_buffer, load_question, name_buffer, payload_at,
    question_name, udp_source, walk_headers, Question, MIN_HEADER_STACK,
};
use crate::wire::{be16_at, store_bytes};

verus! {

/// A well-formed DNS response: UDP from port 53 with at least one byte behind
/// the DNS header.
pub open spec fn is_dns_response(packet: Seq<u8>) -> bool {
    &&& carries_udp(packet)
    &&& udp_source(packet) == DNS_PORT
    &&& packet.len() > payload_at(packet)
}

/// The packet ends before the question of a response could be read.
pub open spec fn response_name_truncated(packet: Seq<u8>) -> bool {
    ||| headers_truncated(packet)
    ||| carries_udp(packet) && udp_source(packet) == DNS_PORT && packet.len() <= payload_at(packet)
}

/// Where the fixed fields of the first resource record begin, in a packet
/// whose DNS payload begins at `payload`: at the answer offset found in the
/// buffer that is filled from there.
pub open spec fn record_at(packet: Seq<u8>, payload: int) -> int {
    payload + answer_offset(name_buffer(packet, payload))
}

/// Where the first record's data begins.
pub open spec fn address_at(packet: Seq<u8>, payload: int) -> int {
    record_at(packet, payload) + ANSWER_LEN
}

/// Width of the address that the first record holds by its type: 4 for an A
/// record, 16 for an AAAA record, 0 for any other.
pub open spec fn address_width(packet: Seq<u8>, payload: int) -> int {
    let rtype = be16_at(packet, record_at(packet, payload));
    if rtype == RTYPE_A {
        4
    } else if rtype == RTYPE_AAAA {
        16
    } else {
        0
    }
}

/// The first record's fixed fields cannot be read: the packet has no byte at
/// `payload`, or ends inside them.
pub open spec fn record_truncated(packet: Seq<u8>, payload: int) -> bool {
    packet.len() <= payload || packet.len() < address_at(packet, payload)
}

/// The first record is an address record whose address lies within the
/// packet.
pub open spec fn has_address(packet: Seq<u8>, payload: int) -> bool {
    &&& !record_truncated(packet, payload)
    &&& address_width(packet, payload) > 0
    &&& address_at(packet, payload) + address_width(packet, payload) <= packet.len()
}

/// The packet with the first record's address set to zero and every other
/// byte as it was.
pub open spec fn neutered(packet: Seq<u8>, payload: int) -> Seq<u8> {
    Seq::new(
        packet.len(),
        |i: int|
            if address_at(packet, payload) <= i < address_at(packet, payload) + address_width(
                packet,
                payload,
            ) {
                0u8
            } else {
                packet[i]
            },
    )
}

/// The response is for a blocked name.
pub open spec fn blocked_response(packet: Seq<u8>, blocked: Set<Seq<u8>>) -> bool {
    is_dns_response(packet) && blocked.contains(question_name(packet))
}

/// The packet ends before the ingress path has read all it has to: inside a
/// header, before the question name, or, in a response for a blocked name,
/// inside the first record's fixed fields.
pub open spec fn response_truncated(packet: Seq<u8>, blocked: Set<Seq<u8>>) -> bool {
    ||| response_name_truncated(packet)
    ||| blocked_response(packet, blocked) && record_truncated(packet, payload_at(packet))
}

/// Whether the ingress path overwrites an address: the response is for a
/// blocked name, and its first record is an address record that lies within
/// the packet.
pub open spec fn neuters(packet: Seq<u8>, blocked: Set<Seq<u8>>) -> bool {
    blocked_response(packet, blocked) && has_address(packet, payload_at(packet))
}

/// The action of the ingress path.
pub open spec fn ingress_action(packet: Seq<u8>, blocked: Set<Seq<u8>>) -> Action {
    if neuters(packet, blocked) {
        Action::Neutered
    } else {
        Action::Pass
    }
}

/// The packet as the ingress path leaves it.
pub open spec fn ingress_packet(packet: Seq<u8>, blocked: Set<Seq<u8>>) -> Seq<u8> {
    if neuters(packet, blocked) {
        neutered(packet, payload_at(packet))
    } else {
        packet
    }
}

/// The question of an incoming DNS response: nothing for a packet that is no
/// UDP packet from port 53, an error where the packet ends before a header or
/// the question name could be read.
pub fn dns_response_name(packet: &[u8]) -> (found: Result<Option<Question>, ()>)
    ensures
        found is Err <==> response_name_truncated(packet@),
        found is Ok && found.unwrap() is Some <==> is_dns_response(packet@),
        found is Ok && found.unwrap() is Some ==> found.unwrap().unwrap().asked_in(packet@),
{
    let transport = match walk_headers(packet)? {
        Some(transport) => transport,
        None => {
            return Ok(None);
        },
    };
    if transport.udp.source != DNS_PORT {
        return Ok(None);
    }
    Ok(Some(load_question(packet, &transport)?))
}

/// Overwrites the address of the first resource record with zeros, in a
/// packet whose DNS payload begins at `payload_offset`.
///
/// The record is sought behind the first compression pointer of the payload.
/// An A record loses its four address bytes, an AAAA record its sixteen, where
/// they lie within the packet; any other record is left alone. An error means
/// that the record's fixed fields could not be read; nothing was changed then.
pub fn neuter_first_answer(packet: &mut [u8], payload_offset: usize) -> (outcome: Result<
    Action,
    (),
>)
    ensures
        outcome is Err <==> record_truncated(old(packet)@, payload_offset as int),
        outcome is Ok ==> outcome.unwrap() == (if has_address(
            old(packet)@,
            payload_offset as int,
        ) {
            Action::Neutered
        } else {
            Action::Pass
        }),
        final(packet)@ == (if has_address(old(packet)@, payload_offset as int) {
            neutered(old(packet)@, payload_offset as int)
        } else {
            old(packet)@
        }),
{
    let mut buf = load_name_buffer(packet, payload_offset)?;
    let found = get_answer_offset_from_payload(&mut buf);
    if found > packet.len() - payload_offset {
        return Err(());
    }
    let answer_offset = found + payload_offset;
    let answer = DNSAnswer::parse(packet, answer_offset)?;
    let ip_addr_offset = answer_offset + ANSWER_LEN;
    let rtype = answer.rtype();
    assert(rtype == be16_at(old(packet)@, record_at(old(packet)@, payload_offset as int)));
    if rtype == RTYPE_A {
        if packet.len() - ip_addr_offset >= 4 {
            store_bytes(packet, ip_addr_offset, &[0u8; 4]);
            assert(packet@ =~= neutered(old(packet)@, payload_offset as int));
            return Ok(Action::Neutered);
        }
    } else if rtype == RTYPE_AAAA {
        if packet.len() - ip_addr_offset >= 16 {
            store_bytes(packet, ip_addr_offset, &[0u8; 16]);
            assert(packet@ =~= neutered(old(packet)@, payload_offset as int));
            return Ok(Action::Neutered);
        }
    }
    Ok(Action::Pass)
}

/// The ingress path proper. An error means that the packet ended before all
/// could be read; nothing was changed then.
pub fn try_bpf_hole(packet: &mut [u8], blocklist: &Blocklist) -> (outcome: Result<Action, ()>)
    ensures
        outcome is Err <==> response_truncated(old(packet)@, blocklist@),
        outcome is Ok ==> outcome.unwrap() == ingress_action(old(packet)@, blocklist@),
        final(packet)@ == ingress_packet(old(packet)@, blocklist@),
{
    let question = match dns_response_name(packet)? {
        Some(question) => question,
        None => {
            return Ok(Action::Pass);
        },
    };
    if !blocklist.contains(&question.name) {
        return Ok(Action::Pass);
    }
    neuter_first_answer(packet, question.payload_offset)
}

/// The ingress entry point: inspects one incoming packet.
///
/// The packet is never dropped or redirected. In a well-formed DNS response
/// whose canonical name is blocked, the address of the first record is set to
/// zero where that record is an A or AAAA record; its type, class, time to
/// live and length, and every other byte, stay as they were.
pub fn bpf_hole_xdp(packet: &mut [u8], blocklist: &Blocklist) -> (action: Action)
    ensures
        action == ingress_action(old(packet)@, blocklist@),
        final(packet)@ == ingress_packet(old(packet)@, blocklist@),
        final(packet)@.len() == old(packet)@.len(),
        forall|i: int|
            0 <= i < old(packet)@.len() && final(packet)@[i] != old(packet)@[i] ==> neuters(
                old(packet)@,
                blocklist@,
            ) && final(packet)@[i] == 0 && address_at(old(packet)@, payload_at(old(packet)@)) <= i
                < address_at(old(packet)@, payload_at(old(packet)@)) + address_width(
                old(packet)@,
                payload_at(old(packet)@),
            ),
        old(packet)@.len() < MIN_HEADER_STACK ==> action == Action::Pass && final(packet)@ == old(
            packet,
        )@,
{
    match try_bpf_hole(packet, blocklist) {
        Ok(action) => action,
        Err(_) => Action::Pass,
    }
}

/// Neutering sets the address of the first record to zero and changes nothing
/// else: the record's type, class, time to live and length, and every byte
/// before and behind the address, are as they came.
pub proof fn lemma_neutered_address_only(packet: Seq<u8>, blocked: Set<Seq<u8>>)
    requires
        neuters(packet, blocked),
    ensures
        ingress_action(packet, blocked) == Action::Neutered,
        ingress_packet(packet, blocked).len() == packet.len(),
        address_width(packet, payload_at(packet)) == 4 || address_width(packet, payload_at(packet))
            == 16,
        forall|i: int|
            address_at(packet, payload_at(packet)) <= i < address_at(packet, payload_at(packet))
                + address_width(packet, payload_at(packet)) ==> ingress_packet(packet, blocked)[i]
                == 0,
        forall|i: int|
            0 <= i < packet.len() && !(address_at(packet, payload_at(packet)) <= i < address_at(
                packet,
                payload_at(packet),
            ) + address_width(packet, payload_at(packet))) ==> ingress_packet(packet, blocked)[i]
                == packet[i],
        ingress_packet(packet, blocked).subrange(
            record_at(packet, payload_at(packet)),
            address_at(packet, payload_at(packet)),
        ) == packet.subrange(
            record_at(packet, payload_at(packet)),
            address_at(packet, payload_at(packet)),
        ),
{
    let payload = payload_at(packet);
    lemma_answer_offset_bounds(name_buffer(packet, payload));
    assert(ingress_packet(packet, blocked).subrange(
        record_at(packet, payload),
        address_at(packet, payload),
    ) =~= packet.subrange(record_at(packet, payload), address_at(packet, payload)));
}

/// An A record of a blocked name loses its four address bytes, and only them.
pub proof fn lemma_neutered_a_record(packet: Seq<u8>, blocked: Set<Seq<u8>>)
    requires
        blocked_response(packet, blocked),
        be16_at(packet, record_at(packet, payload_at(packet))) == RTYPE_A,
        address_at(packet, payload_at(packet)) + 4 <= packet.len(),
    ensures
        neuters(packet, blocked),
        ingress_packet(packet, blocked) == packet.subrange(
            0,
            address_at(packet, payload_at(packet)),
        ) + zero_bytes(4) + packet.subrange(
            address_at(packet, payload_at(packet)) + 4,
            packet.len() as int,
        ),
{
    let payload = payload_at(packet);
    lemma_answer_offset_bounds(name_buffer(packet, payload));
    assert(ingress_packet(packet, blocked) =~= packet.subrange(0, address_at(packet, payload))
        + zero_bytes(4) + packet.subrange(address_at(packet, payload) + 4, packet.len() as int));
}

/// A packet shorter than the smallest header stack is never touched.
pub proof fn lemma_short_packet_untouched(packet: Seq<u8>, blocked: Set<Seq<u8>>)
    requires
        packet.len() < MIN_HEADER_STACK,
    ensures
        ingress_action(packet, blocked) == Action::Pass,
        ingress_packet(packet, blocked) == packet,
{
}

} // verus!
