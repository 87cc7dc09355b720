//! The egress decision: a DNS query for a blocked name is rewritten to the
//! loopback address and redirected; everything else passes untouched.

use vstd::prelude::*;
use crate::action::{Action, IFINDEX_LO};
use crate::blocklist::{padded_key, Blocklist};
use crate::checksum::{checksum_fixup, fixup, lemma_fixup_balances, words_of};
use crate::consts::PACKET_DATA_BUF_LEN;
use crate::dns::{dotted_name, encoded_name, labels_fit};
use crate::net::{
    ether_type_ipv4, ether_type_ipv6, eth_hdr_len, ipv4_hdr_len, ipv6_hdr_len,
    loopback_addr_v4_as_be_u32,
    loopback_addr_v6, loopback_v6_bytes, ptr_at, EthernetHeader, Ipv4Header, DNS_PORT,
    ETH_HDR_LEN, IPV4_CHECK_AT, IPV4_DST_AT, IPV4_HDR_LEN, IPV6_DST_AT,
};
use crate::packet::{
    carries_udp, headers_truncated, ip_hdr_len, is_ipv4, is_ipv6,
    lemma_question_name_of_encoded_name,
    load_question, name_buffer, payload_at, question_name, udp_at, udp_dest, walk_headers,
    Question, MIN_HEADER_STACK,
};
use crate::wire::{be16_at, be32_at, store_be16, store_bytes};

verus! {

/// Offset of the IPv4 header checksum in a frame.
pub open spec fn v4_check_at() -> int {
    ETH_HDR_LEN + IPV4_CHECK_AT
}

/// Offset of the IPv4 destination address in a frame.
pub open spec fn v4_dst_at() -> int {
    ETH_HDR_LEN + IPV4_DST_AT
}

/// Offset of the IPv6 destination address in a frame.
pub open spec fn v6_dst_at() -> int {
    ETH_HDR_LEN + IPV6_DST_AT
}

/// A well-formed DNS query: UDP to port 53 with a whole DNS header and at
/// least one byte of question name behind it.
pub open spec fn is_dns_query(packet: Seq<u8>) -> bool {
    &&& carries_udp(packet)
    &&& udp_dest(packet) == DNS_PORT
    &&& packet.len() > payload_at(packet)
}

/// The packet ends before the egress path has read all it has to.
pub open spec fn query_truncated(packet: Seq<u8>) -> bool {
    ||| headers_truncated(packet)
    ||| carries_udp(packet) && udp_dest(packet) == DNS_PORT && packet.len() <= payload_at(packet)
}

/// The four bytes of 127.0.0.1.
pub open spec fn loopback_v4_bytes() -> Seq<u8> {
    seq![127u8, 0u8, 0u8, 1u8]
}

/// The checksum that an IPv4 frame carries once its destination is loopback.
pub open spec fn redirected_checksum(packet: Seq<u8>) -> u16 {
    fixup(
        be16_at(packet, v4_check_at()) as u16,
        be32_at(packet, v4_dst_at()) as u32,
        0x7F00_0001,
    )
}

/// The frame after the redirect's rewrite. In an IPv4 frame the destination
/// address becomes 127.0.0.1 and the header checksum is adjusted by the
/// change; in an IPv6 frame the destination address becomes `::1`. No other
/// byte changes.
pub open spec fn redirected(packet: Seq<u8>) -> Seq<u8> {
    if is_ipv4(packet) {
        Seq::new(
            packet.len(),
            |i: int|
                if v4_dst_at() <= i < v4_dst_at() + 4 {
                    loopback_v4_bytes()[i - v4_dst_at()]
                } else if i == v4_check_at() {
                    (redirected_checksum(packet) / 256) as u8
                } else if i == v4_check_at() + 1 {
                    (redirected_checksum(packet) % 256) as u8
                } else {
                    packet[i]
                },
        )
    } else {
        Seq::new(
            packet.len(),
            |i: int|
                if v6_dst_at() <= i < v6_dst_at() + 16 {
                    loopback_v6_bytes()[i - v6_dst_at()]
                } else {
                    packet[i]
                },
        )
    }
}

/// The packet is a well-formed DNS query whose canonical name is blocked: the
/// packets that the egress path acts on.
pub open spec fn blocked_query(packet: Seq<u8>, blocked: Set<Seq<u8>>) -> bool {
    is_dns_query(packet) && blocked.contains(question_name(packet))
}

/// The action of the egress path.
pub open spec fn egress_action(packet: Seq<u8>, blocked: Set<Seq<u8>>) -> Action {
    if blocked_query(packet, blocked) {
        Action::Redirect { ifindex: IFINDEX_LO, ingress: true }
    } else {
        Action::Pass
    }
}

/// The packet as the egress path leaves it.
pub open spec fn egress_packet(packet: Seq<u8>, blocked: Set<Seq<u8>>) -> Seq<u8> {
    if blocked_query(packet, blocked) {
        redirected(packet)
    } else {
        packet
    }
}

/// The frame holds an Ethernet header and, whole, the IP header it announces.
pub open spec fn has_ip_header(packet: Seq<u8>) -> bool {
    &&& packet.len() >= ETH_HDR_LEN
    &&& (is_ipv4(packet) || is_ipv6(packet))
    &&& packet.len() >= udp_at(packet)
}

/// The question of an outgoing DNS query: nothing for a packet that is no
/// UDP packet to port 53, an error where the packet ends before a header or
/// the question name could be read.
pub fn dns_query_name(packet: &[u8]) -> (found: Result<Option<Question>, ()>)
    ensures
        found is Err <==> query_truncated(packet@),
        found is Ok && found.unwrap() is Some <==> is_dns_query(packet@),
        found is Ok && found.unwrap() is Some ==> found.unwrap().unwrap().asked_in(packet@),
{
    let transport = match walk_headers(packet)? {
        Some(transport) => transport,
        None => {
            return Ok(None);
        },
    };
    if transport.udp.dest != DNS_PORT {
        return Ok(None);
    }
    Ok(Some(load_question(packet, &transport)?))
}

/// Rewrites the destination of a frame to the loopback address, and with it
/// the header checksum of an IPv4 frame, and returns the length of the IP
/// header that was written to. Where the frame does not hold a whole IP header
/// nothing is written and the result is an error.
pub fn redirect_to_loopback(packet: &mut [u8]) -> (done: Result<usize, ()>)
    ensures
        done is Ok <==> has_ip_header(old(packet)@),
        done is Ok ==> done.unwrap() == ip_hdr_len(old(packet)@) && final(packet)@ == redirected(
            old(packet)@,
        ),
        done is Err ==> final(packet)@ == old(packet)@,
{
    let eth = EthernetHeader::parse(packet, 0)?;
    let ip_len = if eth.ether_type == ether_type_ipv4() {
        let iphdr = Ipv4Header::parse(packet, eth_hdr_len())?;
        let new_addr = loopback_addr_v4_as_be_u32();
        let check = checksum_fixup(iphdr.check, iphdr.dst_addr, new_addr);
        store_be16(packet, eth_hdr_len() + IPV4_CHECK_AT, check);
        store_bytes(packet, eth_hdr_len() + IPV4_DST_AT, &[127, 0, 0, 1]);
        ipv4_hdr_len()
    } else if eth.ether_type == ether_type_ipv6() {
        ptr_at(packet.len(), eth_hdr_len(), ipv6_hdr_len())?;
        let dst = loopback_addr_v6();
        store_bytes(packet, eth_hdr_len() + IPV6_DST_AT, &dst);
        ipv6_hdr_len()
    } else {
        return Err(());
    };
    assert(packet@ =~= redirected(old(packet)@));
    Ok(ip_len)
}

/// The egress path proper. An error means that the packet ended before a
/// header or the question name could be read; nothing was changed then.
pub fn try_bpf_hole_tc(packet: &mut [u8], blocklist: &Blocklist) -> (outcome: Result<Action, ()>)
    ensures
        outcome is Err <==> query_truncated(old(packet)@),
        outcome is Ok ==> outcome.unwrap() == egress_action(old(packet)@, blocklist@),
        final(packet)@ == egress_packet(old(packet)@, blocklist@),
{
    let question = match dns_query_name(packet)? {
        Some(question) => question,
        None => {
            return Ok(Action::Pass);
        },
    };
    if !blocklist.contains(&question.name) {
        return Ok(Action::Pass);
    }
    redirect_to_loopback(packet)?;
    Ok(Action::Redirect { ifindex: IFINDEX_LO, ingress: true })
}

/// The egress entry point: decides on one outgoing packet.
///
/// A well-formed DNS query whose canonical name is blocked is rewritten and
/// redirected to loopback. Every other packet passes with every byte as it
/// was, also one too short to be parsed.
pub fn bpf_hole_tc(packet: &mut [u8], blocklist: &Blocklist) -> (action: Action)
    ensures
        action == egress_action(old(packet)@, blocklist@),
        final(packet)@ == egress_packet(old(packet)@, blocklist@),
        is_dns_query(old(packet)@) && blocklist@.contains(question_name(old(packet)@)) ==> action
            == (Action::Redirect { ifindex: IFINDEX_LO, ingress: true }) && final(packet)@ == redirected(
            old(packet)@,
        ),
        is_dns_query(old(packet)@) && !blocklist@.contains(question_name(old(packet)@)) ==> action
            == Action::Pass && final(packet)@ == old(packet)@,
        old(packet)@.len() < MIN_HEADER_STACK ==> action == Action::Pass && final(packet)@ == old(
            packet,
        )@,
{
    match try_bpf_hole_tc(packet, blocklist) {
        Ok(action) => action,
        Err(_) => Action::Pass,
    }
}

/// The egress decision under the simpler policy, which drops what the
/// preferred one redirects: a well-formed DNS query whose canonical name is
/// blocked is to be discarded, which the client sees as a timeout; every other
/// packet passes. The packet is not written to.
pub fn bpf_hole_tc_drop(packet: &[u8], blocklist: &Blocklist) -> (action: Action)
    ensures
        action == (if blocked_query(packet@, blocklist@) {
            Action::Drop
        } else {
            Action::Pass
        }),
{
    match dns_query_name(packet) {
        Ok(Some(question)) => {
            if blocklist.contains(&question.name) {
                Action::Drop
            } else {
                Action::Pass
            }
        },
        _ => Action::Pass,
    }
}

/// A redirected IPv4 query leaves with the destination 127.0.0.1, with the
/// checksum that the incremental formula gives for the change of address, and
/// with every other byte as it came.
pub proof fn lemma_redirected_ipv4(packet: Seq<u8>, blocked: Set<Seq<u8>>)
    requires
        blocked_query(packet, blocked),
        is_ipv4(packet),
    ensures
        egress_action(packet, blocked) == (Action::Redirect { ifindex: IFINDEX_LO, ingress: true }),
        egress_packet(packet, blocked).len() == packet.len(),
        be32_at(egress_packet(packet, blocked), v4_dst_at()) == 0x7F00_0001,
        be16_at(egress_packet(packet, blocked), v4_check_at()) == fixup(
            be16_at(packet, v4_check_at()) as u16,
            be32_at(packet, v4_dst_at()) as u32,
            0x7F00_0001,
        ),
        forall|i: int|
            0 <= i < packet.len() && !(v4_check_at() <= i < v4_check_at() + 2) && !(v4_dst_at()
                <= i < v4_dst_at() + 4) ==> egress_packet(packet, blocked)[i] == packet[i],
{
    let out = redirected(packet);
    assert(out[v4_check_at()] == (redirected_checksum(packet) / 256) as u8);
    assert(out[v4_dst_at()] == 127u8);
}

/// A redirected IPv6 query leaves with the destination `::1` and with every
/// other byte as it came.
pub proof fn lemma_redirected_ipv6(packet: Seq<u8>, blocked: Set<Seq<u8>>)
    requires
        blocked_query(packet, blocked),
        is_ipv6(packet),
    ensures
        egress_action(packet, blocked) == (Action::Redirect { ifindex: IFINDEX_LO, ingress: true }),
        egress_packet(packet, blocked).len() == packet.len(),
        egress_packet(packet, blocked).subrange(v6_dst_at(), v6_dst_at() + 16)
            == loopback_v6_bytes(),
        forall|i: int|
            0 <= i < packet.len() && !(v6_dst_at() <= i < v6_dst_at() + 16) ==> egress_packet(
                packet,
                blocked,
            )[i] == packet[i],
{
    assert(egress_packet(packet, blocked).subrange(v6_dst_at(), v6_dst_at() + 16)
        =~= loopback_v6_bytes());
}

/// A packet shorter than the smallest header stack is never redirected.
pub proof fn lemma_short_packet_passes(packet: Seq<u8>, blocked: Set<Seq<u8>>)
    requires
        packet.len() < MIN_HEADER_STACK,
    ensures
        egress_action(packet, blocked) == Action::Pass,
        egress_packet(packet, blocked) == packet,
{
}

/// The sum of the ten 16-bit words of the IPv4 header of a frame.
pub open spec fn ipv4_header_sum(packet: Seq<u8>) -> int {
    be16_at(packet, ETH_HDR_LEN + 0) + be16_at(packet, ETH_HDR_LEN + 2) + be16_at(
        packet,
        ETH_HDR_LEN + 4,
    ) + be16_at(packet, ETH_HDR_LEN + 6) + be16_at(packet, ETH_HDR_LEN + 8) + be16_at(
        packet,
        ETH_HDR_LEN + 10,
    ) + be16_at(packet, ETH_HDR_LEN + 12) + be16_at(packet, ETH_HDR_LEN + 14) + be16_at(
        packet,
        ETH_HDR_LEN + 16,
    ) + be16_at(packet, ETH_HDR_LEN + 18)
}

/// The header checksum of an IPv4 frame is right: the ones'-complement sum of
/// the header's words, the checksum among them, is 0xFFFF, which is to say
/// that their sum is a positive multiple of 0xFFFF.
pub open spec fn ipv4_checksum_valid(packet: Seq<u8>) -> bool {
    ipv4_header_sum(packet) > 0 && ipv4_header_sum(packet) % 65535 == 0
}

/// A multiple of 0xFFFF stays one when terms of it are exchanged for terms
/// that add up to the same modulo 0xFFFF.
proof fn lemma_exchange_keeps_multiple(sum: int, left: int, came: int)
    requires
        sum % 65535 == 0,
        came % 65535 == left % 65535,
    ensures
        (sum - left + came) % 65535 == 0,
{
}

/// The words of a 32-bit field are its two 16-bit halves.
proof fn lemma_words_of_field(bytes: Seq<u8>, at: int)
    ensures
        words_of(be32_at(bytes, at) as u32) == be16_at(bytes, at) + be16_at(bytes, at + 2),
{
    let hi = be16_at(bytes, at);
    let lo = be16_at(bytes, at + 2);
    assert(be32_at(bytes, at) == hi * 65536 + lo);
}

/// What the rewrite does to the header sum of an IPv4 frame: the old
/// checksum and the old address's words leave, the new checksum and the words
/// of 127.0.0.1 come, and what stays is not negative.
proof fn lemma_header_sum_after_rewrite(packet: Seq<u8>)
    requires
        packet.len() >= ETH_HDR_LEN + IPV4_HDR_LEN,
        is_ipv4(packet),
    ensures
        ipv4_header_sum(redirected(packet)) == ipv4_header_sum(packet) - be16_at(
            packet,
            v4_check_at(),
        ) - be16_at(packet, v4_dst_at()) - be16_at(packet, v4_dst_at() + 2) + redirected_checksum(
            packet,
        ) + 0x7F00 + 1,
        ipv4_header_sum(packet) - be16_at(packet, v4_check_at()) - be16_at(packet, v4_dst_at())
            - be16_at(packet, v4_dst_at() + 2) >= 0,
{
    let out = redirected(packet);
    let check = redirected_checksum(packet);
    assert(out[v4_check_at()] == check / 256);
    assert(out[v4_check_at() + 1] == check % 256);
    assert(be16_at(out, v4_check_at()) == check);
    assert(be16_at(out, v4_dst_at()) == 0x7F00);
    assert(be16_at(out, v4_dst_at() + 2) == 1);
    assert(be16_at(out, ETH_HDR_LEN + 0) == be16_at(packet, ETH_HDR_LEN + 0));
    assert(be16_at(out, ETH_HDR_LEN + 2) == be16_at(packet, ETH_HDR_LEN + 2));
    assert(be16_at(out, ETH_HDR_LEN + 4) == be16_at(packet, ETH_HDR_LEN + 4));
    assert(be16_at(out, ETH_HDR_LEN + 6) == be16_at(packet, ETH_HDR_LEN + 6));
    assert(be16_at(out, ETH_HDR_LEN + 8) == be16_at(packet, ETH_HDR_LEN + 8));
    assert(be16_at(out, ETH_HDR_LEN + 12) == be16_at(packet, ETH_HDR_LEN + 12));
    assert(be16_at(out, ETH_HDR_LEN + 14) == be16_at(packet, ETH_HDR_LEN + 14));
}

/// The redirect's rewrite keeps a right checksum right: the incremental
/// adjustment agrees with a sum over the rewritten header.
pub proof fn lemma_redirect_keeps_checksum_valid(packet: Seq<u8>)
    requires
        packet.len() >= ETH_HDR_LEN + IPV4_HDR_LEN,
        is_ipv4(packet),
        ipv4_checksum_valid(packet),
    ensures
        ipv4_checksum_valid(redirected(packet)),
{
    let old_check = be16_at(packet, v4_check_at()) as u16;
    let old_addr = be32_at(packet, v4_dst_at()) as u32;
    let left = old_check + words_of(old_addr);
    let came = redirected_checksum(packet) + words_of(0x7F00_0001);
    lemma_fixup_balances(old_check, old_addr, 0x7F00_0001);
    lemma_words_of_field(packet, v4_dst_at());
    lemma_header_sum_after_rewrite(packet);
    lemma_exchange_keeps_multiple(ipv4_header_sum(packet), left, came);
}

/// As much of a packet as the egress path reads: the longest header stack and
/// the name buffer behind it.
pub const HEAD_LEN: usize = 202;

/// The egress path decides on the first `HEAD_LEN` bytes of a packet: the
/// head of a longer packet is decided, and rewritten, as the packet is.
pub proof fn lemma_head_decides(packet: Seq<u8>, blocked: Set<Seq<u8>>)
    requires
        packet.len() >= HEAD_LEN,
    ensures
        !query_truncated(packet),
        !query_truncated(packet.take(HEAD_LEN as int)),
        egress_action(packet.take(HEAD_LEN as int), blocked) == egress_action(packet, blocked),
        egress_packet(packet.take(HEAD_LEN as int), blocked) == egress_packet(
            packet,
            blocked,
        ).take(HEAD_LEN as int),
{
    let head = packet.take(HEAD_LEN as int);
    assert(name_buffer(head, payload_at(head)) =~= name_buffer(packet, payload_at(packet)));
    assert(redirected(head) =~= redirected(packet).take(HEAD_LEN as int));
}

/// A well-formed query for a name whose dotted form is blocked is redirected:
/// what a line of the blocklist file blocks is the query that carries the
/// encoding of that line's name.
pub proof fn lemma_query_for_blocked_name_is_redirected(
    packet: Seq<u8>,
    labels: Seq<Seq<u8>>,
    blocked: Set<Seq<u8>>,
)
    requires
        is_dns_query(packet),
        labels.len() >= 1,
        labels_fit(labels),
        encoded_name(labels).len() <= PACKET_DATA_BUF_LEN,
        name_buffer(packet, payload_at(packet)).take(encoded_name(labels).len() as int)
            == encoded_name(labels),
    ensures
        blocked.contains(padded_key(dotted_name(labels))) ==> egress_action(packet, blocked) == (
        Action::Redirect { ifindex: IFINDEX_LO, ingress: true }),
        !blocked.contains(padded_key(dotted_name(labels))) ==> egress_action(packet, blocked)
            == Action::Pass && egress_packet(packet, blocked) == packet,
{
    lemma_question_name_of_encoded_name(packet, labels);
}

} // verus!
