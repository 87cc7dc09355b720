//! The header walk shared by both attachment points: Ethernet, then IPv4 or
//! IPv6, then UDP, each read only after its bounds check, and the fixed buffer
//! that takes the question name.

use vstd::prelude::*;
use crate::blocklist::padded_key;
use crate::consts::PACKET_DATA_BUF_LEN;
use crate::dns::{
    decode_qname_data, decoded_qname, dotted_name, encoded_name, labels_fit,
    lemma_decode_of_encoded_name, zero_bytes, DNSHeader,
};
use crate::net::{
    ether_type_ipv4, ether_type_ipv6, eth_hdr_len, ip_proto_udp, udp_hdr_len, EthernetHeader,
    IpVersion, Ipv4Header, Ipv6Header, UdpHeader, ETHER_TYPE_IPV4, ETHER_TYPE_IPV6, ETH_HDR_LEN,
    IPV4_HDR_LEN, IPV4_PROTO_AT, IPV6_HDR_LEN, IPV6_NEXT_HDR_AT, IP_PROTO_UDP, UDP_HDR_LEN,
};
use crate::wire::be16_at;

verus! {

/// The smallest header stack a DNS message travels in: Ethernet, IPv4, UDP and
/// the DNS header.
pub const MIN_HEADER_STACK: usize = 54;

/// The frame's ether-type.
pub open spec fn ether_type(packet: Seq<u8>) -> int {
    be16_at(packet, 12)
}

/// The frame announces IPv4.
pub open spec fn is_ipv4(packet: Seq<u8>) -> bool {
    ether_type(packet) == ETHER_TYPE_IPV4
}

/// The frame announces IPv6.
pub open spec fn is_ipv6(packet: Seq<u8>) -> bool {
    ether_type(packet) == ETHER_TYPE_IPV6
}

/// Length of the IP header that the ether-type announces.
pub open spec fn ip_hdr_len(packet: Seq<u8>) -> int {
    if is_ipv4(packet) {
        IPV4_HDR_LEN as int
    } else {
        IPV6_HDR_LEN as int
    }
}

/// The transport protocol's number: IPv4's protocol field or IPv6's
/// next-header field.
pub open spec fn ip_proto(packet: Seq<u8>) -> u8 {
    if is_ipv4(packet) {
        packet[ETH_HDR_LEN + IPV4_PROTO_AT]
    } else {
        packet[ETH_HDR_LEN + IPV6_NEXT_HDR_AT]
    }
}

/// Where the UDP header begins.
pub open spec fn udp_at(packet: Seq<u8>) -> int {
    ETH_HDR_LEN + ip_hdr_len(packet)
}

/// Where the DNS header begins.
pub open spec fn dns_at(packet: Seq<u8>) -> int {
    udp_at(packet) + UDP_HDR_LEN
}

/// Where the question name begins, right behind the DNS header.
pub open spec fn payload_at(packet: Seq<u8>) -> int {
    dns_at(packet) + DNSHeader::HDRLEN
}

/// The UDP source port.
pub open spec fn udp_source(packet: Seq<u8>) -> int {
    be16_at(packet, udp_at(packet))
}

/// The UDP destination port.
pub open spec fn udp_dest(packet: Seq<u8>) -> int {
    be16_at(packet, udp_at(packet) + 2)
}

/// The packet ends inside a header that the walk has to read.
pub open spec fn headers_truncated(packet: Seq<u8>) -> bool {
    ||| packet.len() < ETH_HDR_LEN
    ||| (is_ipv4(packet) || is_ipv6(packet)) && packet.len() < udp_at(packet)
    ||| (is_ipv4(packet) || is_ipv6(packet)) && ip_proto(packet) == IP_PROTO_UDP && packet.len()
        < dns_at(packet)
}

/// The packet holds complete Ethernet, IP and UDP headers, one upon the other.
pub open spec fn carries_udp(packet: Seq<u8>) -> bool {
    &&& (is_ipv4(packet) || is_ipv6(packet))
    &&& packet.len() >= dns_at(packet)
    &&& ip_proto(packet) == IP_PROTO_UDP
}

/// What the walk found in a packet that carries UDP.
#[derive(Clone, Copy, Debug)]
pub struct Transport {
    /// The IP header.
    pub ip: IpVersion,
    /// The UDP header.
    pub udp: UdpHeader,
    /// Offset of the UDP header in the packet.
    pub udp_offset: usize,
}

impl Transport {
    /// `self` is what the walk reads out of `packet`.
    pub open spec fn walked_from(&self, packet: Seq<u8>) -> bool {
        &&& match self.ip {
            IpVersion::V4(hdr) => is_ipv4(packet) && hdr == Ipv4Header::decoded_at(
                packet,
                ETH_HDR_LEN as int,
            ),
            IpVersion::V6(hdr) => is_ipv6(packet) && Ipv6Header::decoded_at(
                packet,
                ETH_HDR_LEN as int,
                hdr,
            ),
        }
        &&& self.udp == UdpHeader::decoded_at(packet, udp_at(packet))
        &&& self.udp_offset == udp_at(packet)
    }
}

/// Walks the headers of a frame. The result is the IP and UDP headers of a
/// frame that carries UDP over IPv4 or IPv6, nothing for other traffic, and an
/// error where the frame ends inside a header the walk has to read.
pub fn walk_headers(packet: &[u8]) -> (found: Result<Option<Transport>, ()>)
    ensures
        found is Err <==> headers_truncated(packet@),
        found is Ok && found.unwrap() is Some <==> carries_udp(packet@),
        found is Ok && found.unwrap() is Some ==> found.unwrap().unwrap().walked_from(packet@),
{
    let eth = EthernetHeader::parse(packet, 0)?;
    let ip = if eth.ether_type == ether_type_ipv4() {
        IpVersion::V4(Ipv4Header::parse(packet, eth_hdr_len())?)
    } else if eth.ether_type == ether_type_ipv6() {
        IpVersion::V6(Ipv6Header::parse(packet, eth_hdr_len())?)
    } else {
        return Ok(None);
    };
    if ip.proto() != ip_proto_udp() {
        return Ok(None);
    }
    let udp_offset = eth_hdr_len() + ip.offset();
    let udp = UdpHeader::parse(packet, udp_offset)?;
    Ok(Some(Transport { ip, udp, udp_offset }))
}

/// The fixed buffer filled from the packet at `at`: the bytes that are there,
/// then zeros.
pub open spec fn name_buffer(packet: Seq<u8>, at: int) -> Seq<u8> {
    Seq::new(
        PACKET_DATA_BUF_LEN as nat,
        |i: int| if at + i < packet.len() { packet[at + i] } else { 0u8 },
    )
}

/// The canonical question name of a DNS message: the buffer behind the DNS
/// header, decoded.
pub open spec fn question_name(packet: Seq<u8>) -> Seq<u8> {
    decoded_qname(name_buffer(packet, payload_at(packet)))
}

/// Copies up to `PACKET_DATA_BUF_LEN` bytes from `at` on into a zeroed buffer,
/// or fails where the packet has no byte at `at`.
pub fn load_name_buffer(packet: &[u8], at: usize) -> (buf: Result<[u8; PACKET_DATA_BUF_LEN], ()>)
    ensures
        buf is Ok <==> at < packet@.len(),
        buf is Ok ==> buf.unwrap()@ == name_buffer(packet@, at as int),
{
    if at >= packet.len() {
        return Err(());
    }
    let available: usize = packet.len() - at;
    let count: usize = if available < PACKET_DATA_BUF_LEN {
        available
    } else {
        PACKET_DATA_BUF_LEN
    };
    let mut buf = [0u8; PACKET_DATA_BUF_LEN];
    let mut i: usize = 0;
    while i < count
        invariant
            i <= count <= PACKET_DATA_BUF_LEN,
            at + count <= packet.len(),
            forall|j: int| 0 <= j < i ==> buf@[j] == packet@[at + j],
            forall|j: int| i <= j < PACKET_DATA_BUF_LEN ==> buf@[j] == 0,
        decreases count - i,
    {
        buf[i] = packet[at + i];
        i += 1;
    }
    assert(buf@ =~= name_buffer(packet@, at as int));
    Ok(buf)
}

/// The question of a DNS message as the lookup needs it.
#[derive(Clone, Copy, Debug)]
pub struct Question {
    /// The canonical name: the key under which the blocklist would hold it.
    pub name: [u8; PACKET_DATA_BUF_LEN],
    /// Where the question name begins in the packet.
    pub payload_offset: usize,
}

impl Question {
    /// `self` is the question of the DNS message in `packet`.
    pub open spec fn asked_in(&self, packet: Seq<u8>) -> bool {
        &&& self.name@ == question_name(packet)
        &&& self.payload_offset == payload_at(packet)
    }
}

/// Reads the question name behind the DNS header of a packet whose UDP header
/// the walk has found, and decodes it. Fails where the packet has no byte
/// behind the DNS header.
pub(crate) fn load_question(packet: &[u8], transport: &Transport) -> (question: Result<Question, ()>)
    requires
        carries_udp(packet@),
        transport.walked_from(packet@),
    ensures
        question is Ok <==> packet@.len() > payload_at(packet@),
        question is Ok ==> question.unwrap().asked_in(packet@),
{
    let dns_offset = transport.udp_offset + udp_hdr_len();
    DNSHeader::parse(packet, dns_offset)?;
    let payload_offset = dns_offset + DNSHeader::HDRLEN;
    let mut name = load_name_buffer(packet, payload_offset)?;
    decode_qname_data(&mut name);
    Ok(Question { name, payload_offset })
}

/// A message that carries the encoding of a name behind its DNS header has
/// the key of that name, written with dots, as its canonical question name:
/// the key under which a line of the blocklist file blocks it.
///
/// This holds of every name of at least one label whose labels are not empty
/// and whose encoding fits the name buffer.
pub proof fn lemma_question_name_of_encoded_name(packet: Seq<u8>, labels: Seq<Seq<u8>>)
    requires
        labels.len() >= 1,
        labels_fit(labels),
        encoded_name(labels).len() <= PACKET_DATA_BUF_LEN,
        name_buffer(packet, payload_at(packet)).take(encoded_name(labels).len() as int)
            == encoded_name(labels),
    ensures
        question_name(packet) == padded_key(dotted_name(labels)),
{
    let buf = name_buffer(packet, payload_at(packet));
    let encoded = encoded_name(labels);
    let tail = buf.skip(encoded.len() as int);
    assert(buf =~= encoded + tail);
    lemma_decode_of_encoded_name(labels, tail);
    let decoded = dotted_name(labels) + zero_bytes(tail.len() + 2);
    assert(decoded_qname(buf).len() == buf.len());
    assert(decoded =~= padded_key(dotted_name(labels)));
}

} // verus!
