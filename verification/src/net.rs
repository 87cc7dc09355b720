//! Ethernet, IP and UDP headers as the pipeline reads them: plain values
//! decoded from packet bytes, every read behind a bounds check.

use vstd::prelude::*;
use crate::wire::{be16_at, be32_at, read_be16, read_be32};

verus! {

/// Length of an Ethernet header.
pub const ETH_HDR_LEN: usize = 14;

/// Length of the fixed IPv4 header, which is all that is read of it.
pub const IPV4_HDR_LEN: usize = 20;

/// Length of the fixed IPv6 header; extension headers are not walked.
pub const IPV6_HDR_LEN: usize = 40;

/// Length of a UDP header.
pub const UDP_HDR_LEN: usize = 8;

/// Ether-type of IPv4.
pub const ETHER_TYPE_IPV4: u16 = 0x0800;

/// Ether-type of IPv6.
pub const ETHER_TYPE_IPV6: u16 = 0x86DD;

/// Protocol number of UDP.
pub const IP_PROTO_UDP: u8 = 17;

/// The port DNS servers listen on.
pub const DNS_PORT: u16 = 53;

/// `network_types::eth::EthHdr::LEN`, the size of the packed struct of two
/// six-byte addresses and a two-byte ether-type: trusted to be 14.
#[verifier::external_body]
pub(crate) fn eth_hdr_len() -> (len: usize)
    ensures
        len == ETH_HDR_LEN,
{
    network_types::eth::EthHdr::LEN
}

/// `network_types::ip::Ipv4Hdr::LEN`, the size of the IPv4 header struct
/// without options: trusted to be 20.
#[verifier::external_body]
pub(crate) fn ipv4_hdr_len() -> (len: usize)
    ensures
        len == IPV4_HDR_LEN,
{
    network_types::ip::Ipv4Hdr::LEN
}

/// `network_types::ip::Ipv6Hdr::LEN`, the size of the fixed IPv6 header
/// struct: trusted to be 40.
#[verifier::external_body]
pub(crate) fn ipv6_hdr_len() -> (len: usize)
    ensures
        len == IPV6_HDR_LEN,
{
    network_types::ip::Ipv6Hdr::LEN
}

/// `network_types::udp::UdpHdr::LEN`, the size of a struct of four 16-bit
/// fields: trusted to be 8.
#[verifier::external_body]
pub(crate) fn udp_hdr_len() -> (len: usize)
    ensures
        len == UDP_HDR_LEN,
{
    network_types::udp::UdpHdr::LEN
}

/// The number of `network_types::eth::EtherType::Ipv4`. The crate declares it
/// as `0x0800_u16.to_be()`, the value whose bytes in memory are the wire's;
/// read back from big-endian it is trusted to be 0x0800 on every machine.
#[verifier::external_body]
pub(crate) fn ether_type_ipv4() -> (code: u16)
    ensures
        code == ETHER_TYPE_IPV4,
{
    u16::from_be(network_types::eth::EtherType::Ipv4 as u16)
}

/// The number of `network_types::eth::EtherType::Ipv6`, declared as
/// `0x86DD_u16.to_be()`; read back from big-endian it is trusted to be 0x86DD.
#[verifier::external_body]
pub(crate) fn ether_type_ipv6() -> (code: u16)
    ensures
        code == ETHER_TYPE_IPV6,
{
    u16::from_be(network_types::eth::EtherType::Ipv6 as u16)
}

/// The number of `network_types::ip::IpProto::Udp`, declared as 17.
#[verifier::external_body]
pub(crate) fn ip_proto_udp() -> (code: u8)
    ensures
        code == IP_PROTO_UDP,
{
    network_types::ip::IpProto::Udp as u8
}

/// The bounds check that stands before every read of `len` bytes at `offset`
/// of a packet of `packet_len` bytes: the offset itself, or an error where the
/// read would pass the packet's end.
pub fn ptr_at(packet_len: usize, offset: usize, len: usize) -> (start: Result<usize, ()>)
    ensures
        start is Ok <==> offset + len <= packet_len,
        start is Ok ==> start.unwrap() == offset,
{
    if offset > packet_len || len > packet_len - offset {
        Err(())
    } else {
        Ok(offset)
    }
}

/// The fields of an Ethernet header.
#[derive(Clone, Copy, Debug)]
pub struct EthernetHeader {
    pub dst_addr: [u8; 6],
    pub src_addr: [u8; 6],
    pub ether_type: u16,
}

impl EthernetHeader {
    /// `header` holds what the fourteen bytes at `at` encode.
    pub open spec fn decoded_at(bytes: Seq<u8>, at: int, header: EthernetHeader) -> bool {
        &&& header.dst_addr@ == bytes.subrange(at, at + 6)
        &&& header.src_addr@ == bytes.subrange(at + 6, at + 12)
        &&& header.ether_type == be16_at(bytes, at + 12)
    }

    /// Reads the header at `at`, or fails where fourteen bytes are not there.
    pub fn parse(bytes: &[u8], at: usize) -> (header: Result<EthernetHeader, ()>)
        ensures
            header is Ok <==> at + ETH_HDR_LEN <= bytes@.len(),
            header is Ok ==> EthernetHeader::decoded_at(bytes@, at as int, header.unwrap()),
    {
        let at = ptr_at(bytes.len(), at, eth_hdr_len())?;
        let header = EthernetHeader {
            dst_addr: [
                bytes[at],
                bytes[at + 1],
                bytes[at + 2],
                bytes[at + 3],
                bytes[at + 4],
                bytes[at + 5],
            ],
            src_addr: [
                bytes[at + 6],
                bytes[at + 7],
                bytes[at + 8],
                bytes[at + 9],
                bytes[at + 10],
                bytes[at + 11],
            ],
            ether_type: read_be16(bytes, at + 12),
        };
        assert(header.dst_addr@ =~= bytes@.subrange(at as int, at + 6));
        assert(header.src_addr@ =~= bytes@.subrange(at + 6, at + 12));
        Ok(header)
    }
}

/// The fields of the fixed IPv4 header, multi-byte ones decoded from network
/// order.
#[derive(Clone, Copy, Debug, PartialEq, Eq, Structural)]
pub struct Ipv4Header {
    pub version_ihl: u8,
    pub tos: u8,
    pub tot_len: u16,
    pub id: u16,
    pub frag_off: u16,
    pub ttl: u8,
    pub proto: u8,
    pub check: u16,
    pub src_addr: u32,
    pub dst_addr: u32,
}

/// Offset of the protocol field in an IPv4 header.
pub const IPV4_PROTO_AT: usize = 9;

/// Offset of the header checksum in an IPv4 header.
pub const IPV4_CHECK_AT: usize = 10;

/// Offset of the destination address in an IPv4 header.
pub const IPV4_DST_AT: usize = 16;

impl Ipv4Header {
    /// The header that the twenty bytes at `at` encode.
    pub open spec fn decoded_at(bytes: Seq<u8>, at: int) -> Ipv4Header {
        Ipv4Header {
            version_ihl: bytes[at],
            tos: bytes[at + 1],
            tot_len: be16_at(bytes, at + 2) as u16,
            id: be16_at(bytes, at + 4) as u16,
            frag_off: be16_at(bytes, at + 6) as u16,
            ttl: bytes[at + 8],
            proto: bytes[at + 9],
            check: be16_at(bytes, at + 10) as u16,
            src_addr: be32_at(bytes, at + 12) as u32,
            dst_addr: be32_at(bytes, at + 16) as u32,
        }
    }

    /// Reads the header at `at`, or fails where twenty bytes are not there.
    pub fn parse(bytes: &[u8], at: usize) -> (header: Result<Ipv4Header, ()>)
        ensures
            header is Ok <==> at + IPV4_HDR_LEN <= bytes@.len(),
            header is Ok ==> header.unwrap() == Ipv4Header::decoded_at(bytes@, at as int),
    {
        let at = ptr_at(bytes.len(), at, ipv4_hdr_len())?;
        Ok(
            Ipv4Header {
                version_ihl: bytes[at],
                tos: bytes[at + 1],
                tot_len: read_be16(bytes, at + 2),
                id: read_be16(bytes, at + 4),
                frag_off: read_be16(bytes, at + 6),
                ttl: bytes[at + 8],
                proto: bytes[at + 9],
                check: read_be16(bytes, at + 10),
                src_addr: read_be32(bytes, at + 12),
                dst_addr: read_be32(bytes, at + 16),
            },
        )
    }
}

/// The fields of the fixed IPv6 header.
#[derive(Clone, Copy, Debug)]
pub struct Ipv6Header {
    /// Version, traffic class and flow label, as one number.
    pub version_class_flow: u32,
    pub payload_len: u16,
    pub next_hdr: u8,
    pub hop_limit: u8,
    pub src_addr: [u8; 16],
    pub dst_addr: [u8; 16],
}

/// Offset of the next-header field in an IPv6 header.
pub const IPV6_NEXT_HDR_AT: usize = 6;

/// Offset of the destination address in an IPv6 header.
pub const IPV6_DST_AT: usize = 24;

/// Copies the sixteen bytes at `at` out of `bytes`.
fn read_addr16(bytes: &[u8], at: usize) -> (addr: [u8; 16])
    requires
        at + 16 <= bytes@.len(),
    ensures
        addr@ == bytes@.subrange(at as int, at + 16),
{
    let mut addr = [0u8; 16];
    let mut i: usize = 0;
    while i < 16
        invariant
            i <= 16,
            at + 16 <= bytes.len(),
            forall|j: int| 0 <= j < i ==> addr@[j] == bytes@[at + j],
        decreases 16 - i,
    {
        addr[i] = bytes[at + i];
        i += 1;
    }
    assert(addr@ =~= bytes@.subrange(at as int, at + 16));
    addr
}

impl Ipv6Header {
    /// `header` holds what the forty bytes at `at` encode.
    pub open spec fn decoded_at(bytes: Seq<u8>, at: int, header: Ipv6Header) -> bool {
        &&& header.version_class_flow == be32_at(bytes, at)
        &&& header.payload_len == be16_at(bytes, at + 4)
        &&& header.next_hdr == bytes[at + 6]
        &&& header.hop_limit == bytes[at + 7]
        &&& header.src_addr@ == bytes.subrange(at + 8, at + 24)
        &&& header.dst_addr@ == bytes.subrange(at + 24, at + 40)
    }

    /// Reads the header at `at`, or fails where forty bytes are not there.
    pub fn parse(bytes: &[u8], at: usize) -> (header: Result<Ipv6Header, ()>)
        ensures
            header is Ok <==> at + IPV6_HDR_LEN <= bytes@.len(),
            header is Ok ==> Ipv6Header::decoded_at(bytes@, at as int, header.unwrap()),
    {
        let at = ptr_at(bytes.len(), at, ipv6_hdr_len())?;
        Ok(
            Ipv6Header {
                version_class_flow: read_be32(bytes, at),
                payload_len: read_be16(bytes, at + 4),
                next_hdr: bytes[at + 6],
                hop_limit: bytes[at + 7],
                src_addr: read_addr16(bytes, at + 8),
                dst_addr: read_addr16(bytes, at + 24),
            },
        )
    }
}

/// The fields of a UDP header, decoded from network order.
#[derive(Clone, Copy, Debug, PartialEq, Eq, Structural)]
pub struct UdpHeader {
    pub source: u16,
    pub dest: u16,
    pub len: u16,
    pub check: u16,
}

impl UdpHeader {
    /// The header that the eight bytes at `at` encode.
    pub open spec fn decoded_at(bytes: Seq<u8>, at: int) -> UdpHeader {
        UdpHeader {
            source: be16_at(bytes, at) as u16,
            dest: be16_at(bytes, at + 2) as u16,
            len: be16_at(bytes, at + 4) as u16,
            check: be16_at(bytes, at + 6) as u16,
        }
    }

    /// Reads the header at `at`, or fails where eight bytes are not there.
    pub fn parse(bytes: &[u8], at: usize) -> (header: Result<UdpHeader, ()>)
        ensures
            header is Ok <==> at + UDP_HDR_LEN <= bytes@.len(),
            header is Ok ==> header.unwrap() == UdpHeader::decoded_at(bytes@, at as int),
    {
        let at = ptr_at(bytes.len(), at, udp_hdr_len())?;
        Ok(
            UdpHeader {
                source: read_be16(bytes, at),
                dest: read_be16(bytes, at + 2),
                len: read_be16(bytes, at + 4),
                check: read_be16(bytes, at + 6),
            },
        )
    }
}

/// The IP header of a packet, by version.
#[derive(Clone, Copy, Debug)]
pub enum IpVersion {
    V4(Ipv4Header),
    V6(Ipv6Header),
}

impl IpVersion {
    /// The transport protocol's number, for use in contracts.
    pub open spec fn proto_code(&self) -> u8 {
        match self {
            IpVersion::V4(hdr) => hdr.proto,
            IpVersion::V6(hdr) => hdr.next_hdr,
        }
    }

    /// The header's length, for use in contracts.
    pub open spec fn header_len(&self) -> usize {
        match self {
            IpVersion::V4(_) => IPV4_HDR_LEN,
            IpVersion::V6(_) => IPV6_HDR_LEN,
        }
    }

    /// The number of the transport protocol that the header announces: the
    /// protocol field of IPv4, the next-header field of IPv6.
    pub fn proto(&self) -> (code: u8)
        ensures
            code == self.proto_code(),
    {
        match self {
            IpVersion::V4(hdr) => hdr.proto,
            IpVersion::V6(hdr) => hdr.next_hdr,
        }
    }

    /// The distance from the IP header's start to the transport header.
    pub fn offset(&self) -> (len: usize)
        ensures
            len == self.header_len(),
    {
        match self {
            IpVersion::V4(_) => ipv4_hdr_len(),
            IpVersion::V6(_) => ipv6_hdr_len(),
        }
    }
}

/// The IPv4 loopback address 127.0.0.1 as the number its big-endian bytes spell.
pub fn loopback_addr_v4_as_be_u32() -> (addr: u32)
    ensures
        addr == 0x7F00_0001,
{
    0x7F00_0001
}

/// The sixteen bytes of the IPv6 loopback address `::1`.
pub open spec fn loopback_v6_bytes() -> Seq<u8> {
    Seq::new(16, |i: int| if i == 15 { 1u8 } else { 0u8 })
}

/// The IPv6 loopback address `::1`, in network order.
pub fn loopback_addr_v6() -> (addr: [u8; 16])
    ensures
        addr@ == loopback_v6_bytes(),
{
    let mut addr = [0u8; 16];
    addr[15] = 1;
    assert(addr@ =~= loopback_v6_bytes());
    addr
}

/// The digits written for one octet of an address: the hundreds digit where
/// it is not zero, the tens digit where it is not zero, and the units digit.
/// A tens digit of zero is left out also behind a hundreds digit.
pub open spec fn octet_text(octet: u8) -> Seq<u8> {
    let hundreds = if octet / 100 > 0 {
        seq![(48 + octet / 100) as u8]
    } else {
        Seq::<u8>::empty()
    };
    let tens = if octet % 100 / 10 > 0 {
        seq![(48 + octet % 100 / 10) as u8]
    } else {
        Seq::<u8>::empty()
    };
    hundreds + tens + seq![(48 + octet % 10) as u8]
}

/// The text written for an address: its four octets from the highest down,
/// with dots between them.
pub open spec fn ip_text(value: u32) -> Seq<u8> {
    octet_text((value / 16777216) as u8) + seq![46u8] + octet_text((value / 65536 % 256) as u8)
        + seq![46u8] + octet_text((value / 256 % 256) as u8) + seq![46u8] + octet_text(
        (value % 256) as u8,
    )
}

/// Writes the digits of `octet` and a dot into `buf` from `at` on, and
/// returns the position behind the dot.
fn write_octet(buf: &mut [u8; 16], at: usize, octet: u8) -> (next: usize)
    requires
        at + 4 <= 16,
    ensures
        at + 2 <= next <= at + 4,
        final(buf)@.subrange(0, next as int) == old(buf)@.subrange(0, at as int) + octet_text(
            octet,
        ) + seq![46u8],
        forall|j: int| next <= j < 16 ==> final(buf)@[j] == old(buf)@[j],
{
    let mut i: usize = at;
    let v: u8 = octet / 100;
    if v > 0 {
        buf[i] = v + 48;
        i += 1;
    }
    let v: u8 = octet % 100 / 10;
    if v > 0 {
        buf[i] = v + 48;
        i += 1;
    }
    let v: u8 = octet % 100 % 10;
    buf[i] = v + 48;
    buf[i + 1] = 46;
    i += 2;
    assert(buf@.subrange(0, i as int) =~= old(buf)@.subrange(0, at as int) + octet_text(octet)
        + seq![46u8]);
    i
}

/// Writes an IPv4 address, given as the number its big-endian bytes spell,
/// into `buf` as text, and returns the text's length. A dot is written behind
/// the text as well; what follows the dot stays as it was.
pub fn ip_str_from_u32(value: u32, buf: &mut [u8; 16]) -> (len: usize)
    ensures
        len == ip_text(value).len(),
        7 <= len <= 15,
        final(buf)@ == ip_text(value) + seq![46u8] + old(buf)@.subrange(len + 1, 16),
{
    let o0: u8 = (value / 16777216) as u8;
    let o1: u8 = (value / 65536 % 256) as u8;
    let o2: u8 = (value / 256 % 256) as u8;
    let o3: u8 = (value % 256) as u8;
    let ghost dot = seq![46u8];
    let a = write_octet(buf, 0, o0);
    assert(buf@.subrange(0, a as int) =~= octet_text(o0) + dot);
    let b = write_octet(buf, a, o1);
    let c = write_octet(buf, b, o2);
    let d = write_octet(buf, c, o3);
    assert(buf@.subrange(0, d as int) == ip_text(value) + dot);
    assert(buf@.subrange(d as int, 16) =~= old(buf)@.subrange(d as int, 16));
    assert(buf@ =~= buf@.subrange(0, d as int) + buf@.subrange(d as int, 16));
    d - 1
}

} // verus!
