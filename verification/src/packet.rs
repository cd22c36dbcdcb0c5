//! Ethernet, IPv4 and UDP headers, read with the `network-types` crate.

use network_types::eth::{EthHdr, EthernetError};
use network_types::ip::{IpError, Ipv4Hdr};
use network_types::udp::UdpHdr;
use vstd::prelude::*;

verus! {

/// Length of an Ethernet header.
pub const ETH_LEN: usize = 14;

/// Length of an IPv4 header without options.
pub const IPV4_LEN: usize = 20;

/// Length of a UDP header.
pub const UDP_LEN: usize = 8;

/// EtherType of IPv4.
pub const ETHER_TYPE_IPV4: u16 = 0x0800;

/// IP protocol number of UDP.
pub const IP_PROTO_UDP: u8 = 17;

/// The big-endian 16-bit number at offset `i`.
pub open spec fn be16(s: Seq<u8>, i: int) -> int {
    s[i] * 256 + s[i + 1]
}

/// The EtherTypes that `network-types` has a name for.
pub open spec fn known_ether_type(id: int) -> bool {
    ||| id == 0x0060
    ||| id == 0x0800
    ||| id == 0x0806
    ||| id == 0x8100
    ||| id == 0x86DD
    ||| id == 0x88A8
    ||| id == 0x88E5
    ||| id == 0x88E7
    ||| id == 0x88F5
    ||| id == 0x8906
    ||| id == 0x8915
    ||| id == 0x9000
    ||| id == 0x9100
    ||| id == 0x9200
    ||| id == 0x9300
}

/// The IP protocol numbers that `network-types` has a name for.
pub open spec fn known_ip_proto(id: int) -> bool {
    id <= 144 || id >= 253
}

/// `EthHdr::ether_type` on the header that the 14 bytes lay out. The two bytes
/// at offset 12 come back as they stand, in `Ok` where the crate knows that
/// EtherType and in `Err` where it does not.
#[verifier::external_body]
pub(crate) fn ether_type(h: &[u8]) -> (r: Result<[u8; 2], [u8; 2]>)
    requires
        h@.len() == ETH_LEN,
    ensures
        r matches Ok(id) ==> id@ == h@.subrange(12, 14) && known_ether_type(be16(h@, 12)),
        r matches Err(id) ==> id@ == h@.subrange(12, 14) && !known_ether_type(be16(h@, 12)),
{
    let hdr = EthHdr {
        dst_addr: [h[0], h[1], h[2], h[3], h[4], h[5]],
        src_addr: [h[6], h[7], h[8], h[9], h[10], h[11]],
        ether_type: u16::from_ne_bytes([h[12], h[13]]),
    };
    match hdr.ether_type() {
        Ok(known) => Ok(u16::from(known).to_ne_bytes()),
        Err(EthernetError::InvalidEtherType(id)) => Err(id.to_ne_bytes()),
    }
}

/// `Ipv4Hdr::version` on the header that the 20 bytes lay out: the upper half
/// of the first byte.
#[verifier::external_body]
pub(crate) fn ip_version(h: &[u8]) -> (r: u8)
    requires
        h@.len() == IPV4_LEN,
    ensures
        r == h@[0] / 16,
{
    let hdr = Ipv4Hdr {
        vihl: h[0], tos: h[1], tot_len: [h[2], h[3]], id: [h[4], h[5]], frags: [h[6], h[7]],
        ttl: h[8], proto: h[9], check: [h[10], h[11]], src_addr: [h[12], h[13], h[14], h[15]],
        dst_addr: [h[16], h[17], h[18], h[19]],
    };
    hdr.version()
}

/// `Ipv4Hdr::proto` on the header that the 20 bytes lay out. The protocol
/// number at offset 9 comes back, in `Ok` where the crate knows that protocol
/// and in `Err` where it does not.
#[verifier::external_body]
pub(crate) fn ip_proto(h: &[u8]) -> (r: Result<u8, u8>)
    requires
        h@.len() == IPV4_LEN,
    ensures
        r == if known_ip_proto(h@[9] as int) {
            Ok::<u8, u8>(h@[9])
        } else {
            Err::<u8, u8>(h@[9])
        },
{
    let hdr = Ipv4Hdr {
        vihl: h[0], tos: h[1], tot_len: [h[2], h[3]], id: [h[4], h[5]], frags: [h[6], h[7]],
        ttl: h[8], proto: h[9], check: [h[10], h[11]], src_addr: [h[12], h[13], h[14], h[15]],
        dst_addr: [h[16], h[17], h[18], h[19]],
    };
    match hdr.proto() {
        Ok(known) => Ok(u8::from(known)),
        Err(IpError::InvalidProto(id)) => Err(id),
    }
}

/// `Ipv4Hdr::ihl` on the header that the 20 bytes lay out: the lower half of
/// the first byte counts 32-bit words, and the result counts bytes.
#[verifier::external_body]
pub(crate) fn ip_header_len(h: &[u8]) -> (r: u8)
    requires
        h@.len() == IPV4_LEN,
    ensures
        r == 4 * (h@[0] % 16),
{
    let hdr = Ipv4Hdr {
        vihl: h[0], tos: h[1], tot_len: [h[2], h[3]], id: [h[4], h[5]], frags: [h[6], h[7]],
        ttl: h[8], proto: h[9], check: [h[10], h[11]], src_addr: [h[12], h[13], h[14], h[15]],
        dst_addr: [h[16], h[17], h[18], h[19]],
    };
    hdr.ihl()
}

/// `UdpHdr::dst_port` on the header that the 8 bytes lay out: the number at
/// offset 2, converted from network to host byte order.
#[verifier::external_body]
pub(crate) fn udp_dst_port(h: &[u8]) -> (r: u16)
    requires
        h@.len() == UDP_LEN,
    ensures
        r == be16(h@, 2),
{
    let hdr = UdpHdr {
        src: [h[0], h[1]],
        dst: [h[2], h[3]],
        len: [h[4], h[5]],
        check: [h[6], h[7]],
    };
    hdr.dst_port()
}

} // verus!
