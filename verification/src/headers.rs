//! Header sizes and protocol numbers, taken from the `network-types` crate.
//!
//! Nothing here is proved: each function hands out a constant of that crate
//! and states its value, which the crate's source gives.

use vstd::prelude::*;

verus! {

/// Bytes in an Ethernet header.
pub const ETH_HDR_LEN: usize = 14;

/// Bytes in an IPv4 header without options.
pub const IPV4_HDR_LEN: usize = 20;

/// Bytes in a UDP header.
pub const UDP_HDR_LEN: usize = 8;

/// The EtherType of IPv4, as a number.
pub const ETHER_TYPE_IPV4: u16 = 0x0800;

/// The IP protocol number of UDP.
pub const IP_PROTO_UDP: u8 = 17;

/// `network_types::eth::EthHdr::LEN`: the size of a struct of two six-byte
/// addresses and a two-byte type, laid out as in C, which is 14.
#[verifier::external_body]
pub(crate) fn eth_hdr_len() -> (n: usize)
    ensures
        n == ETH_HDR_LEN,
{
    network_types::eth::EthHdr::LEN
}

/// `network_types::ip::Ipv4Hdr::LEN`: the size of the fixed part of an IPv4
/// header, laid out as in C from byte fields and byte arrays, which is 20.
#[verifier::external_body]
pub(crate) fn ipv4_hdr_len() -> (n: usize)
    ensures
        n == IPV4_HDR_LEN,
{
    network_types::ip::Ipv4Hdr::LEN
}

/// `network_types::udp::UdpHdr::LEN`: the size of four two-byte fields,
/// which is 8.
#[verifier::external_body]
pub(crate) fn udp_hdr_len() -> (n: usize)
    ensures
        n == UDP_HDR_LEN,
{
    network_types::udp::UdpHdr::LEN
}

/// The number of `network_types::eth::EtherType::Ipv4`. The crate stores it
/// as `0x0800` in network byte order; `u16::from_be` turns that back into the
/// number itself on any machine.
#[verifier::external_body]
pub(crate) fn ether_type_ipv4() -> (t: u16)
    ensures
        t == ETHER_TYPE_IPV4,
{
    u16::from_be(u16::from(network_types::eth::EtherType::Ipv4))
}

/// The number of `network_types::ip::IpProto::Udp`, which the crate declares
/// as 17.
#[verifier::external_body]
pub(crate) fn ip_proto_udp() -> (p: u8)
    ensures
        p == IP_PROTO_UDP,
{
    u8::from(network_types::ip::IpProto::Udp)
}

} // verus!
