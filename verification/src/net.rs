//! The address of a peer, and IPv4 networks in CIDR notation.
use vstd::prelude::*;

use crate::text::{concat, decimal, u64_to_decimal};

verus! {

/// The IP address of a peer: an IPv4 address by its four octets, or an IPv6
/// address by its textual form.
#[derive(Debug, Clone, PartialEq, Eq)]
pub enum PeerIp {
    V4(u8, u8, u8, u8),
    V6(String),
}

/// A peer's socket address.
#[derive(Debug, Clone, PartialEq, Eq)]
pub struct PeerAddr {
    pub ip: PeerIp,
    pub port: u16,
}

/// The textual form of an address: dotted decimal for IPv4.
pub open spec fn ip_text(ip: PeerIp) -> Seq<char> {
    match ip {
        PeerIp::V4(a, b, c, d) => decimal(a as nat) + "."@ + decimal(b as nat) + "."@ + decimal(
            c as nat,
        ) + "."@ + decimal(d as nat),
        PeerIp::V6(s) => s@,
    }
}

/// The 32-bit value of an IPv4 address.
pub open spec fn ipv4_value(a: u8, b: u8, c: u8, d: u8) -> u32 {
    (a as int * 16777216 + b as int * 65536 + c as int * 256 + d as int) as u32
}

/// `ip` lies in the network whose first `prefix_len` bits are those of `net`.
pub open spec fn in_network(net: u32, prefix_len: u8, ip: u32) -> bool {
    prefix_len == 0 || (prefix_len <= 32 && (net >> ((32 - prefix_len) as u32)) == (ip >> ((
    32 - prefix_len) as u32)))
}

/// What `ipnet` reads from a text in CIDR notation (`a.b.c.d/len`): the
/// address as a 32-bit value and the prefix length.
pub uninterp spec fn ipv4_net_parse(text: Seq<char>) -> Option<(u32, u8)>;

/// The textual form of a peer's IP address.
pub fn peer_ip_text(ip: &PeerIp) -> (r: String)
    ensures
        r@ == ip_text(*ip),
{
    match ip {
        PeerIp::V4(a, b, c, d) => {
            let s1 = concat(u64_to_decimal(*a as u64).as_str(), ".");
            let s2 = concat(s1.as_str(), u64_to_decimal(*b as u64).as_str());
            let s3 = concat(s2.as_str(), ".");
            let s4 = concat(s3.as_str(), u64_to_decimal(*c as u64).as_str());
            let s5 = concat(s4.as_str(), ".");
            concat(s5.as_str(), u64_to_decimal(*d as u64).as_str())
        },
        PeerIp::V6(s) => s.clone(),
    }
}

/// The 32-bit value of an IPv4 address.
pub fn ipv4_to_u32(a: u8, b: u8, c: u8, d: u8) -> (r: u32)
    ensures
        r == ipv4_value(a, b, c, d),
{
    (a as u32) * 16777216 + (b as u32) * 65536 + (c as u32) * 256 + (d as u32)
}

/// `<ipnet::Ipv4Net as FromStr>::from_str`: the address and prefix length read
/// from CIDR notation, or `None` when the text is not valid CIDR notation. The
/// result is named; the prefix length is at most 32, as `Ipv4Net::new` enforces.
#[verifier::external_body]
pub(crate) fn parse_ipv4_net(text: &str) -> (r: Option<(u32, u8)>)
    ensures
        r == ipv4_net_parse(text@),
        r matches Some(n) ==> n.1 <= 32,
{
    match text.parse::<ipnet::Ipv4Net>() {
        Ok(net) => Some((u32::from(net.addr()), net.prefix_len())),
        Err(_) => None,
    }
}

/// `iprange::IpRange::<Ipv4Net>::contains` on the range collected from the
/// single network `net/prefix_len`: whether `ip` shares the network's first
/// `prefix_len` bits.
#[verifier::external_body]
pub(crate) fn ipv4_range_contains(net: u32, prefix_len: u8, ip: u32) -> (r: bool)
    requires
        prefix_len <= 32,
    ensures
        r == in_network(net, prefix_len, ip),
{
    let network = ipnet::Ipv4Net::new(net.into(), prefix_len).unwrap();
    let range: iprange::IpRange<ipnet::Ipv4Net> = std::iter::once(network).collect();
    range.contains(&ip)
}

} // verus!
