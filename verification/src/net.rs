//! Internet addresses as plain values, and the standard library's textual
//! address parsers behind trusted wrappers.
use vstd::prelude::*;

verus! {

/// An IPv4 or IPv6 address, by its octets in network order.
#[derive(Clone, Copy, Debug, PartialEq, Eq)]
pub enum IpAddress {
    V4([u8; 4]),
    V6([u8; 16]),
}

/// An IP address with a port.
#[derive(Clone, Copy, Debug, PartialEq, Eq)]
pub struct SocketAddress {
    pub ip: IpAddress,
    pub port: u16,
}

/// What `str::parse::<IpAddr>` gives for a text, as octets.
pub uninterp spec fn parsed_ip_address(text: Seq<char>) -> Option<IpAddress>;

/// What `str::parse::<Ipv6Addr>` gives for a text, as octets.
pub uninterp spec fn parsed_ipv6_address(text: Seq<char>) -> Option<[u8; 16]>;

/// What `str::parse::<SocketAddr>` gives for a text, as an address and a port
/// (an IPv6 socket address's flow information and scope are not kept).
pub uninterp spec fn parsed_socket_address(text: Seq<char>) -> Option<SocketAddress>;

/// Calls `core::net::IpAddr::from_str`; the contract claims only that the
/// result is the one named by `parsed_ip_address` for the text.
#[verifier::external_body]
pub fn parse_ip_address(text: &str) -> (r: Option<IpAddress>)
    ensures
        r == parsed_ip_address(text@),
{
    match text.parse::<core::net::IpAddr>() {
        Ok(core::net::IpAddr::V4(a)) => Some(IpAddress::V4(a.octets())),
        Ok(core::net::IpAddr::V6(a)) => Some(IpAddress::V6(a.octets())),
        Err(_) => None,
    }
}

/// Calls `core::net::Ipv6Addr::from_str`; the contract claims only that the
/// result is the one named by `parsed_ipv6_address` for the text.
#[verifier::external_body]
pub fn parse_ipv6_address(text: &str) -> (r: Option<[u8; 16]>)
    ensures
        r == parsed_ipv6_address(text@),
{
    text.parse::<core::net::Ipv6Addr>().ok().map(|a| a.octets())
}

/// Calls `core::net::SocketAddr::from_str`; the contract claims only that the
/// result is the one named by `parsed_socket_address` for the text.
#[verifier::external_body]
pub fn parse_socket_address(text: &str) -> (r: Option<SocketAddress>)
    ensures
        r == parsed_socket_address(text@),
{
    match text.parse::<core::net::SocketAddr>() {
        Ok(core::net::SocketAddr::V4(a)) => Some(
            SocketAddress { ip: IpAddress::V4(a.ip().octets()), port: a.port() },
        ),
        Ok(core::net::SocketAddr::V6(a)) => Some(
            SocketAddress { ip: IpAddress::V6(a.ip().octets()), port: a.port() },
        ),
        Err(_) => None,
    }
}

/// `IpAddr::is_loopback`: `127.0.0.0/8` for IPv4, `::1` for IPv6.
pub open spec fn spec_is_loopback(ip: IpAddress) -> bool {
    match ip {
        IpAddress::V4(o) => o[0] == 127,
        IpAddress::V6(o) => (forall|i: int| 0 <= i < 15 ==> o[i] == 0) && o[15] == 1,
    }
}

/// `IpAddr::is_loopback`.
pub fn is_loopback(ip: &IpAddress) -> (r: bool)
    ensures
        r == spec_is_loopback(*ip),
{
    match ip {
        IpAddress::V4(o) => o[0] == 127,
        IpAddress::V6(o) => {
            let mut i: usize = 0;
            while i < 15
                invariant
                    i <= 15,
                    *ip == IpAddress::V6(*o),
                    forall|k: int| 0 <= k < i ==> o[k] == 0,
                decreases 15 - i,
            {
                if o[i] != 0 {
                    assert(!(forall|i: int| 0 <= i < 15 ==> o[i] == 0));
                    return false;
                }
                i = i + 1;
            }
            o[15] == 1
        },
    }
}

/// Yggdrasil's overlay addresses are `200::/7`: the first octet is 2 or 3.
pub open spec fn spec_is_overlay(address: [u8; 16]) -> bool {
    address[0] == 2 || address[0] == 3
}

/// Whether an IPv6 address belongs to the overlay network, so that traffic to
/// it is routed through the node.
pub fn is_overlay_address(address: [u8; 16]) -> (r: bool)
    ensures
        r == spec_is_overlay(address),
{
    let first = address[0];
    assert((first & 0xfe) == 0x02 <==> (first == 2 || first == 3)) by (bit_vector);
    first & 0xfe == 0x02
}

} // verus!
