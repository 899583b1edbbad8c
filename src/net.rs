use vstd::prelude::*;

verus! {

/// The text that std writes for the IPv6 address of value `v`.
pub uninterp spec fn ipv6_text(v: u128) -> Seq<char>;

/// The value of the IPv6 address written as `s`, where `s` is one.
pub uninterp spec fn ipv6_parse(s: Seq<char>) -> Option<u128>;

/// Relies on `Display` for `core::net::Ipv6Addr`: the text depends on the
/// address alone.
#[verifier::external_body]
pub(crate) fn ipv6_to_string(v: u128) -> (r: String)
    ensures
        r@ == ipv6_text(v),
{
    core::net::Ipv6Addr::from(v).to_string()
}

/// Relies on `FromStr` for `core::net::Ipv6Addr`: the value of the address
/// where the text is one, else nothing. The empty text is none, and so is any
/// text without a `:`, since every IPv6 address is written with colons.
#[verifier::external_body]
pub(crate) fn parse_ipv6(s: &str) -> (r: Option<u128>)
    ensures
        r == ipv6_parse(s@),
        s@.len() == 0 ==> r is None,
        !s@.contains(':') ==> r is None,
{
    match s.parse::<core::net::Ipv6Addr>() {
        Ok(ip) => Some(u128::from(ip)),
        Err(_) => None,
    }
}

/// The 32-bit value of an IPv4 address from its octets.
pub open spec fn v4_value(a: u8, b: u8, c: u8, d: u8) -> int {
    a as int * 16777216 + b as int * 65536 + c as int * 256 + d as int
}

/// Mask of the first `prefix` bits of an IPv4 address.
pub open spec fn v4_netmask(prefix: u8) -> u32 {
    if prefix == 0 {
        0
    } else {
        0xffff_ffffu32 << ((32 - prefix) as u32)
    }
}

/// Mask of the bits after the first `prefix` of an IPv4 address.
pub open spec fn v4_hostmask(prefix: u8) -> u32 {
    if prefix >= 32 {
        0
    } else {
        0xffff_ffffu32 >> (prefix as u32)
    }
}

/// Mask of the first `prefix` bits of an IPv6 address.
pub open spec fn v6_netmask(prefix: u8) -> u128 {
    if prefix == 0 {
        0
    } else {
        0xffff_ffff_ffff_ffff_ffff_ffff_ffff_ffffu128 << ((128 - prefix) as u128)
    }
}

/// Mask of the bits after the first `prefix` of an IPv6 address.
pub open spec fn v6_hostmask(prefix: u8) -> u128 {
    if prefix >= 128 {
        0
    } else {
        0xffff_ffff_ffff_ffff_ffff_ffff_ffff_ffffu128 >> (prefix as u128)
    }
}

/// Relies on `ipnet::Ipv4Net`: `new` refuses a prefix length over 32;
/// `network` keeps the first `prefix` bits of the address and clears the
/// others, `broadcast` sets them.
#[verifier::external_body]
pub(crate) fn ipv4_net_bounds(addr: u32, prefix: u8) -> (r: Option<(u32, u32)>)
    ensures
        r is None <==> prefix > 32,
        r matches Some((n, b)) ==> n == addr & v4_netmask(prefix) && b == addr | v4_hostmask(prefix),
{
    match ipnet::Ipv4Net::new(core::net::Ipv4Addr::from(addr), prefix) {
        Ok(net) => Some((u32::from(net.network()), u32::from(net.broadcast()))),
        Err(_) => None,
    }
}

/// Relies on `ipnet::Ipv6Net`: `new` refuses a prefix length over 128;
/// `network` keeps the first `prefix` bits of the address and clears the
/// others, `broadcast` sets them.
#[verifier::external_body]
pub(crate) fn ipv6_net_bounds(addr: u128, prefix: u8) -> (r: Option<(u128, u128)>)
    ensures
        r is None <==> prefix > 128,
        r matches Some((n, b)) ==> n == addr & v6_netmask(prefix) && b == addr | v6_hostmask(prefix),
{
    match ipnet::Ipv6Net::new(core::net::Ipv6Addr::from(addr), prefix) {
        Ok(net) => Some((u128::from(net.network()), u128::from(net.broadcast()))),
        Err(_) => None,
    }
}

} // verus!
