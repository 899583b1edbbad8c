use vstd::prelude::*;

use crate::action::{action_of, Action};
use crate::header::{Header, IpAddress, NetworkAddress, NetworkDirection, NetworkPort};
use crate::options::{OptionsVariable, RuleOption};
use crate::parser::{bare_scan, quoted_scan};
use crate::rule::Rule;
use crate::net::ipv6_parse;
use crate::parser::Diagnostic;
use crate::parser::is_ws;
use crate::span::{Span, Spanned};
use crate::text::digits_value;

verus! {

/// The largest value that integer literals are read up to; a longer literal
/// reads as this value, which is out of range for every field.
pub const INT_CAP: u64 = 1_000_000;

/// An address as plain values.
pub enum AddrV {
    Any(Span),
    Ip(IpAddress, Span),
    Cidr(IpAddress, Span, u8, Span),
    Group(Seq<(AddrV, Span)>),
    Neg(Box<AddrV>, Span),
    Var(Seq<char>, Span),
}

/// The plain values of an address.
pub open spec fn addr_v(a: NetworkAddress) -> AddrV
    decreases a,
{
    match a {
        NetworkAddress::Any(s) => AddrV::Any(s),
        NetworkAddress::IPAddr(ip) => AddrV::Ip(ip.0, ip.1),
        NetworkAddress::CIDR(ip, m) => AddrV::Cidr(ip.0, ip.1, m.0, m.1),
        NetworkAddress::IPGroup(g) => AddrV::Group(addr_group_v(g@)),
        NetworkAddress::NegIP(b) => AddrV::Neg(Box::new(addr_v(b.0)), b.1),
        NetworkAddress::IPVariable(v) => AddrV::Var(v.0@, v.1),
    }
}

/// The plain values of the members of an address group.
pub open spec fn addr_group_v(g: Seq<Spanned<NetworkAddress>>) -> Seq<(AddrV, Span)>
    decreases g,
{
    if g.len() == 0 {
        seq![]
    } else {
        addr_group_v(g.drop_last()).push((addr_v(g.last().0), g.last().1))
    }
}

/// A port as plain values.
pub enum PortV {
    Any(Span),
    Port(u16, Span),
    Group(Seq<(PortV, Span)>),
    Range(u16, Span, u16, Span),
    Open(u16, Span, bool),
    Neg(Box<PortV>, Span),
    Var(Seq<char>, Span),
}

/// The plain values of a port.
pub open spec fn port_v(p: NetworkPort) -> PortV
    decreases p,
{
    match p {
        NetworkPort::Any(s) => PortV::Any(s),
        NetworkPort::Port(x) => PortV::Port(x.0, x.1),
        NetworkPort::PortGroup(g) => PortV::Group(port_group_v(g@)),
        NetworkPort::PortRange(f, t) => PortV::Range(f.0, f.1, t.0, t.1),
        NetworkPort::PortOpenRange(x, up) => PortV::Open(x.0, x.1, up),
        NetworkPort::NegPort(b) => PortV::Neg(Box::new(port_v(b.0)), b.1),
        NetworkPort::PortVar(v) => PortV::Var(v.0@, v.1),
    }
}

/// The plain values of the members of a port group.
pub open spec fn port_group_v(g: Seq<Spanned<NetworkPort>>) -> Seq<(PortV, Span)>
    decreases g,
{
    if g.len() == 0 {
        seq![]
    } else {
        port_group_v(g.drop_last()).push((port_v(g.last().0), g.last().1))
    }
}

/// Whether `cs[i]` exists and is `c`.
pub open spec fn at(cs: Seq<char>, i: int, c: char) -> bool {
    0 <= i < cs.len() && cs[i] == c
}

/// The first position at or after `p` that holds no white space.
pub open spec fn ws_end(cs: Seq<char>, p: int) -> int
    decreases cs.len() - p,
{
    if 0 <= p < cs.len() && is_ws(cs[p]) {
        ws_end(cs, p + 1)
    } else {
        p
    }
}

pub open spec fn is_ident_start(c: char) -> bool {
    ('a' <= c && c <= 'z') || ('A' <= c && c <= 'Z') || c == '_'
}

pub open spec fn is_ident_char(c: char) -> bool {
    is_ident_start(c) || ('0' <= c && c <= '9')
}

pub open spec fn is_hex_or_colon(c: char) -> bool {
    ('0' <= c && c <= '9') || ('a' <= c && c <= 'f') || ('A' <= c && c <= 'F') || c == ':'
}

pub open spec fn is_direction_char(c: char) -> bool {
    c == '<' || c == '-' || c == '>'
}

/// The end of the run of identifier characters from `p`.
pub open spec fn ident_run(cs: Seq<char>, p: int) -> int
    decreases cs.len() - p,
{
    if 0 <= p < cs.len() && is_ident_char(cs[p]) {
        ident_run(cs, p + 1)
    } else {
        p
    }
}

/// The end of the identifier that starts at `p`: a letter or `_`, then
/// letters, digits and `_`.
pub open spec fn ident_s(cs: Seq<char>, p: int) -> Option<int> {
    if 0 <= p < cs.len() && is_ident_start(cs[p]) {
        Some(ident_run(cs, p + 1))
    } else {
        None
    }
}

/// The end of the run of decimal digits from `p`.
pub open spec fn digit_run(cs: Seq<char>, p: int) -> int
    decreases cs.len() - p,
{
    if 0 <= p < cs.len() && '0' <= cs[p] && cs[p] <= '9' {
        digit_run(cs, p + 1)
    } else {
        p
    }
}

/// The end of the run of hex digits and colons from `p`.
pub open spec fn hex_run(cs: Seq<char>, p: int) -> int
    decreases cs.len() - p,
{
    if 0 <= p < cs.len() && is_hex_or_colon(cs[p]) {
        hex_run(cs, p + 1)
    } else {
        p
    }
}

/// A decimal integer at `p`: `0`, or a digit other than `0` followed by
/// digits; its value, capped at `INT_CAP`, and its end.
pub open spec fn int_s(cs: Seq<char>, p: int) -> Option<(nat, int)> {
    if 0 <= p < cs.len() && '0' <= cs[p] && cs[p] <= '9' {
        if cs[p] == '0' {
            Some((0nat, p + 1))
        } else {
            let e = digit_run(cs, p);
            let v = digits_value(cs.subrange(p, e));
            Some((if v < INT_CAP { v } else { INT_CAP as nat }, e))
        }
    } else {
        None
    }
}

/// An integer of at most `max` at `p`.
pub open spec fn bounded_s(cs: Seq<char>, p: int, max: nat) -> Option<(nat, int)> {
    match int_s(cs, p) {
        Some((v, e)) => if v <= max { Some((v, e)) } else { None },
        None => None,
    }
}

/// A `$` followed by an identifier: the name and the end.
pub open spec fn var_s(cs: Seq<char>, p: int) -> Option<(Seq<char>, int)> {
    if at(cs, p, '$') {
        match ident_s(cs, p + 1) {
            Some(e) => Some((cs.subrange(p + 1, e), e)),
            None => None,
        }
    } else {
        None
    }
}

/// The identifier `any` at `p`: its end.
pub open spec fn any_s(cs: Seq<char>, p: int) -> Option<int> {
    match ident_s(cs, p) {
        Some(e) => if e == p + 3 && cs.subrange(p, e) == seq!['a', 'n', 'y'] { Some(e) } else { None },
        None => None,
    }
}

/// An IPv4 address at `p`: four octets separated by `.`.
pub open spec fn v4_s(cs: Seq<char>, p: int) -> Option<(IpAddress, int)> {
    match bounded_s(cs, p, 255) {
        None => None,
        Some((a, e1)) => if !at(cs, e1, '.') { None } else {
            match bounded_s(cs, e1 + 1, 255) {
                None => None,
                Some((b, e2)) => if !at(cs, e2, '.') { None } else {
                    match bounded_s(cs, e2 + 1, 255) {
                        None => None,
                        Some((c, e3)) => if !at(cs, e3, '.') { None } else {
                            match bounded_s(cs, e3 + 1, 255) {
                                None => None,
                                Some((d, e4)) => Some((IpAddress::V4(a as u8, b as u8, c as u8, d as u8), e4)),
                            }
                        },
                    }
                },
            }
        },
    }
}

/// An IP address at `p`: the longest run of hex digits and colons where it
/// holds a colon and std reads it as an IPv6 address, else an IPv4 address.
pub open spec fn ip_s(cs: Seq<char>, p: int) -> Option<(IpAddress, int)> {
    let e6 = hex_run(cs, p);
    if e6 > p && cs.subrange(p, e6).contains(':') && ipv6_parse(cs.subrange(p, e6)) is Some {
        Some((IpAddress::V6(ipv6_parse(cs.subrange(p, e6))->0), e6))
    } else {
        v4_s(cs, p)
    }
}

/// A CIDR range at `p`: an IP address, `/`, and a mask up to 255.
pub open spec fn cidr_s(cs: Seq<char>, p: int) -> Option<((AddrV, Span), int)> {
    match ip_s(cs, p) {
        None => None,
        Some((ip, e)) => if !at(cs, e, '/') { None } else {
            match bounded_s(cs, e + 1, 255) {
                None => None,
                Some((m, me)) => Some((
                    (AddrV::Cidr(ip, Span { start: p as usize, end: e as usize }, m as u8, Span { start: (e + 1) as usize, end: me as usize }),
                    Span { start: p as usize, end: me as usize }),
                    me,
                )),
            }
        },
    }
}

/// The members of an address group from `p` to its `]`: each member followed
/// by `,` or by the closing `]`; a `,` may stand before the `]`.
pub open spec fn addr_items_s(cs: Seq<char>, p: int, nonempty: bool) -> Option<(Seq<(AddrV, Span)>, int)>
    decreases cs.len() - p, 4nat,
{
    if p < 0 || p > cs.len() {
        None
    } else if nonempty && at(cs, p, ']') {
        Some((seq![], p + 1))
    } else {
        match addr_s(cs, p) {
            None => None,
            Some((a, e)) => if e <= p { None } else if at(cs, e, ',') {
                match addr_items_s(cs, e + 1, true) {
                    Some((rest, end)) => Some((seq![a] + rest, end)),
                    None => None,
                }
            } else if at(cs, e, ']') {
                match addr_items_s(cs, e, true) {
                    Some((rest, end)) => Some((seq![a] + rest, end)),
                    None => None,
                }
            } else {
                None
            },
        }
    }
}

/// An address group at `p`: `[`, one or more members, `]`.
pub open spec fn addr_group_s(cs: Seq<char>, p: int) -> Option<((AddrV, Span), int)>
    decreases cs.len() - p, 0nat,
{
    if at(cs, p, '[') {
        match addr_items_s(cs, p + 1, false) {
            Some((items, e)) => Some(((AddrV::Group(items), Span { start: p as usize, end: e as usize }), e)),
            None => None,
        }
    } else {
        None
    }
}

/// An address at `p`, white space excluded: a variable, a negation (of a
/// variable, a group, a CIDR range or an IP address), a group, a CIDR range,
/// an IP address, or `any`.
pub open spec fn addr_core_s(cs: Seq<char>, p: int) -> Option<((AddrV, Span), int)>
    decreases cs.len() - p, 2nat,
{
    if p < 0 || p > cs.len() {
        None
    } else if var_s(cs, p) is Some {
        let (n, e) = var_s(cs, p)->0;
        Some(((AddrV::Var(n, Span { start: p as usize, end: e as usize }), Span { start: p as usize, end: e as usize }), e))
    } else if at(cs, p, '!') && neg_addr_s(cs, p + 1) is Some {
        let ((a, s), e) = neg_addr_s(cs, p + 1)->0;
        Some(((AddrV::Neg(Box::new(a), s), Span { start: p as usize, end: e as usize }), e))
    } else if addr_group_s(cs, p) is Some {
        addr_group_s(cs, p)
    } else if cidr_s(cs, p) is Some {
        cidr_s(cs, p)
    } else if ip_s(cs, p) is Some {
        let (ip, e) = ip_s(cs, p)->0;
        Some(((AddrV::Ip(ip, Span { start: p as usize, end: e as usize }), Span { start: p as usize, end: e as usize }), e))
    } else if any_s(cs, p) is Some {
        let e = any_s(cs, p)->0;
        Some(((AddrV::Any(Span { start: p as usize, end: e as usize }), Span { start: p as usize, end: e as usize }), e))
    } else {
        None
    }
}

/// What a `!` may stand before: a variable, a group, a CIDR range or an IP
/// address; never another negation.
pub open spec fn neg_addr_s(cs: Seq<char>, q: int) -> Option<((AddrV, Span), int)>
    decreases cs.len() - q, 1nat,
{
    if q < 0 || q > cs.len() {
        None
    } else if var_s(cs, q) is Some {
        let (n, e) = var_s(cs, q)->0;
        Some(((AddrV::Var(n, Span { start: q as usize, end: e as usize }), Span { start: q as usize, end: e as usize }), e))
    } else if addr_group_s(cs, q) is Some {
        addr_group_s(cs, q)
    } else if cidr_s(cs, q) is Some {
        cidr_s(cs, q)
    } else if ip_s(cs, q) is Some {
        let (ip, e) = ip_s(cs, q)->0;
        Some(((AddrV::Ip(ip, Span { start: q as usize, end: e as usize }), Span { start: q as usize, end: e as usize }), e))
    } else {
        None
    }
}

/// An address with the white space around it: its value and span, and the
/// position after the white space that follows it.
pub open spec fn addr_s(cs: Seq<char>, p: int) -> Option<((AddrV, Span), int)>
    decreases cs.len() - p, 3nat,
{
    if p < 0 || p > cs.len() {
        None
    } else {
        let q = ws_end(cs, p);
        if q < p || q > cs.len() {
            None
        } else {
            match addr_core_s(cs, q) {
                Some((a, e)) => Some((a, ws_end(cs, e))),
                None => None,
            }
        }
    }
}

/// The span from `a` to `b`.
pub open spec fn sp(a: int, b: int) -> Span {
    Span { start: a as usize, end: b as usize }
}

/// A port number at `p`: at most 65535.
pub open spec fn port_num_s(cs: Seq<char>, p: int) -> Option<(nat, int)> {
    bounded_s(cs, p, 65535)
}

/// A port range at `p`: `from:to`, `from:` (open upwards) or `:to` (open
/// downwards); a `:` with no port on either side is none.
pub open spec fn range_s(cs: Seq<char>, p: int) -> Option<((PortV, Span), int)> {
    let from = port_num_s(cs, p);
    let q = match from {
        Some((_, e)) => e,
        None => p,
    };
    if !at(cs, q, ':') {
        None
    } else {
        match (from, port_num_s(cs, q + 1)) {
            (None, None) => None,
            (None, Some((t, e))) => Some(((PortV::Open(t as u16, sp(q + 1, e), false), sp(p, e)), e)),
            (Some((f, fe)), None) => Some(((PortV::Open(f as u16, sp(p, fe), true), sp(p, q + 1)), q + 1)),
            (Some((f, fe)), Some((t, e))) => Some(((PortV::Range(f as u16, sp(p, fe), t as u16, sp(q + 1, e)), sp(p, e)), e)),
        }
    }
}

/// The members of a port group from `p` to its `]`.
pub open spec fn port_items_s(cs: Seq<char>, p: int, nonempty: bool) -> Option<(Seq<(PortV, Span)>, int)>
    decreases cs.len() - p, 4nat,
{
    if p < 0 || p > cs.len() {
        None
    } else if nonempty && at(cs, p, ']') {
        Some((seq![], p + 1))
    } else {
        match port_s(cs, p) {
            None => None,
            Some((a, e)) => if e <= p { None } else if at(cs, e, ',') {
                match port_items_s(cs, e + 1, true) {
                    Some((rest, end)) => Some((seq![a] + rest, end)),
                    None => None,
                }
            } else if at(cs, e, ']') {
                match port_items_s(cs, e, true) {
                    Some((rest, end)) => Some((seq![a] + rest, end)),
                    None => None,
                }
            } else {
                None
            },
        }
    }
}

/// A port group at `p`: `[`, one or more ports, `]`.
pub open spec fn port_group_s(cs: Seq<char>, p: int) -> Option<((PortV, Span), int)>
    decreases cs.len() - p, 0nat,
{
    if at(cs, p, '[') {
        match port_items_s(cs, p + 1, false) {
            Some((items, e)) => Some(((PortV::Group(items), sp(p, e)), e)),
            None => None,
        }
    } else {
        None
    }
}

/// What a `!` may stand before in a port: a variable, a group, a range or a
/// number; never another negation.
pub open spec fn neg_port_s(cs: Seq<char>, q: int) -> Option<((PortV, Span), int)>
    decreases cs.len() - q, 1nat,
{
    if q < 0 || q > cs.len() {
        None
    } else if var_s(cs, q) is Some {
        let (n, e) = var_s(cs, q)->0;
        Some(((PortV::Var(n, sp(q, e)), sp(q, e)), e))
    } else if port_group_s(cs, q) is Some {
        port_group_s(cs, q)
    } else if range_s(cs, q) is Some {
        range_s(cs, q)
    } else if port_num_s(cs, q) is Some {
        let (v, e) = port_num_s(cs, q)->0;
        Some(((PortV::Port(v as u16, sp(q, e)), sp(q, e)), e))
    } else {
        None
    }
}

/// A port at `p`, white space excluded: a negation, a variable, a group, a
/// range, a number, or `any`.
pub open spec fn port_core_s(cs: Seq<char>, p: int) -> Option<((PortV, Span), int)>
    decreases cs.len() - p, 2nat,
{
    if p < 0 || p > cs.len() {
        None
    } else if at(cs, p, '!') && neg_port_s(cs, p + 1) is Some {
        let ((a, s), e) = neg_port_s(cs, p + 1)->0;
        Some(((PortV::Neg(Box::new(a), s), sp(p, e)), e))
    } else if var_s(cs, p) is Some {
        let (n, e) = var_s(cs, p)->0;
        Some(((PortV::Var(n, sp(p, e)), sp(p, e)), e))
    } else if port_group_s(cs, p) is Some {
        port_group_s(cs, p)
    } else if range_s(cs, p) is Some {
        range_s(cs, p)
    } else if port_num_s(cs, p) is Some {
        let (v, e) = port_num_s(cs, p)->0;
        Some(((PortV::Port(v as u16, sp(p, e)), sp(p, e)), e))
    } else if any_s(cs, p) is Some {
        let e = any_s(cs, p)->0;
        Some(((PortV::Any(sp(p, e)), sp(p, e)), e))
    } else {
        None
    }
}

/// A port with the white space around it.
pub open spec fn port_s(cs: Seq<char>, p: int) -> Option<((PortV, Span), int)>
    decreases cs.len() - p, 3nat,
{
    if p < 0 || p > cs.len() {
        None
    } else {
        let q = ws_end(cs, p);
        if q < p || q > cs.len() {
            None
        } else {
            match port_core_s(cs, q) {
                Some((a, e)) => Some((a, ws_end(cs, e))),
                None => None,
            }
        }
    }
}

/// A direction as plain values.
pub enum DirV {
    SrcToDst,
    Both,
    DstToSrc,
    Unrecognized(Seq<char>),
}

/// The plain values of a direction.
pub open spec fn dir_v(d: NetworkDirection) -> DirV {
    match d {
        NetworkDirection::SrcToDst => DirV::SrcToDst,
        NetworkDirection::Both => DirV::Both,
        NetworkDirection::DstToSrc => DirV::DstToSrc,
        NetworkDirection::Unrecognized(s) => DirV::Unrecognized(s@),
    }
}

/// The end of the run of `<`, `-` and `>` from `p`.
pub open spec fn dir_run(cs: Seq<char>, p: int) -> int
    decreases cs.len() - p,
{
    if 0 <= p < cs.len() && is_direction_char(cs[p]) {
        dir_run(cs, p + 1)
    } else {
        p
    }
}

/// A direction at `p`: a run of `<`, `-`, `>`; `->`, `<>` and `<-` are
/// known, any other run is kept as it is written.
pub open spec fn dir_s(cs: Seq<char>, p: int) -> Option<((DirV, Span), int)> {
    let e = dir_run(cs, p);
    if e <= p {
        None
    } else {
        let t = cs.subrange(p, e);
        let d = if t == seq!['-', '>'] {
            DirV::SrcToDst
        } else if t == seq!['<', '>'] {
            DirV::Both
        } else if t == seq!['<', '-'] {
            DirV::DstToSrc
        } else {
            DirV::Unrecognized(t)
        };
        Some(((d, sp(p, e)), e))
    }
}

/// A header as plain values.
pub struct HeaderV {
    pub protocol: Option<(Seq<char>, Span)>,
    pub source: Option<(AddrV, Span)>,
    pub source_port: Option<(PortV, Span)>,
    pub direction: Option<(DirV, Span)>,
    pub destination: Option<(AddrV, Span)>,
    pub destination_port: Option<(PortV, Span)>,
}

/// The plain values of a header.
pub open spec fn header_v(h: Header) -> HeaderV {
    HeaderV {
        protocol: match h.protocol { Some(p) => Some((p.0@, p.1)), None => None },
        source: match h.source { Some(a) => Some((addr_v(a.0), a.1)), None => None },
        source_port: match h.source_port { Some(a) => Some((port_v(a.0), a.1)), None => None },
        direction: match h.direction { Some(d) => Some((dir_v(d.0), d.1)), None => None },
        destination: match h.destination { Some(a) => Some((addr_v(a.0), a.1)), None => None },
        destination_port: match h.destination_port { Some(a) => Some((port_v(a.0), a.1)), None => None },
    }
}

/// An optional address at `p`: what is read, the end of what the header has
/// read so far, and where reading goes on.
pub open spec fn opt_addr_s(cs: Seq<char>, p: int, last: int) -> (Option<(AddrV, Span)>, int, int) {
    match addr_s(cs, p) {
        Some((a, e)) => (Some(a), a.1.end as int, e),
        None => (None, last, p),
    }
}

/// An optional port at `p`, as `opt_addr_s`.
pub open spec fn opt_port_s(cs: Seq<char>, p: int, last: int) -> (Option<(PortV, Span)>, int, int) {
    match port_s(cs, p) {
        Some((a, e)) => (Some(a), a.1.end as int, e),
        None => (None, last, p),
    }
}

/// A header at `p`: an optional protocol (an identifier), then an optional
/// address and port, an optional direction, an optional address and port.
/// Its span runs from its first character to the end of its last part.
#[verifier::opaque]
pub open spec fn header_s(cs: Seq<char>, pos: int) -> ((HeaderV, Span), int) {
    let start = ws_end(cs, pos);
    let (proto, last0, p0) = match ident_s(cs, start) {
        Some(e) => (Some((cs.subrange(start, e), sp(start, e))), e, e),
        None => (None, start, start),
    };
    let (src, last1, p1) = opt_addr_s(cs, p0, last0);
    let (sport, last2, p2) = opt_port_s(cs, p1, last1);
    let q = ws_end(cs, p2);
    let (dir, last3, p3) = match dir_s(cs, q) {
        Some((d, e)) => (Some(d), e, ws_end(cs, e)),
        None => (None, last2, q),
    };
    let (dst, last4, p4) = opt_addr_s(cs, p3, last3);
    let (dport, last5, p5) = opt_port_s(cs, p4, last4);
    ((HeaderV {
        protocol: proto,
        source: src,
        source_port: sport,
        direction: dir,
        destination: dst,
        destination_port: dport,
    }, sp(start, last5)), p5)
}

/// An option value as plain values.
pub enum ValueV {
    Str(Seq<char>, Span),
    Other(Seq<char>, Span),
}

/// An option as plain values.
pub enum OptionV {
    Pair(Seq<char>, Span, Seq<(ValueV, Span)>),
    Buffer(Seq<char>, Span),
}

/// An action as plain values.
pub enum ActionV {
    Alert,
    Pass,
    Drop,
    Reject,
    Rejectsrc,
    Rejectdst,
    Rejectboth,
    Other(Seq<char>),
}

/// A rule as plain values.
pub struct RuleV {
    pub action: Option<(ActionV, Span)>,
    pub header: (HeaderV, Span),
    pub options: Option<Seq<(OptionV, Span)>>,
}

pub open spec fn value_v(v: OptionsVariable) -> ValueV {
    match v {
        OptionsVariable::String(x) => ValueV::Str(x.0@, x.1),
        OptionsVariable::Other(x) => ValueV::Other(x.0@, x.1),
    }
}

pub open spec fn value_list_v(vs: Seq<Spanned<OptionsVariable>>) -> Seq<(ValueV, Span)>
    decreases vs.len(),
{
    if vs.len() == 0 {
        seq![]
    } else {
        value_list_v(vs.drop_last()).push((value_v(vs.last().0), vs.last().1))
    }
}

pub open spec fn option_v(o: RuleOption) -> OptionV {
    match o {
        RuleOption::KeywordPair(k, vs) => OptionV::Pair(k.0@, k.1, value_list_v(vs@)),
        RuleOption::Buffer(k) => OptionV::Buffer(k.0@, k.1),
    }
}

pub open spec fn option_list_v(os: Seq<Spanned<RuleOption>>) -> Seq<(OptionV, Span)>
    decreases os.len(),
{
    if os.len() == 0 {
        seq![]
    } else {
        option_list_v(os.drop_last()).push((option_v(os.last().0), os.last().1))
    }
}

pub open spec fn action_v(a: Action) -> ActionV {
    match a {
        Action::Alert => ActionV::Alert,
        Action::Pass => ActionV::Pass,
        Action::Drop => ActionV::Drop,
        Action::Reject => ActionV::Reject,
        Action::Rejectsrc => ActionV::Rejectsrc,
        Action::Rejectdst => ActionV::Rejectdst,
        Action::Rejectboth => ActionV::Rejectboth,
        Action::Other(s) => ActionV::Other(s@),
    }
}

/// The action a word names; any other word is kept.
pub open spec fn word_action_v(w: Seq<char>) -> ActionV {
    if action_of(w) is Other {
        ActionV::Other(w)
    } else {
        action_v(action_of(w))
    }
}

/// The plain values of a rule.
pub open spec fn rule_v(r: Rule) -> RuleV {
    RuleV {
        action: match r.action { Some(a) => Some((action_v(a.0), a.1)), None => None },
        header: (header_v(r.header.0), r.header.1),
        options: match r.options { Some(os) => Some(option_list_v(os@)), None => None },
    }
}

/// A quoted value at `q`: its contents without the backslash of each escape.
pub open spec fn string_s(cs: Seq<char>, q: int) -> Option<((ValueV, Span), int)> {
    if at(cs, q, '"') && quoted_scan(cs.skip(q + 1)) is Some {
        let (v, n) = quoted_scan(cs.skip(q + 1))->0;
        let e = q + n + 2;
        Some(((ValueV::Str(v, sp(q, e)), sp(q, e)), e))
    } else {
        None
    }
}

/// A bare value at `q`: up to the first unescaped `;` or `,`.
pub open spec fn other_s(cs: Seq<char>, q: int) -> ((ValueV, Span), int) {
    let (v, n) = bare_scan(cs.skip(q));
    let e = q + n;
    ((ValueV::Other(v, sp(q, e)), sp(q, e)), e)
}

/// One value at `p`, white space before it skipped: a quoted value (and the
/// white space after it), else a bare value.
pub open spec fn one_value_s(cs: Seq<char>, p: int) -> ((ValueV, Span), int) {
    let q = ws_end(cs, p);
    match string_s(cs, q) {
        Some((v, e)) => (v, ws_end(cs, e)),
        None => other_s(cs, q),
    }
}

/// The values of a keyword from `p`, separated by `,`: the values, the end of
/// the last one, and where reading stops.
pub open spec fn values_s(cs: Seq<char>, p: int) -> (Seq<(ValueV, Span)>, int, int)
    decreases cs.len() - p,
{
    let (v, ve) = one_value_s(cs, p);
    if at(cs, ve, ',') && ve >= p && p <= cs.len() {
        let (rest, last, end) = values_s(cs, ve + 1);
        (seq![v] + rest, last, end)
    } else {
        (seq![v], v.1.end as int, ve)
    }
}

/// The end of the run of characters other than `:`, `;` and `)` from `p`.
pub open spec fn keyword_run(cs: Seq<char>, p: int) -> int
    decreases cs.len() - p,
{
    if 0 <= p < cs.len() && cs[p] != ':' && cs[p] != ';' && cs[p] != ')' {
        keyword_run(cs, p + 1)
    } else {
        p
    }
}

/// `e`, moved back over the white space that ends `cs[start..e]`.
pub open spec fn trim_back(cs: Seq<char>, start: int, e: int) -> int
    decreases e - start,
{
    if e > start && 0 < e <= cs.len() && is_ws(cs[e - 1]) {
        trim_back(cs, start, e - 1)
    } else {
        e
    }
}

/// One option at `pos`: a keyword (a run of characters other than `:`, `;`,
/// `)`, without the white space at its ends) alone, or followed by `:` and
/// its values.
pub open spec fn option_s(cs: Seq<char>, pos: int) -> Option<((OptionV, Span), int)> {
    let start = ws_end(cs, pos);
    let e = keyword_run(cs, start);
    let kend = trim_back(cs, start, e);
    if kend <= start {
        None
    } else if !at(cs, e, ':') {
        Some(((OptionV::Buffer(cs.subrange(start, kend), sp(start, kend)), sp(start, kend)), ws_end(cs, e)))
    } else {
        let (vals, last, ve) = values_s(cs, e + 1);
        Some(((OptionV::Pair(cs.subrange(start, kend), sp(start, kend), vals), sp(start, last)), ve))
    }
}

/// The options after `(` from `p` to the `)`: separated by `;`, with an
/// optional `;` after the last; then the white space after the `)`.
pub open spec fn opt_items_s(cs: Seq<char>, p: int) -> Option<(Seq<(OptionV, Span)>, int)>
    decreases cs.len() - p,
{
    if p < 0 || p > cs.len() {
        None
    } else {
        let q = ws_end(cs, p);
        if at(cs, q, ')') {
            Some((seq![], ws_end(cs, q + 1)))
        } else {
            match option_s(cs, q) {
                None => None,
                Some((o, e)) => if e < p {
                    None
                } else if at(cs, e, ';') {
                    match opt_items_s(cs, e + 1) {
                        Some((rest, end)) => Some((seq![o] + rest, end)),
                        None => None,
                    }
                } else if at(cs, e, ')') {
                    Some((seq![o], ws_end(cs, e + 1)))
                } else {
                    None
                },
            }
        }
    }
}

/// The options of a rule at `p`.
#[verifier::opaque]
pub open spec fn options_s(cs: Seq<char>, p: int) -> Option<(Seq<(OptionV, Span)>, int)> {
    if at(cs, p, '(') {
        opt_items_s(cs, p + 1)
    } else {
        None
    }
}

/// A rule line: an optional action (an identifier), a header, optional
/// options, and nothing but white space after.
pub open spec fn rule_s(cs: Seq<char>) -> Option<RuleV> {
    let p0 = ws_end(cs, 0);
    let (act, p1) = match ident_s(cs, p0) {
        Some(e) => (Some((word_action_v(cs.subrange(p0, e)), sp(p0, e))), ws_end(cs, e)),
        None => (None, p0),
    };
    let (h, e) = header_s(cs, p1);
    let p2 = ws_end(cs, e);
    let (opts, p3) = match options_s(cs, p2) {
        Some((os, e3)) => (Some(os), e3),
        None => (None, p2),
    };
    if p3 < cs.len() {
        None
    } else {
        Some(RuleV { action: act, header: h, options: opts })
    }
}

/// A `:` at `q` with no number after it: a range with neither end.
pub open spec fn lone_colon(cs: Seq<char>, q: int) -> bool {
    at(cs, q, ':') && int_s(cs, q + 1) is None
}

/// The end of a number at `q` that is above `max`, if one stands there.
pub open spec fn too_big(cs: Seq<char>, q: int, max: nat) -> Option<int> {
    match int_s(cs, q) {
        Some((v, e)) => if v > max { Some(e) } else { None },
        None => None,
    }
}

/// The end of a first IPv4 octet at `q` that is above 255, where no IPv6
/// address can be read there (no colon in the run of hex digits).
pub open spec fn octet_too_big(cs: Seq<char>, q: int) -> Option<int> {
    if cs.subrange(q, hex_run(cs, q)).contains(':') {
        None
    } else {
        too_big(cs, q, 255)
    }
}

/// The span of a CIDR mask above 255 after an IP address at `q`.
pub open spec fn mask_too_big(cs: Seq<char>, q: int) -> Option<Span> {
    match ip_s(cs, q) {
        Some((_, e)) => if at(cs, e, '/') {
            match too_big(cs, e + 1, 255) {
                Some(me) => Some(sp(e + 1, me)),
                None => None,
            }
        } else {
            None
        },
        None => None,
    }
}

/// A diagnostic with span `s` was added between `before` and `after`.
pub open spec fn has_diag(before: Seq<Diagnostic>, after: Seq<Diagnostic>, s: Span) -> bool {
    exists|k: int| before.len() <= k < after.len() && #[trigger] after[k].span == s
}

/// An added diagnostic stays when more are added.
pub broadcast proof fn lemma_has_diag_grows(a: Seq<Diagnostic>, b: Seq<Diagnostic>, c: Seq<Diagnostic>, s: Span)
    requires
        has_diag(a, b, s),
        grows(b, c),
    ensures
        #![trigger has_diag(a, b, s), grows(b, c)]
        has_diag(a, c, s),
{
    let k = choose|k: int| a.len() <= k < b.len() && #[trigger] b[k].span == s;
    assert(c.take(b.len() as int)[k] == c[k]);
}

/// A diagnostic added after a later start was added after an earlier one.
pub broadcast proof fn lemma_has_diag_earlier(a0: Seq<Diagnostic>, a: Seq<Diagnostic>, b: Seq<Diagnostic>, s: Span)
    requires
        grows(a0, a),
        has_diag(a, b, s),
    ensures
        #![trigger grows(a0, a), has_diag(a, b, s)]
        has_diag(a0, b, s),
{
    let k = choose|k: int| a.len() <= k < b.len() && #[trigger] b[k].span == s;
}

/// Diagnostics are only added.
pub open spec fn grows(before: Seq<Diagnostic>, after: Seq<Diagnostic>) -> bool {
    before.len() <= after.len() && after.take(before.len() as int) == before
}

pub broadcast proof fn lemma_grows_refl(a: Seq<Diagnostic>)
    ensures
        #[trigger] grows(a, a),
{
    assert(a.take(a.len() as int) == a);
}

pub broadcast proof fn lemma_grows_trans(a: Seq<Diagnostic>, b: Seq<Diagnostic>, c: Seq<Diagnostic>)
    requires
        grows(a, b),
        grows(b, c),
    ensures
        #![trigger grows(a, b), grows(b, c)]
        grows(a, c),
{
    assert(c.take(b.len() as int).take(a.len() as int) == c.take(a.len() as int));
}

} // verus!
