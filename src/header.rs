use vstd::prelude::*;

use crate::net::{ipv6_text, ipv6_to_string};
use crate::span::{Span, Spanned};
use crate::text::{decimal, push_char, push_decimal, push_string};

verus! {

/// An IP address as plain values: the four octets of an IPv4 address, or the
/// 128-bit value of an IPv6 address.
#[derive(Clone, Copy, Debug, PartialEq, Eq, Hash, Structural)]
pub enum IpAddress {
    V4(u8, u8, u8, u8),
    V6(u128),
}

/// A network address (IP, CIDR range, group of addresses, negation, variable).
#[derive(Debug)]
pub enum NetworkAddress {
    Any(Span),
    IPAddr(Spanned<IpAddress>),
    CIDR(Spanned<IpAddress>, Spanned<u8>),
    IPGroup(Vec<Spanned<NetworkAddress>>),
    NegIP(Box<Spanned<NetworkAddress>>),
    IPVariable(Spanned<String>),
}

/// A network port (single port, range, group, negation, variable).
#[derive(Debug)]
pub enum NetworkPort {
    Any(Span),
    Port(Spanned<u16>),
    PortGroup(Vec<Spanned<NetworkPort>>),
    PortRange(Spanned<u16>, Spanned<u16>),
    /// An open range: the port, and whether the range is open upwards
    /// (`1024:`) rather than downwards (`:1024`).
    PortOpenRange(Spanned<u16>, bool),
    NegPort(Box<Spanned<NetworkPort>>),
    PortVar(Spanned<String>),
}

/// The direction of the traffic a rule applies to.
#[derive(Clone, Debug, PartialEq, Eq, Hash)]
pub enum NetworkDirection {
    SrcToDst,
    Both,
    DstToSrc,
    /// Any other run of `<`, `-`, `>` characters, kept verbatim.
    Unrecognized(String),
}

/// The header of a rule: protocol, addresses, ports and direction. Every part
/// may be missing while the rule is being typed.
#[derive(Debug)]
pub struct Header {
    pub protocol: Option<Spanned<String>>,
    pub source: Option<Spanned<NetworkAddress>>,
    pub source_port: Option<Spanned<NetworkPort>>,
    pub direction: Option<Spanned<NetworkDirection>>,
    pub destination: Option<Spanned<NetworkAddress>>,
    pub destination_port: Option<Spanned<NetworkPort>>,
}

/// The name filter of a variable search, as a sequence of characters.
pub open spec fn filter_view(name: Option<String>) -> Option<Seq<char>> {
    match name {
        Some(n) => Some(n@),
        None => None,
    }
}

/// A variable named `n` passes the filter: no filter, or the same name.
pub open spec fn passes(filter: Option<Seq<char>>, n: Seq<char>) -> bool {
    filter is None || filter->0 == n
}

/// The variables of an address tree that pass the filter, in pre-order.
pub open spec fn address_vars(a: NetworkAddress, filter: Option<Seq<char>>) -> Seq<Spanned<String>>
    decreases a,
{
    match a {
        NetworkAddress::IPGroup(g) => address_group_vars(g@, filter),
        NetworkAddress::NegIP(b) => address_vars(b.0, filter),
        NetworkAddress::IPVariable(v) => if passes(filter, v.0@) {
            seq![v]
        } else {
            seq![]
        },
        _ => seq![],
    }
}

/// The variables of the members of an address group, member after member.
pub open spec fn address_group_vars(g: Seq<Spanned<NetworkAddress>>, filter: Option<Seq<char>>) -> Seq<Spanned<String>>
    decreases g,
{
    if g.len() == 0 {
        seq![]
    } else {
        address_group_vars(g.drop_last(), filter) + address_vars(g.last().0, filter)
    }
}

/// The variables of a port tree that pass the filter, in pre-order.
pub open spec fn port_vars(p: NetworkPort, filter: Option<Seq<char>>) -> Seq<Spanned<String>>
    decreases p,
{
    match p {
        NetworkPort::PortGroup(g) => port_group_vars(g@, filter),
        NetworkPort::NegPort(b) => port_vars(b.0, filter),
        NetworkPort::PortVar(v) => if passes(filter, v.0@) {
            seq![v]
        } else {
            seq![]
        },
        _ => seq![],
    }
}

/// The variables of the members of a port group, member after member.
pub open spec fn port_group_vars(g: Seq<Spanned<NetworkPort>>, filter: Option<Seq<char>>) -> Seq<Spanned<String>>
    decreases g,
{
    if g.len() == 0 {
        seq![]
    } else {
        port_group_vars(g.drop_last(), filter) + port_vars(g.last().0, filter)
    }
}

fn passes_filter(name: &Option<String>, var: &Spanned<String>) -> (r: bool)
    ensures
        r == passes(filter_view(*name), var.0@),
{
    match name {
        Some(n) => *n == var.0,
        None => true,
    }
}

fn spanned_string_copy(var: &Spanned<String>) -> (r: Spanned<String>)
    ensures
        r == *var,
{
    (var.0.clone(), var.1)
}

impl NetworkAddress {
    /// All variables of the address that pass the filter (`None`: every one),
    /// or `None` where there is none.
    pub fn find_variables(&self, name: &Option<String>) -> (r: Option<Vec<Spanned<String>>>)
        ensures
            address_vars(*self, filter_view(*name)).len() == 0 ==> r is None,
            address_vars(*self, filter_view(*name)).len() > 0 ==> (r matches Some(v) && v@
                == address_vars(*self, filter_view(*name))),
    {
        let mut ret: Vec<Spanned<String>> = Vec::new();
        self.find_variables_with_array(name, &mut ret);
        if ret.len() == 0 {
            None
        } else {
            Some(ret)
        }
    }

    /// Appends to `vector` the variables of the address that pass the filter.
    pub fn find_variables_with_array(&self, name: &Option<String>, vector: &mut Vec<Spanned<String>>)
        ensures
            final(vector)@ == old(vector)@ + address_vars(*self, filter_view(*name)),
        decreases self,
    {
        match self {
            NetworkAddress::IPGroup(group) => {
                let ghost start = vector@;
                let mut i: usize = 0;
                while i < group.len()
                    invariant
                        i <= group@.len(),
                        *self == NetworkAddress::IPGroup(*group),
                        vector@ == start + address_group_vars(group@.take(i as int), filter_view(*name)),
                    decreases group@.len() - i,
                {
                    assert(group@.take(i as int + 1).drop_last() == group@.take(i as int));
                    proof {
                        assert(decreases_to!(*self => self->IPGroup_0));
                        assert(decreases_to!(*group => group[i as int]));
                        assert(decreases_to!(group[i as int] => group[i as int].0));
                    }
                    group[i].0.find_variables_with_array(name, vector);
                    i = i + 1;
                }
                assert(group@.take(group@.len() as int) == group@);
            },
            NetworkAddress::NegIP(inner) => {
                inner.0.find_variables_with_array(name, vector);
            },
            NetworkAddress::IPVariable(var) => {
                if passes_filter(name, var) {
                    vector.push(spanned_string_copy(var));
                }
            },
            _ => {},
        }
    }
}

impl NetworkPort {
    /// All variables of the port that pass the filter (`None`: every one), or
    /// `None` where there is none.
    pub fn find_variables(&self, name: &Option<String>) -> (r: Option<Vec<Spanned<String>>>)
        ensures
            port_vars(*self, filter_view(*name)).len() == 0 ==> r is None,
            port_vars(*self, filter_view(*name)).len() > 0 ==> (r matches Some(v) && v@
                == port_vars(*self, filter_view(*name))),
    {
        let mut ret: Vec<Spanned<String>> = Vec::new();
        self.find_variables_with_array(name, &mut ret);
        if ret.len() == 0 {
            None
        } else {
            Some(ret)
        }
    }

    /// Appends to `vector` the variables of the port that pass the filter.
    pub fn find_variables_with_array(&self, name: &Option<String>, vector: &mut Vec<Spanned<String>>)
        ensures
            final(vector)@ == old(vector)@ + port_vars(*self, filter_view(*name)),
        decreases self,
    {
        match self {
            NetworkPort::PortGroup(group) => {
                let ghost start = vector@;
                let mut i: usize = 0;
                while i < group.len()
                    invariant
                        i <= group@.len(),
                        *self == NetworkPort::PortGroup(*group),
                        vector@ == start + port_group_vars(group@.take(i as int), filter_view(*name)),
                    decreases group@.len() - i,
                {
                    assert(group@.take(i as int + 1).drop_last() == group@.take(i as int));
                    proof {
                        assert(decreases_to!(*self => self->PortGroup_0));
                        assert(decreases_to!(*group => group[i as int]));
                        assert(decreases_to!(group[i as int] => group[i as int].0));
                    }
                    group[i].0.find_variables_with_array(name, vector);
                    i = i + 1;
                }
                assert(group@.take(group@.len() as int) == group@);
            },
            NetworkPort::NegPort(inner) => {
                inner.0.find_variables_with_array(name, vector);
            },
            NetworkPort::PortVar(var) => {
                if passes_filter(name, var) {
                    vector.push(spanned_string_copy(var));
                }
            },
            _ => {},
        }
    }
}

/// The text of an IP address: dotted decimal for IPv4, std's text for IPv6.
pub open spec fn ip_text(ip: IpAddress) -> Seq<char> {
    match ip {
        IpAddress::V4(a, b, c, d) => decimal(a as nat) + seq!['.'] + decimal(b as nat) + seq!['.']
            + decimal(c as nat) + seq!['.'] + decimal(d as nat),
        IpAddress::V6(v) => ipv6_text(v),
    }
}

/// The canonical text of an address.
pub open spec fn address_text(a: NetworkAddress) -> Seq<char>
    decreases a,
{
    match a {
        NetworkAddress::Any(_) => seq!['a', 'n', 'y'],
        NetworkAddress::IPAddr(ip) => ip_text(ip.0),
        NetworkAddress::CIDR(ip, mask) => ip_text(ip.0) + seq!['/'] + decimal(mask.0 as nat),
        NetworkAddress::IPGroup(g) => seq!['['] + address_list_text(g@) + seq![']'],
        NetworkAddress::NegIP(b) => seq!['!'] + address_text(b.0),
        NetworkAddress::IPVariable(v) => seq!['$'] + v.0@,
    }
}

/// The texts of the members of an address group, separated by `", "`.
pub open spec fn address_list_text(g: Seq<Spanned<NetworkAddress>>) -> Seq<char>
    decreases g,
{
    if g.len() == 0 {
        seq![]
    } else if g.len() == 1 {
        address_text(g[0].0)
    } else {
        address_list_text(g.drop_last()) + seq![',', ' '] + address_text(g.last().0)
    }
}

/// The canonical text of a port.
pub open spec fn port_text(p: NetworkPort) -> Seq<char>
    decreases p,
{
    match p {
        NetworkPort::Any(_) => seq!['a', 'n', 'y'],
        NetworkPort::Port(n) => decimal(n.0 as nat),
        NetworkPort::PortGroup(g) => seq!['['] + port_list_text(g@) + seq![']'],
        NetworkPort::PortRange(from, to) => decimal(from.0 as nat) + seq![':'] + decimal(to.0 as nat),
        NetworkPort::PortOpenRange(n, up) => if up {
            decimal(n.0 as nat) + seq![':']
        } else {
            seq![':'] + decimal(n.0 as nat)
        },
        NetworkPort::NegPort(b) => seq!['!'] + port_text(b.0),
        NetworkPort::PortVar(v) => seq!['$'] + v.0@,
    }
}

/// The texts of the members of a port group, separated by `","`.
pub open spec fn port_list_text(g: Seq<Spanned<NetworkPort>>) -> Seq<char>
    decreases g,
{
    if g.len() == 0 {
        seq![]
    } else if g.len() == 1 {
        port_text(g[0].0)
    } else {
        port_list_text(g.drop_last()) + seq![','] + port_text(g.last().0)
    }
}

/// The canonical text of a direction.
pub open spec fn direction_text(d: NetworkDirection) -> Seq<char> {
    match d {
        NetworkDirection::SrcToDst => seq!['-', '>'],
        NetworkDirection::Both => seq!['<', '>'],
        NetworkDirection::DstToSrc => seq!['<', '-'],
        NetworkDirection::Unrecognized(s) => s@,
    }
}

/// A present protocol followed by one space; nothing for a missing one.
pub open spec fn protocol_part(p: Option<Spanned<String>>) -> Seq<char> {
    match p {
        Some(x) => x.0@ + seq![' '],
        None => seq![],
    }
}

/// A present address followed by one space; nothing for a missing one.
pub open spec fn address_part(p: Option<Spanned<NetworkAddress>>) -> Seq<char> {
    match p {
        Some(x) => address_text(x.0) + seq![' '],
        None => seq![],
    }
}

/// A present port followed by one space; nothing for a missing one.
pub open spec fn port_part(p: Option<Spanned<NetworkPort>>) -> Seq<char> {
    match p {
        Some(x) => port_text(x.0) + seq![' '],
        None => seq![],
    }
}

/// A present direction followed by one space; nothing for a missing one.
pub open spec fn direction_part(p: Option<Spanned<NetworkDirection>>) -> Seq<char> {
    match p {
        Some(x) => direction_text(x.0) + seq![' '],
        None => seq![],
    }
}

/// The canonical text of a header: each present part followed by one space.
pub open spec fn header_text(h: Header) -> Seq<char> {
    protocol_part(h.protocol) + address_part(h.source) + port_part(h.source_port)
        + direction_part(h.direction) + address_part(h.destination) + port_part(
        h.destination_port,
    )
}

fn write_protocol_part(p: &Option<Spanned<String>>, out: &mut String)
    ensures
        final(out)@ == old(out)@ + protocol_part(*p),
{
    if let Some(x) = p {
        push_string(out, &x.0);
        push_char(out, ' ');
    }
}

fn write_address_part(p: &Option<Spanned<NetworkAddress>>, out: &mut String)
    ensures
        final(out)@ == old(out)@ + address_part(*p),
{
    if let Some(x) = p {
        x.0.write_to(out);
        push_char(out, ' ');
    }
}

fn write_port_part(p: &Option<Spanned<NetworkPort>>, out: &mut String)
    ensures
        final(out)@ == old(out)@ + port_part(*p),
{
    if let Some(x) = p {
        x.0.write_to(out);
        push_char(out, ' ');
    }
}

fn write_direction_part(p: &Option<Spanned<NetworkDirection>>, out: &mut String)
    ensures
        final(out)@ == old(out)@ + direction_part(*p),
{
    if let Some(x) = p {
        x.0.write_to(out);
        push_char(out, ' ');
    }
}

/// Appends the text of an IP address.
pub fn write_ip(ip: &IpAddress, out: &mut String)
    ensures
        final(out)@ == old(out)@ + ip_text(*ip),
{
    match ip {
        IpAddress::V4(a, b, c, d) => {
            push_decimal(out, *a as u64);
            push_char(out, '.');
            push_decimal(out, *b as u64);
            push_char(out, '.');
            push_decimal(out, *c as u64);
            push_char(out, '.');
            push_decimal(out, *d as u64);
        },
        IpAddress::V6(v) => {
            let t = ipv6_to_string(*v);
            push_string(out, &t);
        },
    }
}

fn push_any(out: &mut String)
    ensures
        final(out)@ == old(out)@ + seq!['a', 'n', 'y'],
{
    push_char(out, 'a');
    push_char(out, 'n');
    push_char(out, 'y');
}

impl NetworkAddress {
    /// Appends the canonical text of the address.
    pub fn write_to(&self, out: &mut String)
        ensures
            final(out)@ == old(out)@ + address_text(*self),
        decreases self,
    {
        match self {
            NetworkAddress::Any(_) => push_any(out),
            NetworkAddress::IPAddr(ip) => write_ip(&ip.0, out),
            NetworkAddress::CIDR(ip, mask) => {
                write_ip(&ip.0, out);
                push_char(out, '/');
                push_decimal(out, mask.0 as u64);
            },
            NetworkAddress::IPGroup(group) => {
                push_char(out, '[');
                let ghost start = out@;
                let mut i: usize = 0;
                while i < group.len()
                    invariant
                        *self == NetworkAddress::IPGroup(*group),
                        i <= group@.len(),
                        out@ == start + address_list_text(group@.take(i as int)),
                    decreases group@.len() - i,
                {
                    assert(group@.take(i as int + 1).drop_last() == group@.take(i as int));
                    proof {
                        assert(decreases_to!(*self => self->IPGroup_0));
                        assert(decreases_to!(*group => group[i as int]));
                        assert(decreases_to!(group[i as int] => group[i as int].0));
                    }
                    if i > 0 {
                        push_char(out, ',');
                        push_char(out, ' ');
                    }
                    group[i].0.write_to(out);
                    i = i + 1;
                }
                assert(group@.take(group@.len() as int) == group@);
                push_char(out, ']');
            },
            NetworkAddress::NegIP(inner) => {
                push_char(out, '!');
                inner.0.write_to(out);
            },
            NetworkAddress::IPVariable(v) => {
                push_char(out, '$');
                push_string(out, &v.0);
            },
        }
    }

    /// The canonical text of the address.
    pub fn to_string(&self) -> (r: String)
        ensures
            r@ == address_text(*self),
    {
        let mut out = String::new();
        self.write_to(&mut out);
        out
    }
}

impl NetworkPort {
    /// Appends the canonical text of the port.
    pub fn write_to(&self, out: &mut String)
        ensures
            final(out)@ == old(out)@ + port_text(*self),
        decreases self,
    {
        match self {
            NetworkPort::Any(_) => push_any(out),
            NetworkPort::Port(n) => push_decimal(out, n.0 as u64),
            NetworkPort::PortGroup(group) => {
                push_char(out, '[');
                let ghost start = out@;
                let mut i: usize = 0;
                while i < group.len()
                    invariant
                        *self == NetworkPort::PortGroup(*group),
                        i <= group@.len(),
                        out@ == start + port_list_text(group@.take(i as int)),
                    decreases group@.len() - i,
                {
                    assert(group@.take(i as int + 1).drop_last() == group@.take(i as int));
                    proof {
                        assert(decreases_to!(*self => self->PortGroup_0));
                        assert(decreases_to!(*group => group[i as int]));
                        assert(decreases_to!(group[i as int] => group[i as int].0));
                    }
                    if i > 0 {
                        push_char(out, ',');
                    }
                    group[i].0.write_to(out);
                    i = i + 1;
                }
                assert(group@.take(group@.len() as int) == group@);
                push_char(out, ']');
            },
            NetworkPort::PortRange(from, to) => {
                push_decimal(out, from.0 as u64);
                push_char(out, ':');
                push_decimal(out, to.0 as u64);
            },
            NetworkPort::PortOpenRange(n, up) => {
                if *up {
                    push_decimal(out, n.0 as u64);
                    push_char(out, ':');
                } else {
                    push_char(out, ':');
                    push_decimal(out, n.0 as u64);
                }
            },
            NetworkPort::NegPort(inner) => {
                push_char(out, '!');
                inner.0.write_to(out);
            },
            NetworkPort::PortVar(v) => {
                push_char(out, '$');
                push_string(out, &v.0);
            },
        }
    }

    /// The canonical text of the port.
    pub fn to_string(&self) -> (r: String)
        ensures
            r@ == port_text(*self),
    {
        let mut out = String::new();
        self.write_to(&mut out);
        out
    }
}

impl NetworkDirection {
    /// Appends the text of the direction.
    pub fn write_to(&self, out: &mut String)
        ensures
            final(out)@ == old(out)@ + direction_text(*self),
    {
        match self {
            NetworkDirection::SrcToDst => {
                push_char(out, '-');
                push_char(out, '>');
            },
            NetworkDirection::Both => {
                push_char(out, '<');
                push_char(out, '>');
            },
            NetworkDirection::DstToSrc => {
                push_char(out, '<');
                push_char(out, '-');
            },
            NetworkDirection::Unrecognized(s) => push_string(out, s),
        }
    }

    /// The text of the direction.
    pub fn to_string(&self) -> (r: String)
        ensures
            r@ == direction_text(*self),
    {
        let mut out = String::new();
        self.write_to(&mut out);
        out
    }
}

impl Header {
    /// Appends the canonical text of the header.
    pub fn write_to(&self, out: &mut String)
        ensures
            final(out)@ == old(out)@ + header_text(*self),
    {
        let ghost start = out@;
        write_protocol_part(&self.protocol, out);
        write_address_part(&self.source, out);
        write_port_part(&self.source_port, out);
        write_direction_part(&self.direction, out);
        write_address_part(&self.destination, out);
        write_port_part(&self.destination_port, out);
        assert(out@ == start + header_text(*self));
    }

    /// The canonical text of the header.
    pub fn to_string(&self) -> (r: String)
        ensures
            r@ == header_text(*self),
    {
        let mut out = String::new();
        self.write_to(&mut out);
        out
    }
}

/// Whether a variable is named `n`.
pub open spec fn name_is(n: Seq<char>) -> spec_fn(Spanned<String>) -> bool {
    |v: Spanned<String>| v.0@ == n
}

/// The variables named `n` among `vs`, in order.
pub open spec fn named(vs: Seq<Spanned<String>>, n: Seq<char>) -> Seq<Spanned<String>> {
    vs.filter(name_is(n))
}

/// Whether the address tree holds the variable `v` as a leaf, at any depth.
pub open spec fn has_address_var(a: NetworkAddress, v: Spanned<String>) -> bool
    decreases a,
{
    match a {
        NetworkAddress::IPGroup(g) => has_group_var(g@, v),
        NetworkAddress::NegIP(b) => has_address_var(b.0, v),
        NetworkAddress::IPVariable(x) => x == v,
        _ => false,
    }
}

/// Whether some member of an address group holds the variable `v`.
pub open spec fn has_group_var(g: Seq<Spanned<NetworkAddress>>, v: Spanned<String>) -> bool
    decreases g,
{
    if g.len() == 0 {
        false
    } else {
        has_group_var(g.drop_last(), v) || has_address_var(g.last().0, v)
    }
}

proof fn empty_filter(n: Seq<char>)
    ensures
        named(Seq::<Spanned<String>>::empty(), n) == Seq::<Spanned<String>>::empty(),
{
    reveal(Seq::filter);
    assert(Seq::<Spanned<String>>::empty().filter(name_is(n)) =~= Seq::<Spanned<String>>::empty());
}

/// Looking for the variables named `n` finds, in the same order, exactly the
/// variables named `n` among all the variables of the address.
pub proof fn lemma_address_filter(a: NetworkAddress, n: Seq<char>)
    ensures
        address_vars(a, Some(n)) == named(address_vars(a, None), n),
    decreases a,
{
    match a {
        NetworkAddress::IPGroup(g) => {
            assert(decreases_to!(a => g));
            lemma_address_group_filter(g@, n);

        },
        NetworkAddress::NegIP(b) => lemma_address_filter(b.0, n),
        NetworkAddress::IPVariable(x) => {
            empty_filter(n);
            Seq::<Spanned<String>>::empty().lemma_filter_push(x, name_is(n));
            assert(Seq::<Spanned<String>>::empty().push(x) == seq![x]);
        },
        _ => {
            empty_filter(n);
        },
    }
}

/// The same, for the members of an address group.
pub proof fn lemma_address_group_filter(g: Seq<Spanned<NetworkAddress>>, n: Seq<char>)
    ensures
        address_group_vars(g, Some(n)) == named(address_group_vars(g, None), n),
    decreases g,
{
    if g.len() == 0 {
        empty_filter(n);
    } else {
        lemma_address_group_filter(g.drop_last(), n);
        lemma_address_filter(g.last().0, n);
        Seq::filter_distributes_over_add(address_group_vars(g.drop_last(), None), address_vars(g.last().0, None), name_is(n));
    }
}

/// Every variable of an address tree, at any depth under groups and
/// negations, is found, and only those are.
pub proof fn lemma_address_vars_complete(a: NetworkAddress, v: Spanned<String>)
    ensures
        address_vars(a, None).contains(v) <==> has_address_var(a, v),
    decreases a,
{
    match a {
        NetworkAddress::IPGroup(g) => {
            assert(decreases_to!(a => g));
            lemma_address_group_vars_complete(g@, v);
        },
        NetworkAddress::NegIP(b) => lemma_address_vars_complete(b.0, v),
        NetworkAddress::IPVariable(x) => {
            if address_vars(a, None).contains(v) {
                assert(address_vars(a, None)[0] == x);
            }
            if x == v {
                assert(address_vars(a, None)[0] == v);
            }
        },
        _ => {},
    }
}

/// The same, for the members of an address group.
pub proof fn lemma_address_group_vars_complete(g: Seq<Spanned<NetworkAddress>>, v: Spanned<String>)
    ensures
        address_group_vars(g, None).contains(v) <==> has_group_var(g, v),
    decreases g,
{
    if g.len() > 0 {
        lemma_address_group_vars_complete(g.drop_last(), v);
        lemma_address_vars_complete(g.last().0, v);
        let s1 = address_group_vars(g.drop_last(), None);
        let s2 = address_vars(g.last().0, None);
        if (s1 + s2).contains(v) {
            let i = choose|i: int| 0 <= i < (s1 + s2).len() && (s1 + s2)[i] == v;
            if i < s1.len() {
                assert(s1[i] == v);
            } else {
                assert(s2[i - s1.len()] == v);
            }
        }
        if s1.contains(v) {
            let i = choose|i: int| 0 <= i < s1.len() && s1[i] == v;
            assert((s1 + s2)[i] == v);
        }
        if s2.contains(v) {
            let i = choose|i: int| 0 <= i < s2.len() && s2[i] == v;
            assert((s1 + s2)[s1.len() + i] == v);
        }
    }
}

/// Looking for the port variables named `n` finds, in the same order, exactly
/// the variables named `n` among all the variables of the port.
pub proof fn lemma_port_filter(p: NetworkPort, n: Seq<char>)
    ensures
        port_vars(p, Some(n)) == named(port_vars(p, None), n),
    decreases p,
{
    match p {
        NetworkPort::PortGroup(g) => {
            assert(decreases_to!(p => g));
            lemma_port_group_filter(g@, n);

        },
        NetworkPort::NegPort(b) => lemma_port_filter(b.0, n),
        NetworkPort::PortVar(x) => {
            empty_filter(n);
            Seq::<Spanned<String>>::empty().lemma_filter_push(x, name_is(n));
            assert(Seq::<Spanned<String>>::empty().push(x) == seq![x]);
        },
        _ => {
            empty_filter(n);
        },
    }
}

/// The same, for the members of a port group.
pub proof fn lemma_port_group_filter(g: Seq<Spanned<NetworkPort>>, n: Seq<char>)
    ensures
        port_group_vars(g, Some(n)) == named(port_group_vars(g, None), n),
    decreases g,
{
    if g.len() == 0 {
        empty_filter(n);
    } else {
        lemma_port_group_filter(g.drop_last(), n);
        lemma_port_filter(g.last().0, n);
        Seq::filter_distributes_over_add(port_group_vars(g.drop_last(), None), port_vars(g.last().0, None), name_is(n));
    }
}

/// Span `a` lies inside span `b`.
pub open spec fn inside(a: Span, b: Span) -> bool {
    b.start <= a.start && a.end <= b.end
}

/// Every part of the address lies inside the span `s` of the address, and
/// every part of a part inside that part's span.
pub open spec fn address_nested(a: NetworkAddress, s: Span) -> bool
    decreases a,
{
    match a {
        NetworkAddress::Any(x) => inside(x, s),
        NetworkAddress::IPAddr(ip) => inside(ip.1, s),
        NetworkAddress::CIDR(ip, m) => inside(ip.1, s) && inside(m.1, s),
        NetworkAddress::IPGroup(g) => address_group_nested(g@, s),
        NetworkAddress::NegIP(b) => inside(b.1, s) && address_nested(b.0, b.1),
        NetworkAddress::IPVariable(v) => inside(v.1, s),
    }
}

/// Every member of a group lies inside `s`, and is nested itself.
pub open spec fn address_group_nested(g: Seq<Spanned<NetworkAddress>>, s: Span) -> bool
    decreases g,
{
    if g.len() == 0 {
        true
    } else {
        address_group_nested(g.drop_last(), s) && inside(g.last().1, s) && address_nested(g.last().0, g.last().1)
    }
}

/// Every part of the port lies inside the span `s` of the port, and every
/// part of a part inside that part's span.
pub open spec fn port_nested(p: NetworkPort, s: Span) -> bool
    decreases p,
{
    match p {
        NetworkPort::Any(x) => inside(x, s),
        NetworkPort::Port(x) => inside(x.1, s),
        NetworkPort::PortGroup(g) => port_group_nested(g@, s),
        NetworkPort::PortRange(f, t) => inside(f.1, s) && inside(t.1, s),
        NetworkPort::PortOpenRange(x, _) => inside(x.1, s),
        NetworkPort::NegPort(b) => inside(b.1, s) && port_nested(b.0, b.1),
        NetworkPort::PortVar(v) => inside(v.1, s),
    }
}

/// Every member of a port group lies inside `s`, and is nested itself.
pub open spec fn port_group_nested(g: Seq<Spanned<NetworkPort>>, s: Span) -> bool
    decreases g,
{
    if g.len() == 0 {
        true
    } else {
        port_group_nested(g.drop_last(), s) && inside(g.last().1, s) && port_nested(g.last().0, g.last().1)
    }
}

/// A group nested in a span is nested in any span around it.
pub proof fn lemma_address_group_nested_wider(g: Seq<Spanned<NetworkAddress>>, s: Span, t: Span)
    requires
        address_group_nested(g, s),
        inside(s, t),
    ensures
        address_group_nested(g, t),
    decreases g.len(),
{
    if g.len() > 0 {
        lemma_address_group_nested_wider(g.drop_last(), s, t);
    }
}

/// A port group nested in a span is nested in any span around it.
pub proof fn lemma_port_group_nested_wider(g: Seq<Spanned<NetworkPort>>, s: Span, t: Span)
    requires
        port_group_nested(g, s),
        inside(s, t),
    ensures
        port_group_nested(g, t),
    decreases g.len(),
{
    if g.len() > 0 {
        lemma_port_group_nested_wider(g.drop_last(), s, t);
    }
}

/// Every part of the header lies inside its span `s`, and is nested itself.
pub open spec fn header_nested(h: Header, s: Span) -> bool {
    &&& (h.protocol matches Some(p) ==> inside(p.1, s))
    &&& (h.source matches Some(a) ==> inside(a.1, s) && address_nested(a.0, a.1))
    &&& (h.source_port matches Some(p) ==> inside(p.1, s) && port_nested(p.0, p.1))
    &&& (h.direction matches Some(d) ==> inside(d.1, s))
    &&& (h.destination matches Some(a) ==> inside(a.1, s) && address_nested(a.0, a.1))
    &&& (h.destination_port matches Some(p) ==> inside(p.1, s) && port_nested(p.0, p.1))
}

/// The span of a present part.
pub open spec fn part_span<T>(x: Option<Spanned<T>>) -> Option<Span> {
    match x {
        Some(y) => Some(y.1),
        None => None,
    }
}

/// Where both parts are present, the first ends before the second starts.
pub open spec fn before(a: Option<Span>, b: Option<Span>) -> bool {
    (a is Some && b is Some) ==> a->0.end <= b->0.start
}

/// The present parts of the header follow each other without overlapping,
/// in the order protocol, source, source port, direction, destination,
/// destination port.
pub open spec fn header_ordered(h: Header) -> bool {
    let p = part_span(h.protocol);
    let s = part_span(h.source);
    let sp = part_span(h.source_port);
    let d = part_span(h.direction);
    let t = part_span(h.destination);
    let tp = part_span(h.destination_port);
    &&& before(p, s) && before(p, sp) && before(p, d) && before(p, t) && before(p, tp)
    &&& before(s, sp) && before(s, d) && before(s, t) && before(s, tp)
    &&& before(sp, d) && before(sp, t) && before(sp, tp)
    &&& before(d, t) && before(d, tp)
    &&& before(t, tp)
}

/// Every span of the address tree is valid and lies inside a text of `n` characters.
pub open spec fn address_within(a: NetworkAddress, n: nat) -> bool
    decreases a,
{
    match a {
        NetworkAddress::Any(s) => s.within(n),
        NetworkAddress::IPAddr(ip) => ip.1.within(n),
        NetworkAddress::CIDR(ip, mask) => ip.1.within(n) && mask.1.within(n),
        NetworkAddress::IPGroup(g) => address_group_within(g@, n),
        NetworkAddress::NegIP(b) => b.1.within(n) && address_within(b.0, n),
        NetworkAddress::IPVariable(v) => v.1.within(n),
    }
}

/// Every member of an address group, and every span inside it, lies inside a
/// text of `n` characters.
pub open spec fn address_group_within(g: Seq<Spanned<NetworkAddress>>, n: nat) -> bool
    decreases g,
{
    if g.len() == 0 {
        true
    } else {
        address_group_within(g.drop_last(), n) && g.last().1.within(n) && address_within(g.last().0, n)
    }
}

/// Every span of the port tree is valid and lies inside a text of `n` characters.
pub open spec fn port_within(p: NetworkPort, n: nat) -> bool
    decreases p,
{
    match p {
        NetworkPort::Any(s) => s.within(n),
        NetworkPort::Port(x) => x.1.within(n),
        NetworkPort::PortGroup(g) => port_group_within(g@, n),
        NetworkPort::PortRange(from, to) => from.1.within(n) && to.1.within(n),
        NetworkPort::PortOpenRange(x, _) => x.1.within(n),
        NetworkPort::NegPort(b) => b.1.within(n) && port_within(b.0, n),
        NetworkPort::PortVar(v) => v.1.within(n),
    }
}

/// Every member of a port group, and every span inside it, lies inside a
/// text of `n` characters.
pub open spec fn port_group_within(g: Seq<Spanned<NetworkPort>>, n: nat) -> bool
    decreases g,
{
    if g.len() == 0 {
        true
    } else {
        port_group_within(g.drop_last(), n) && g.last().1.within(n) && port_within(g.last().0, n)
    }
}

/// Every span of the header lies inside a text of `n` characters.
pub open spec fn header_within(h: Header, n: nat) -> bool {
    &&& (h.protocol matches Some(p) ==> p.1.within(n))
    &&& (h.source matches Some(a) ==> a.1.within(n) && address_within(a.0, n))
    &&& (h.source_port matches Some(p) ==> p.1.within(n) && port_within(p.0, n))
    &&& (h.direction matches Some(d) ==> d.1.within(n))
    &&& (h.destination matches Some(a) ==> a.1.within(n) && address_within(a.0, n))
    &&& (h.destination_port matches Some(p) ==> p.1.within(n) && port_within(p.0, n))
}

/// The variables of a present address, in pre-order.
pub open spec fn opt_address_vars(a: Option<Spanned<NetworkAddress>>, filter: Option<Seq<char>>) -> Seq<Spanned<String>> {
    match a {
        Some(x) => address_vars(x.0, filter),
        None => seq![],
    }
}

/// The variables of a present port, in pre-order.
pub open spec fn opt_port_vars(p: Option<Spanned<NetworkPort>>, filter: Option<Seq<char>>) -> Seq<Spanned<String>> {
    match p {
        Some(x) => port_vars(x.0, filter),
        None => seq![],
    }
}

/// The address variables of a header: source first, then destination.
pub open spec fn header_address_vars(h: Header, filter: Option<Seq<char>>) -> Seq<Spanned<String>> {
    opt_address_vars(h.source, filter) + opt_address_vars(h.destination, filter)
}

/// The port variables of a header: source port first, then destination port.
pub open spec fn header_port_vars(h: Header, filter: Option<Seq<char>>) -> Seq<Spanned<String>> {
    opt_port_vars(h.source_port, filter) + opt_port_vars(h.destination_port, filter)
}

/// An address whose spans lie inside `n` characters lies inside any wider range.
pub proof fn lemma_address_within_wider(a: NetworkAddress, n: nat, m: nat)
    requires
        address_within(a, n),
        n <= m,
    ensures
        address_within(a, m),
    decreases a,
{
    match a {
        NetworkAddress::IPGroup(g) => {
            assert(decreases_to!(a => g));
            lemma_address_group_within_wider(g@, n, m);
        },
        NetworkAddress::NegIP(b) => lemma_address_within_wider(b.0, n, m),
        _ => {},
    }
}

/// A group whose spans lie inside `n` characters lies inside any wider range.
pub proof fn lemma_address_group_within_wider(g: Seq<Spanned<NetworkAddress>>, n: nat, m: nat)
    requires
        address_group_within(g, n),
        n <= m,
    ensures
        address_group_within(g, m),
    decreases g,
{
    if g.len() > 0 {
        lemma_address_group_within_wider(g.drop_last(), n, m);
        lemma_address_within_wider(g.last().0, n, m);
    }
}

/// A port whose spans lie inside `n` characters lies inside any wider range.
pub proof fn lemma_port_within_wider(p: NetworkPort, n: nat, m: nat)
    requires
        port_within(p, n),
        n <= m,
    ensures
        port_within(p, m),
    decreases p,
{
    match p {
        NetworkPort::PortGroup(g) => {
            assert(decreases_to!(p => g));
            lemma_port_group_within_wider(g@, n, m);
        },
        NetworkPort::NegPort(b) => lemma_port_within_wider(b.0, n, m),
        _ => {},
    }
}

/// A port group whose spans lie inside `n` characters lies inside any wider range.
pub proof fn lemma_port_group_within_wider(g: Seq<Spanned<NetworkPort>>, n: nat, m: nat)
    requires
        port_group_within(g, n),
        n <= m,
    ensures
        port_group_within(g, m),
    decreases g,
{
    if g.len() > 0 {
        lemma_port_group_within_wider(g.drop_last(), n, m);
        lemma_port_within_wider(g.last().0, n, m);
    }
}

/// A header whose spans lie inside `n` characters lies inside any wider range.
pub proof fn lemma_header_within_wider(h: Header, n: nat, m: nat)
    requires
        header_within(h, n),
        n <= m,
    ensures
        header_within(h, m),
{
    if let Some(a) = h.source {
        lemma_address_within_wider(a.0, n, m);
    }
    if let Some(a) = h.destination {
        lemma_address_within_wider(a.0, n, m);
    }
    if let Some(p) = h.source_port {
        lemma_port_within_wider(p.0, n, m);
    }
    if let Some(p) = h.destination_port {
        lemma_port_within_wider(p.0, n, m);
    }
}

impl Header {
    /// Appends the variables of the source and destination addresses that
    /// pass the filter.
    pub fn find_address_variables(&self, name: &Option<String>, variables: &mut Vec<Spanned<String>>)
        ensures
            final(variables)@ == old(variables)@ + header_address_vars(*self, filter_view(*name)),
    {
        if let Some(a) = &self.source {
            a.0.find_variables_with_array(name, variables);
        }
        if let Some(a) = &self.destination {
            a.0.find_variables_with_array(name, variables);
        }
    }

    /// Appends the variables of the source and destination ports that pass
    /// the filter.
    pub fn find_port_variables(&self, name: &Option<String>, variables: &mut Vec<Spanned<String>>)
        ensures
            final(variables)@ == old(variables)@ + header_port_vars(*self, filter_view(*name)),
    {
        if let Some(p) = &self.source_port {
            p.0.find_variables_with_array(name, variables);
        }
        if let Some(p) = &self.destination_port {
            p.0.find_variables_with_array(name, variables);
        }
    }
}

} // verus!
