use vstd::prelude::*;

use crate::action::Action;
use crate::header::{Header, IpAddress, NetworkAddress, NetworkDirection, NetworkPort};
use crate::options::{OptionsVariable, RuleOption};
use crate::rule::Rule;
use crate::span::Spanned;

verus! {

/// Two addresses are the same but for their spans.
pub open spec fn address_same(a: NetworkAddress, b: NetworkAddress) -> bool
    decreases a,
{
    match (a, b) {
        (NetworkAddress::Any(_), NetworkAddress::Any(_)) => true,
        (NetworkAddress::IPAddr(x), NetworkAddress::IPAddr(y)) => x.0 == y.0,
        (NetworkAddress::CIDR(x, m), NetworkAddress::CIDR(y, n)) => x.0 == y.0 && m.0 == n.0,
        (NetworkAddress::IPGroup(g), NetworkAddress::IPGroup(h)) => address_group_same(g@, h@),
        (NetworkAddress::NegIP(x), NetworkAddress::NegIP(y)) => address_same(x.0, y.0),
        (NetworkAddress::IPVariable(x), NetworkAddress::IPVariable(y)) => x.0@ == y.0@,
        _ => false,
    }
}

/// Two address groups have the same members in the same order, but for spans.
pub open spec fn address_group_same(g: Seq<Spanned<NetworkAddress>>, h: Seq<Spanned<NetworkAddress>>) -> bool
    decreases g,
{
    if g.len() != h.len() {
        false
    } else if g.len() == 0 {
        true
    } else {
        address_group_same(g.drop_last(), h.drop_last()) && address_same(g.last().0, h.last().0)
    }
}

/// Two ports are the same but for their spans.
pub open spec fn port_same(a: NetworkPort, b: NetworkPort) -> bool
    decreases a,
{
    match (a, b) {
        (NetworkPort::Any(_), NetworkPort::Any(_)) => true,
        (NetworkPort::Port(x), NetworkPort::Port(y)) => x.0 == y.0,
        (NetworkPort::PortGroup(g), NetworkPort::PortGroup(h)) => port_group_same(g@, h@),
        (NetworkPort::PortRange(x, u), NetworkPort::PortRange(y, v)) => x.0 == y.0 && u.0 == v.0,
        (NetworkPort::PortOpenRange(x, u), NetworkPort::PortOpenRange(y, v)) => x.0 == y.0 && u == v,
        (NetworkPort::NegPort(x), NetworkPort::NegPort(y)) => port_same(x.0, y.0),
        (NetworkPort::PortVar(x), NetworkPort::PortVar(y)) => x.0@ == y.0@,
        _ => false,
    }
}

/// Two port groups have the same members in the same order, but for spans.
pub open spec fn port_group_same(g: Seq<Spanned<NetworkPort>>, h: Seq<Spanned<NetworkPort>>) -> bool
    decreases g,
{
    if g.len() != h.len() {
        false
    } else if g.len() == 0 {
        true
    } else {
        port_group_same(g.drop_last(), h.drop_last()) && port_same(g.last().0, h.last().0)
    }
}

/// Two directions are the same.
pub open spec fn direction_same(a: NetworkDirection, b: NetworkDirection) -> bool {
    match (a, b) {
        (NetworkDirection::SrcToDst, NetworkDirection::SrcToDst) => true,
        (NetworkDirection::Both, NetworkDirection::Both) => true,
        (NetworkDirection::DstToSrc, NetworkDirection::DstToSrc) => true,
        (NetworkDirection::Unrecognized(x), NetworkDirection::Unrecognized(y)) => x@ == y@,
        _ => false,
    }
}

/// Two actions are the same.
pub open spec fn action_same(a: Action, b: Action) -> bool {
    match (a, b) {
        (Action::Other(x), Action::Other(y)) => x@ == y@,
        (Action::Other(_), _) => false,
        (_, Action::Other(_)) => false,
        _ => a == b,
    }
}

/// Two optional parts are both missing, or both present and alike.
pub open spec fn opt_same<T>(a: Option<Spanned<T>>, b: Option<Spanned<T>>, same: spec_fn(T, T) -> bool) -> bool {
    match (a, b) {
        (None, None) => true,
        (Some(x), Some(y)) => same(x.0, y.0),
        _ => false,
    }
}

/// Two headers are the same but for their spans.
pub open spec fn header_same(a: Header, b: Header) -> bool {
    &&& opt_same(a.protocol, b.protocol, |x: String, y: String| x@ == y@)
    &&& opt_same(a.source, b.source, |x, y| address_same(x, y))
    &&& opt_same(a.source_port, b.source_port, |x, y| port_same(x, y))
    &&& opt_same(a.direction, b.direction, |x, y| direction_same(x, y))
    &&& opt_same(a.destination, b.destination, |x, y| address_same(x, y))
    &&& opt_same(a.destination_port, b.destination_port, |x, y| port_same(x, y))
}

/// Two option values are the same but for their spans.
pub open spec fn value_same(a: OptionsVariable, b: OptionsVariable) -> bool {
    match (a, b) {
        (OptionsVariable::String(x), OptionsVariable::String(y)) => x.0@ == y.0@,
        (OptionsVariable::Other(x), OptionsVariable::Other(y)) => x.0@ == y.0@,
        _ => false,
    }
}

/// Two lists of option values are the same, in order, but for spans.
pub open spec fn values_same(a: Seq<Spanned<OptionsVariable>>, b: Seq<Spanned<OptionsVariable>>) -> bool {
    a.len() == b.len() && forall|i: int| 0 <= i < a.len() ==> value_same(#[trigger] a[i].0, b[i].0)
}

/// Two options are the same but for their spans.
pub open spec fn option_same(a: RuleOption, b: RuleOption) -> bool {
    match (a, b) {
        (RuleOption::KeywordPair(k, u), RuleOption::KeywordPair(l, v)) => k.0@ == l.0@ && values_same(u@, v@),
        (RuleOption::Buffer(k), RuleOption::Buffer(l)) => k.0@ == l.0@,
        _ => false,
    }
}

/// Every option of `a` has a same option in `b`.
pub open spec fn options_within(a: Seq<Spanned<RuleOption>>, b: Seq<Spanned<RuleOption>>) -> bool {
    forall|i: int| 0 <= i < a.len() ==> exists|j: int| 0 <= j < b.len() && option_same(#[trigger] a[i].0, #[trigger] b[j].0)
}

/// Two option lists hold the same options, in any order.
pub open spec fn options_same(a: Option<Vec<Spanned<RuleOption>>>, b: Option<Vec<Spanned<RuleOption>>>) -> bool {
    match (a, b) {
        (None, None) => true,
        (Some(x), Some(y)) => options_within(x@, y@) && options_within(y@, x@),
        _ => false,
    }
}

/// Two rules are the same but for their spans and the order of their options.
pub open spec fn rule_same(a: Rule, b: Rule) -> bool {
    &&& opt_same(a.action, b.action, |x, y| action_same(x, y))
    &&& header_same(a.header.0, b.header.0)
    &&& options_same(a.options, b.options)
}

fn string_eq(a: &String, b: &String) -> (r: bool)
    ensures
        r == (a@ == b@),
{
    *a == *b
}

fn ip_eq(a: &IpAddress, b: &IpAddress) -> (r: bool)
    ensures
        r == (*a == *b),
{
    match (a, b) {
        (IpAddress::V4(a1, a2, a3, a4), IpAddress::V4(b1, b2, b3, b4)) => *a1 == *b1 && *a2 == *b2 && *a3 == *b3 && *a4 == *b4,
        (IpAddress::V6(x), IpAddress::V6(y)) => *x == *y,
        _ => false,
    }
}

/// Whether two addresses are the same but for their spans.
pub fn address_eq(a: &NetworkAddress, b: &NetworkAddress) -> (r: bool)
    ensures
        r == address_same(*a, *b),
    decreases a,
{
    match (a, b) {
        (NetworkAddress::Any(_), NetworkAddress::Any(_)) => true,
        (NetworkAddress::IPAddr(x), NetworkAddress::IPAddr(y)) => ip_eq(&x.0, &y.0),
        (NetworkAddress::CIDR(x, m), NetworkAddress::CIDR(y, n)) => ip_eq(&x.0, &y.0) && m.0 == n.0,
        (NetworkAddress::IPGroup(g), NetworkAddress::IPGroup(h)) => {
            if g.len() != h.len() {
                assert(!address_group_same(g@, h@));
                return false;
            }
            let mut i: usize = 0;
            while i < g.len()
                invariant
                    *a == NetworkAddress::IPGroup(*g),
                    *b == NetworkAddress::IPGroup(*h),
                    g@.len() == h@.len(),
                    i <= g@.len(),
                    address_group_same(g@.take(i as int), h@.take(i as int)),
                decreases g@.len() - i,
            {
                assert(g@.take(i as int + 1).drop_last() == g@.take(i as int));
                assert(h@.take(i as int + 1).drop_last() == h@.take(i as int));
                proof {
                    assert(decreases_to!(*a => a->IPGroup_0));
                    assert(decreases_to!(*g => g[i as int]));
                    assert(decreases_to!(g[i as int] => g[i as int].0));
                }
                if !address_eq(&g[i].0, &h[i].0) {
                    proof {
                        if address_group_same(g@, h@) {
                            lemma_address_group_prefix(g@, h@, i as int + 1);
                            assert(g@.take(i as int + 1).last() == g@[i as int]);
                            assert(h@.take(i as int + 1).last() == h@[i as int]);
                        }
                    }
                    return false;
                }
                i = i + 1;
            }
            assert(g@.take(g@.len() as int) == g@);
            assert(h@.take(h@.len() as int) == h@);
            true
        },
        (NetworkAddress::NegIP(x), NetworkAddress::NegIP(y)) => address_eq(&x.0, &y.0),
        (NetworkAddress::IPVariable(x), NetworkAddress::IPVariable(y)) => string_eq(&x.0, &y.0),
        _ => false,
    }
}

/// Same groups have same prefixes.
proof fn lemma_address_group_prefix(g: Seq<Spanned<NetworkAddress>>, h: Seq<Spanned<NetworkAddress>>, k: int)
    requires
        0 <= k <= g.len(),
        g.len() == h.len(),
        address_group_same(g, h),
    ensures
        address_group_same(g.take(k), h.take(k)),
    decreases g.len() - k,
{
    if k < g.len() {
        lemma_address_group_prefix(g, h, k + 1);
        assert(g.take(k + 1).drop_last() == g.take(k));
        assert(h.take(k + 1).drop_last() == h.take(k));
    } else {
        assert(g.take(k) == g);
        assert(h.take(k) == h);
    }
}

/// Same port groups have same prefixes.
proof fn lemma_port_group_prefix(g: Seq<Spanned<NetworkPort>>, h: Seq<Spanned<NetworkPort>>, k: int)
    requires
        0 <= k <= g.len(),
        g.len() == h.len(),
        port_group_same(g, h),
    ensures
        port_group_same(g.take(k), h.take(k)),
    decreases g.len() - k,
{
    if k < g.len() {
        lemma_port_group_prefix(g, h, k + 1);
        assert(g.take(k + 1).drop_last() == g.take(k));
        assert(h.take(k + 1).drop_last() == h.take(k));
    } else {
        assert(g.take(k) == g);
        assert(h.take(k) == h);
    }
}

/// Whether two ports are the same but for their spans.
pub fn port_eq(a: &NetworkPort, b: &NetworkPort) -> (r: bool)
    ensures
        r == port_same(*a, *b),
    decreases a,
{
    match (a, b) {
        (NetworkPort::Any(_), NetworkPort::Any(_)) => true,
        (NetworkPort::Port(x), NetworkPort::Port(y)) => x.0 == y.0,
        (NetworkPort::PortGroup(g), NetworkPort::PortGroup(h)) => {
            if g.len() != h.len() {
                assert(!port_group_same(g@, h@));
                return false;
            }
            let mut i: usize = 0;
            while i < g.len()
                invariant
                    *a == NetworkPort::PortGroup(*g),
                    *b == NetworkPort::PortGroup(*h),
                    g@.len() == h@.len(),
                    i <= g@.len(),
                    port_group_same(g@.take(i as int), h@.take(i as int)),
                decreases g@.len() - i,
            {
                assert(g@.take(i as int + 1).drop_last() == g@.take(i as int));
                assert(h@.take(i as int + 1).drop_last() == h@.take(i as int));
                proof {
                    assert(decreases_to!(*a => a->PortGroup_0));
                    assert(decreases_to!(*g => g[i as int]));
                    assert(decreases_to!(g[i as int] => g[i as int].0));
                }
                if !port_eq(&g[i].0, &h[i].0) {
                    proof {
                        if port_group_same(g@, h@) {
                            lemma_port_group_prefix(g@, h@, i as int + 1);
                            assert(g@.take(i as int + 1).last() == g@[i as int]);
                            assert(h@.take(i as int + 1).last() == h@[i as int]);
                        }
                    }
                    return false;
                }
                i = i + 1;
            }
            assert(g@.take(g@.len() as int) == g@);
            assert(h@.take(h@.len() as int) == h@);
            true
        },
        (NetworkPort::PortRange(x, u), NetworkPort::PortRange(y, v)) => x.0 == y.0 && u.0 == v.0,
        (NetworkPort::PortOpenRange(x, u), NetworkPort::PortOpenRange(y, v)) => x.0 == y.0 && *u == *v,
        (NetworkPort::NegPort(x), NetworkPort::NegPort(y)) => port_eq(&x.0, &y.0),
        (NetworkPort::PortVar(x), NetworkPort::PortVar(y)) => string_eq(&x.0, &y.0),
        _ => false,
    }
}

/// Whether two directions are the same.
fn direction_eq(a: &NetworkDirection, b: &NetworkDirection) -> (r: bool)
    ensures
        r == direction_same(*a, *b),
{
    match (a, b) {
        (NetworkDirection::SrcToDst, NetworkDirection::SrcToDst) => true,
        (NetworkDirection::Both, NetworkDirection::Both) => true,
        (NetworkDirection::DstToSrc, NetworkDirection::DstToSrc) => true,
        (NetworkDirection::Unrecognized(x), NetworkDirection::Unrecognized(y)) => string_eq(x, y),
        _ => false,
    }
}

fn action_eq(a: &Action, b: &Action) -> (r: bool)
    ensures
        r == action_same(*a, *b),
{
    match (a, b) {
        (Action::Alert, Action::Alert) => true,
        (Action::Pass, Action::Pass) => true,
        (Action::Drop, Action::Drop) => true,
        (Action::Reject, Action::Reject) => true,
        (Action::Rejectsrc, Action::Rejectsrc) => true,
        (Action::Rejectdst, Action::Rejectdst) => true,
        (Action::Rejectboth, Action::Rejectboth) => true,
        (Action::Other(x), Action::Other(y)) => string_eq(x, y),
        _ => false,
    }
}

fn opt_address_eq(a: &Option<Spanned<NetworkAddress>>, b: &Option<Spanned<NetworkAddress>>) -> (r: bool)
    ensures
        r == opt_same(*a, *b, |x, y| address_same(x, y)),
{
    match (a, b) {
        (None, None) => true,
        (Some(x), Some(y)) => address_eq(&x.0, &y.0),
        _ => false,
    }
}

fn opt_port_eq(a: &Option<Spanned<NetworkPort>>, b: &Option<Spanned<NetworkPort>>) -> (r: bool)
    ensures
        r == opt_same(*a, *b, |x, y| port_same(x, y)),
{
    match (a, b) {
        (None, None) => true,
        (Some(x), Some(y)) => port_eq(&x.0, &y.0),
        _ => false,
    }
}

/// Whether two headers are the same but for their spans.
pub fn header_eq(a: &Header, b: &Header) -> (r: bool)
    ensures
        r == header_same(*a, *b),
{
    let protocol = match (&a.protocol, &b.protocol) {
        (None, None) => true,
        (Some(x), Some(y)) => string_eq(&x.0, &y.0),
        _ => false,
    };
    let direction = match (&a.direction, &b.direction) {
        (None, None) => true,
        (Some(x), Some(y)) => direction_eq(&x.0, &y.0),
        _ => false,
    };
    protocol && opt_address_eq(&a.source, &b.source) && opt_port_eq(&a.source_port, &b.source_port)
        && direction && opt_address_eq(&a.destination, &b.destination) && opt_port_eq(
        &a.destination_port,
        &b.destination_port,
    )
}

fn value_eq(a: &OptionsVariable, b: &OptionsVariable) -> (r: bool)
    ensures
        r == value_same(*a, *b),
{
    match (a, b) {
        (OptionsVariable::String(x), OptionsVariable::String(y)) => string_eq(&x.0, &y.0),
        (OptionsVariable::Other(x), OptionsVariable::Other(y)) => string_eq(&x.0, &y.0),
        _ => false,
    }
}

/// Whether two options are the same but for their spans.
pub fn option_eq(a: &RuleOption, b: &RuleOption) -> (r: bool)
    ensures
        r == option_same(*a, *b),
{
    match (a, b) {
        (RuleOption::KeywordPair(k, u), RuleOption::KeywordPair(l, v)) => {
            if !string_eq(&k.0, &l.0) || u.len() != v.len() {
                assert(!option_same(*a, *b));
                return false;
            }
            let mut i: usize = 0;
            while i < u.len()
                invariant
                    *a == RuleOption::KeywordPair(*k, *u),
                    *b == RuleOption::KeywordPair(*l, *v),
                    k.0@ == l.0@,
                    u@.len() == v@.len(),
                    i <= u@.len(),
                    forall|j: int| 0 <= j < i ==> value_same(#[trigger] u@[j].0, v@[j].0),
                decreases u@.len() - i,
            {
                if !value_eq(&u[i].0, &v[i].0) {
                    assert(!values_same(u@, v@));
                    return false;
                }
                i = i + 1;
            }
            true
        },
        (RuleOption::Buffer(k), RuleOption::Buffer(l)) => string_eq(&k.0, &l.0),
        _ => false,
    }
}

/// Whether every option of `a` has a same option in `b`.
fn all_found(a: &Vec<Spanned<RuleOption>>, b: &Vec<Spanned<RuleOption>>) -> (r: bool)
    ensures
        r == options_within(a@, b@),
{
    let mut i: usize = 0;
    while i < a.len()
        invariant
            i <= a@.len(),
            options_within(a@.take(i as int), b@),
        decreases a@.len() - i,
    {
        let mut j: usize = 0;
        let mut found = false;
        let mut at: usize = 0;
        while j < b.len() && !found
            invariant
                j <= b@.len(),
                i < a@.len(),
                found ==> at < b@.len() && option_same(a@[i as int].0, b@[at as int].0),
                !found ==> forall|t: int| 0 <= t < j ==> !option_same(a@[i as int].0, #[trigger] b@[t].0),
            decreases b@.len() - j,
        {
            if option_eq(&a[i].0, &b[j].0) {
                found = true;
                at = j;
            }
            j = j + 1;
        }
        if !found {
            assert(!options_within(a@, b@)) by {
                if options_within(a@, b@) {
                    let t = choose|t: int| 0 <= t < b@.len() && option_same(#[trigger] a@[i as int].0, #[trigger] b@[t].0);
                }
            }
            return false;
        }
        assert(options_within(a@.take(i as int + 1), b@)) by {
            assert forall|k: int| 0 <= k < i + 1 implies exists|t: int| 0 <= t < b@.len() && option_same(#[trigger] a@.take(i as int + 1)[k].0, #[trigger] b@[t].0) by {
                if k < i {
                    assert(a@.take(i as int + 1)[k] == a@.take(i as int)[k]);
                } else {
                    assert(a@.take(i as int + 1)[k] == a@[i as int]);
                    assert(option_same(a@.take(i as int + 1)[k].0, b@[at as int].0));
                }
            }
        }
        i = i + 1;
    }
    assert(a@.take(a@.len() as int) == a@);
    true
}

impl PartialEq for NetworkAddress {
    /// Addresses are equal when they are the same but for their spans.
    fn eq(&self, other: &NetworkAddress) -> (r: bool) {
        address_eq(self, other)
    }
}

impl vstd::std_specs::cmp::PartialEqSpecImpl for NetworkAddress {
    open spec fn obeys_eq_spec() -> bool {
        true
    }

    open spec fn eq_spec(&self, other: &NetworkAddress) -> bool {
        address_same(*self, *other)
    }
}

impl PartialEq for NetworkPort {
    /// Ports are equal when they are the same but for their spans.
    fn eq(&self, other: &NetworkPort) -> (r: bool) {
        port_eq(self, other)
    }
}

impl vstd::std_specs::cmp::PartialEqSpecImpl for NetworkPort {
    open spec fn obeys_eq_spec() -> bool {
        true
    }

    open spec fn eq_spec(&self, other: &NetworkPort) -> bool {
        port_same(*self, *other)
    }
}

impl PartialEq for Header {
    /// Headers are equal when they are the same but for their spans.
    fn eq(&self, other: &Header) -> (r: bool) {
        header_eq(self, other)
    }
}

impl vstd::std_specs::cmp::PartialEqSpecImpl for Header {
    open spec fn obeys_eq_spec() -> bool {
        true
    }

    open spec fn eq_spec(&self, other: &Header) -> bool {
        header_same(*self, *other)
    }
}

impl PartialEq for RuleOption {
    /// Options are equal when they are the same but for their spans.
    fn eq(&self, other: &RuleOption) -> (r: bool) {
        option_eq(self, other)
    }
}

impl vstd::std_specs::cmp::PartialEqSpecImpl for RuleOption {
    open spec fn obeys_eq_spec() -> bool {
        true
    }

    open spec fn eq_spec(&self, other: &RuleOption) -> bool {
        option_same(*self, *other)
    }
}

impl PartialEq for Rule {
    /// Rules are equal when they are the same but for their spans and the
    /// order of their options.
    fn eq(&self, other: &Rule) -> (r: bool) {
        let action = match (&self.action, &other.action) {
            (None, None) => true,
            (Some(x), Some(y)) => action_eq(&x.0, &y.0),
            _ => false,
        };
        let options = match (&self.options, &other.options) {
            (None, None) => true,
            (Some(x), Some(y)) => all_found(x, y) && all_found(y, x),
            _ => false,
        };
        action && header_eq(&self.header.0, &other.header.0) && options
    }
}

impl vstd::std_specs::cmp::PartialEqSpecImpl for Rule {
    open spec fn obeys_eq_spec() -> bool {
        true
    }

    open spec fn eq_spec(&self, other: &Rule) -> bool {
        rule_same(*self, *other)
    }
}

} // verus!
