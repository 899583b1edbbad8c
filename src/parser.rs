use vstd::prelude::*;

use crate::action::Action;
use crate::header::{
    address_group_nested, address_group_within, address_nested, address_within, header_nested, header_within,
    header_ordered,
    inside, lemma_address_group_nested_wider, lemma_port_group_nested_wider, port_group_nested, port_nested,
    port_group_within,
    port_within, Header, IpAddress, NetworkAddress, NetworkDirection, NetworkPort,
};
use crate::net::parse_ipv6;
use crate::options::{escape, needs_escape, OptionsVariable, RuleOption};
use crate::rule::{option_entry_within, option_within, rule_within, value_within, Rule};
use crate::span::{Span, Spanned};
use crate::text::{digits_value, push_char, string_of};
use crate::grammar::{
    addr_core_s, addr_group_s, addr_group_v, addr_items_s, addr_s, addr_v, any_s, at, bounded_s, cidr_s,
    digit_run, grows, has_diag, hex_run, lone_colon, mask_too_big, octet_too_big, too_big, sp, neg_port_s, port_core_s, port_group_s, port_group_v, port_items_s,
    port_num_s, port_s, port_v, range_s, PortV, dir_run, dir_s, dir_v, header_s, header_v, opt_addr_s,
    opt_port_s, HeaderV, keyword_run, one_value_s, opt_items_s, option_list_v, option_s, option_v,
    options_s, other_s, rule_s, rule_v, string_s, trim_back, value_list_v, value_v, values_s, OptionV, ValueV, ident_run, ident_s, int_s, ip_s, neg_addr_s, var_s, ws_end, AddrV, INT_CAP,
};

verus! {

broadcast use {
    crate::grammar::lemma_grows_refl,
    crate::grammar::lemma_grows_trans,
    crate::grammar::lemma_has_diag_grows,
    crate::grammar::lemma_has_diag_earlier,
};

/// A message about a part of a line that could not be read, with its span.
#[derive(Debug, PartialEq, Eq)]
pub struct Diagnostic {
    pub message: String,
    pub span: Span,
}

/// Every diagnostic lies inside a text of `n` characters.
pub open spec fn diagnostics_within(ds: Seq<Diagnostic>, n: nat) -> bool {
    forall|i: int| 0 <= i < ds.len() ==> (#[trigger] ds[i]).span.within(n)
}

/// White space as std's `char::is_whitespace` knows it.
pub open spec fn is_ws(c: char) -> bool {
    ('\u{9}' <= c && c <= '\u{d}') || c == ' ' || c == '\u{85}' || c == '\u{a0}' || c == '\u{1680}'
        || ('\u{2000}' <= c && c <= '\u{200a}') || c == '\u{2028}' || c == '\u{2029}' || c
        == '\u{202f}' || c == '\u{205f}' || c == '\u{3000}'
}

pub fn is_whitespace(c: char) -> (r: bool)
    ensures
        r == is_ws(c),
{
    ('\u{9}' <= c && c <= '\u{d}') || c == ' ' || c == '\u{85}' || c == '\u{a0}' || c == '\u{1680}'
        || ('\u{2000}' <= c && c <= '\u{200a}') || c == '\u{2028}' || c == '\u{2029}' || c
        == '\u{202f}' || c == '\u{205f}' || c == '\u{3000}'
}

/// Whether `cs[i]` exists and is `c`.
pub(crate) fn peek(cs: &Vec<char>, i: usize, c: char) -> (r: bool)
    ensures
        r == (i < cs@.len() && cs@[i as int] == c),
        r == at(cs@, i as int, c),
        cs@.len() <= usize::MAX,
{
    i < cs.len() && cs[i] == c
}

/// The first position at or after `pos` that holds no white space.
pub(crate) fn skip_ws(cs: &Vec<char>, pos: usize) -> (r: usize)
    requires
        pos <= cs@.len(),
    ensures
        pos <= r <= cs@.len(),
        r as int == ws_end(cs@, pos as int),
{
    proof {
        lemma_ws_end(cs@, pos as int);
    }
    let mut i = pos;
    while i < cs.len() && is_whitespace(cs[i])
        invariant
            pos <= i <= cs@.len(),
            ws_end(cs@, i as int) == ws_end(cs@, pos as int),
        decreases cs@.len() - i,
    {
        i = i + 1;
    }
    i
}

/// The end of the identifier that starts at `pos`: a letter or `_`, then
/// letters, digits and `_`.
pub(crate) fn ident_end(cs: &Vec<char>, pos: usize) -> (r: Option<usize>)
    requires
        pos <= cs@.len(),
    ensures
        r matches Some(e) ==> pos < e <= cs@.len() && ident_s(cs@, pos as int) == Some(e as int),
        r is None ==> ident_s(cs@, pos as int) is None,
{
    if pos < cs.len() {
        let c = cs[pos];
        if ('a' <= c && c <= 'z') || ('A' <= c && c <= 'Z') || c == '_' {
            let mut i = pos + 1;
            while i < cs.len() && (('a' <= cs[i] && cs[i] <= 'z') || ('A' <= cs[i] && cs[i] <= 'Z')
                || cs[i] == '_' || ('0' <= cs[i] && cs[i] <= '9'))
                invariant
                    pos < i <= cs@.len(),
                    ident_run(cs@, i as int) == ident_run(cs@, pos + 1),
                decreases cs@.len() - i,
            {
                i = i + 1;
            }
            return Some(i);
        }
    }
    None
}

/// A decimal integer at `pos` (see `int_s`): its value, capped, and its end.
fn int_at(cs: &Vec<char>, pos: usize) -> (r: Option<(u64, usize)>)
    requires
        pos <= cs@.len(),
    ensures
        r matches Some((v, e)) ==> pos < e <= cs@.len() && v <= INT_CAP && int_s(cs@, pos as int)
            == Some((v as nat, e as int)),
        r is None ==> int_s(cs@, pos as int) is None,
{
    if pos < cs.len() && '0' <= cs[pos] && cs[pos] <= '9' {
        if cs[pos] == '0' {
            return Some((0, pos + 1));
        }
        let mut v: u64 = 0;
        let mut i = pos;
        while i < cs.len() && '0' <= cs[i] && cs[i] <= '9'
            invariant
                pos <= i <= cs@.len(),
                v <= INT_CAP,
                digit_run(cs@, i as int) == digit_run(cs@, pos as int),
                v as nat == (if digits_value(cs@.subrange(pos as int, i as int)) < INT_CAP {
                    digits_value(cs@.subrange(pos as int, i as int))
                } else {
                    INT_CAP as nat
                }),
            decreases cs@.len() - i,
        {
            let d = (cs[i] as u32 - '0' as u32) as u64;
            let ghost old_val = digits_value(cs@.subrange(pos as int, i as int));
            assert(cs@.subrange(pos as int, i + 1).drop_last() == cs@.subrange(pos as int, i as int));
            assert(cs@.subrange(pos as int, i + 1).last() == cs@[i as int]);
            let ghost new_val = digits_value(cs@.subrange(pos as int, i + 1));
            assert(new_val == old_val * 10 + d);
            if v <= INT_CAP / 10 {
                v = v * 10 + d;
                if v > INT_CAP {
                    v = INT_CAP;
                }
            } else {
                v = INT_CAP;
                assert(new_val >= INT_CAP) by (nonlinear_arith)
                    requires new_val == old_val * 10 + d, old_val >= 100001;
            }
            proof {
                if old_val >= INT_CAP {
                    assert(new_val >= INT_CAP) by (nonlinear_arith)
                        requires new_val == old_val * 10 + d, old_val >= INT_CAP;
                }
            }
            i = i + 1;
        }
        return Some((v, i));
    }
    None
}

fn push_diag(diags: &mut Vec<Diagnostic>, msg: &str, span: Span, Ghost(n): Ghost<nat>)
    requires
        diagnostics_within(old(diags)@, n),
        span.within(n),
    ensures
        diagnostics_within(final(diags)@, n),
        final(diags)@.len() == old(diags)@.len() + 1,
        final(diags)@.last().span == span,
        final(diags)@.drop_last() == old(diags)@,
{
    diags.push(Diagnostic { message: String::from_str(msg), span });
    assert(diags@.drop_last() == old(diags)@);
    assert(diagnostics_within(diags@, n)) by {
        assert forall|i: int| 0 <= i < diags@.len() implies (#[trigger] diags@[i]).span.within(n) by {
            if i < diags@.len() - 1 {
                assert(diags@[i] == old(diags)@[i]);
            }
        }
    }
}

/// The white space skipped from `p` is white space, and what stops it is not.
pub proof fn lemma_ws_end(cs: Seq<char>, p: int)
    requires
        0 <= p <= cs.len(),
    ensures
        p <= ws_end(cs, p) <= cs.len(),
        forall|i: int| p <= i < ws_end(cs, p) ==> is_ws(#[trigger] cs[i]),
        ws_end(cs, p) < cs.len() ==> !is_ws(cs[ws_end(cs, p)]),
    decreases cs.len() - p,
{
    if p < cs.len() && is_ws(cs[p]) {
        lemma_ws_end(cs, p + 1);
    }
}

/// An integer of at most `max` at `pos` (see `bounded_s`). A literal above
/// `max` is reported, with `msg`, on its own span.
fn bounded_at(cs: &Vec<char>, pos: usize, max: u64, msg: &str, diags: &mut Vec<Diagnostic>) -> (r: Option<(u64, usize)>)
    requires
        pos <= cs@.len(),
        max < INT_CAP,
        diagnostics_within(old(diags)@, cs@.len() as nat),
    ensures
        diagnostics_within(final(diags)@, cs@.len() as nat),
        grows(old(diags)@, final(diags)@),
        r matches Some((v, e)) ==> pos < e <= cs@.len() && v <= max && bounded_s(cs@, pos as int, max as nat)
            == Some((v as nat, e as int)),
        r is None ==> bounded_s(cs@, pos as int, max as nat) is None,
        int_s(cs@, pos as int) matches Some((v, e)) ==> (v > max ==> final(diags)@.len() == old(diags)@.len() + 1
            && final(diags)@.last().span == (Span { start: pos, end: e as usize })),
        (int_s(cs@, pos as int) is None || (int_s(cs@, pos as int)->0).0 <= max) ==> final(diags)@ == old(diags)@,
        int_s(cs@, pos as int) matches Some((v, e)) ==> (v > max ==> has_diag(old(diags)@, final(diags)@, Span { start: pos, end: e as usize })),
{
    match int_at(cs, pos) {
        Some((v, e)) => {
            if v > max {
                push_diag(diags, msg, Span { start: pos, end: e }, Ghost(cs@.len() as nat));
                assert(diags@.take(old(diags)@.len() as int) == diags@.drop_last());
                assert(diags@[diags@.len() - 1].span == Span { start: pos, end: e });
                return None;
            }
            assert(diags@.take(diags@.len() as int) == diags@);
            Some((v, e))
        },
        None => {
            assert(diags@.take(diags@.len() as int) == diags@);
            None
        },
    }
}

/// A `$` followed by an identifier; the span covers the `$`.
fn variable_at(cs: &Vec<char>, pos: usize) -> (r: Option<(Spanned<String>, usize)>)
    requires
        pos <= cs@.len(),
    ensures
        r matches Some((v, e)) ==> pos < e <= cs@.len() && v.1 == (Span { start: pos, end: e })
            && var_s(cs@, pos as int) == Some((v.0@, e as int)),
        r is None ==> var_s(cs@, pos as int) is None,
{
    if peek(cs, pos, '$') {
        if let Some(e) = ident_end(cs, pos + 1) {
            let name = string_of(cs, pos + 1, e);
            return Some(((name, Span { start: pos, end: e }), e));
        }
    }
    None
}

/// The values of an address read, as plain values.
pub open spec fn addr_result(r: Option<(Spanned<NetworkAddress>, usize)>) -> Option<((AddrV, Span), int)> {
    match r {
        Some((a, e)) => Some(((addr_v(a.0), a.1), e as int)),
        None => None,
    }
}

/// An IP address at `pos` (see `ip_s`); an octet above 255 is reported on
/// its own span.
fn ip_at(cs: &Vec<char>, pos: usize, diags: &mut Vec<Diagnostic>) -> (r: Option<(Spanned<IpAddress>, usize)>)
    requires
        pos <= cs@.len(),
        diagnostics_within(old(diags)@, cs@.len() as nat),
    ensures
        diagnostics_within(final(diags)@, cs@.len() as nat),
        grows(old(diags)@, final(diags)@),
        r matches Some((ip, e)) ==> pos < e <= cs@.len() && ip.1 == (Span { start: pos, end: e })
            && ip_s(cs@, pos as int) == Some((ip.0, e as int)),
        r is None ==> ip_s(cs@, pos as int) is None,
        octet_too_big(cs@, pos as int) matches Some(e) ==> has_diag(old(diags)@, final(diags)@, sp(pos as int, e)),
{
    let mut e6 = pos;
    while e6 < cs.len() && (('0' <= cs[e6] && cs[e6] <= '9') || ('a' <= cs[e6] && cs[e6] <= 'f')
        || ('A' <= cs[e6] && cs[e6] <= 'F') || cs[e6] == ':')
        invariant
            pos <= e6 <= cs@.len(),
            hex_run(cs@, e6 as int) == hex_run(cs@, pos as int),
        decreases cs@.len() - e6,
    {
        e6 = e6 + 1;
    }
    assert(hex_run(cs@, pos as int) == e6);
    if e6 > pos {
        let text = string_of(cs, pos, e6);
        if let Some(v) = parse_ipv6(text.as_str()) {
            assert(diags@.take(diags@.len() as int) == diags@);
            return Some(((IpAddress::V6(v), Span { start: pos, end: e6 }), e6));
        }
    }
    let ghost d0 = diags@;
    let msg = "Every digit of the IP address should be less than 255";
    let (a, e1) = match bounded_at(cs, pos, 255, msg, diags) {
        Some(x) => x,
        None => {
            return None;
        },
    };
    if !peek(cs, e1, '.') {
        return None;
    }
    let ghost d1 = diags@;
    let (b, e2) = match bounded_at(cs, e1 + 1, 255, msg, diags) {
        Some(x) => x,
        None => {
            assert(diags@.take(d0.len() as int) == d0) by {
                assert(diags@.take(d1.len() as int).take(d0.len() as int) == diags@.take(d0.len() as int));
            }
            return None;
        },
    };
    if !peek(cs, e2, '.') {
        return None;
    }
    let ghost d2 = diags@;
    let (c, e3) = match bounded_at(cs, e2 + 1, 255, msg, diags) {
        Some(x) => x,
        None => {
            assert(diags@.take(d0.len() as int) == d0) by {
                assert(diags@.take(d2.len() as int).take(d0.len() as int) == diags@.take(d0.len() as int));
                assert(d2.take(d1.len() as int).take(d0.len() as int) == d2.take(d0.len() as int));
            }
            return None;
        },
    };
    if !peek(cs, e3, '.') {
        return None;
    }
    let ghost d3 = diags@;
    let (d, e4) = match bounded_at(cs, e3 + 1, 255, msg, diags) {
        Some(x) => x,
        None => {
            assert(diags@.take(d0.len() as int) == d0) by {
                assert(diags@.take(d3.len() as int).take(d0.len() as int) == diags@.take(d0.len() as int));
                assert(d3.take(d2.len() as int).take(d0.len() as int) == d3.take(d0.len() as int));
                assert(d2.take(d1.len() as int).take(d0.len() as int) == d2.take(d0.len() as int));
            }
            return None;
        },
    };
    proof {
        assert(diags@.take(d3.len() as int).take(d0.len() as int) == diags@.take(d0.len() as int));
        assert(d3.take(d2.len() as int).take(d0.len() as int) == d3.take(d0.len() as int));
        assert(d2.take(d1.len() as int).take(d0.len() as int) == d2.take(d0.len() as int));
    }
    Some(((IpAddress::V4(a as u8, b as u8, c as u8, d as u8), Span { start: pos, end: e4 }), e4))
}

/// Whether the identifier `any` stands at `pos`; returns its end.
fn any_at(cs: &Vec<char>, pos: usize) -> (r: Option<usize>)
    requires
        pos <= cs@.len(),
    ensures
        r matches Some(e) ==> pos < e <= cs@.len() && any_s(cs@, pos as int) == Some(e as int),
        r is None ==> any_s(cs@, pos as int) is None,
{
    if let Some(e) = ident_end(cs, pos) {
        if e - pos == 3 && cs[pos] == 'a' && cs[pos + 1] == 'n' && cs[pos + 2] == 'y' {
            assert(cs@.subrange(pos as int, e as int) =~= seq!['a', 'n', 'y']);
            return Some(e);
        }
        assert(e - pos == 3 ==> cs@.subrange(pos as int, e as int)[0] == cs@[pos as int]
            && cs@.subrange(pos as int, e as int)[1] == cs@[pos + 1] && cs@.subrange(pos as int, e as int)[2] == cs@[pos + 2]);
    }
    None
}

/// A CIDR range at `pos` (see `cidr_s`); a mask above 255 is reported on its
/// own span.
fn cidr_at(cs: &Vec<char>, pos: usize, diags: &mut Vec<Diagnostic>) -> (r: Option<(Spanned<NetworkAddress>, usize)>)
    requires
        pos <= cs@.len(),
        diagnostics_within(old(diags)@, cs@.len() as nat),
    ensures
        diagnostics_within(final(diags)@, cs@.len() as nat),
        grows(old(diags)@, final(diags)@),
        r matches Some((a, e)) ==> pos < e <= cs@.len() && a.1 == (Span { start: pos, end: e })
            && address_within(a.0, cs@.len() as nat) && address_nested(a.0, a.1),
        addr_result(r) == cidr_s(cs@, pos as int),
        octet_too_big(cs@, pos as int) matches Some(e) ==> has_diag(old(diags)@, final(diags)@, sp(pos as int, e)),
        mask_too_big(cs@, pos as int) matches Some(m) ==> has_diag(old(diags)@, final(diags)@, m),
{
    let ghost d0 = diags@;
    if let Some((ip, e)) = ip_at(cs, pos, diags) {
        if peek(cs, e, '/') {
            let ghost d1 = diags@;
            let r = bounded_at(cs, e + 1, 255, "The mask of a CIDR range should be at most 255", diags);
            proof {
                assert(diags@.take(d1.len() as int).take(d0.len() as int) == diags@.take(d0.len() as int));
            }
            if let Some((m, me)) = r {
                let mask: Spanned<u8> = (m as u8, Span { start: e + 1, end: me });
                return Some(((NetworkAddress::CIDR(ip, mask), Span { start: pos, end: me }), me));
            }
        }
    }
    None
}

/// The members of an address group after its `[` (see `addr_items_s`),
/// put before those of `o`.
pub open spec fn prepend_addrs(acc: Seq<(AddrV, Span)>, o: Option<(Seq<(AddrV, Span)>, int)>) -> Option<(Seq<(AddrV, Span)>, int)> {
    match o {
        Some((s, e)) => Some((acc + s, e)),
        None => None,
    }
}

/// An address group at `pos` (see `addr_group_s`).
fn address_group_at(cs: &Vec<char>, pos: usize, diags: &mut Vec<Diagnostic>) -> (r: Option<(Spanned<NetworkAddress>, usize)>)
    requires
        pos <= cs@.len(),
        diagnostics_within(old(diags)@, cs@.len() as nat),
    ensures
        diagnostics_within(final(diags)@, cs@.len() as nat),
        grows(old(diags)@, final(diags)@),
        r matches Some((a, e)) ==> pos < e <= cs@.len() && a.1 == (Span { start: pos, end: e })
            && address_within(a.0, cs@.len() as nat) && address_nested(a.0, a.1),
        addr_result(r) == addr_group_s(cs@, pos as int),
    decreases cs@.len() - pos, 0nat,
{
    if !peek(cs, pos, '[') {
        assert(diags@.take(diags@.len() as int) == diags@);
        return None;
    }
    let ghost n = cs@.len() as nat;
    let ghost d0 = diags@;
    let mut group: Vec<Spanned<NetworkAddress>> = Vec::new();
    let mut p = pos + 1;
    proof {
        if let Some((s, e)) = addr_items_s(cs@, pos + 1, false) {
            assert(Seq::<(AddrV, Span)>::empty() + s =~= s);
        }
    }
    loop
        invariant
            pos < p <= cs@.len(),
            n == cs@.len(),
            address_group_within(group@, n),
            address_group_nested(group@, Span { start: pos, end: p }),
            diagnostics_within(diags@, n),
            grows(old(diags)@, diags@),
            at(cs@, pos as int, '['),
            addr_items_s(cs@, pos + 1, false) == prepend_addrs(addr_group_v(group@), addr_items_s(cs@, p as int, group@.len() > 0)),
        decreases cs@.len() - p,
    {
        if peek(cs, p, ']') && group.len() > 0 {
            proof {
                lemma_address_group_nested_wider(group@, Span { start: pos, end: p }, Span { start: pos, end: (p + 1) as usize });
            }
            assert(addr_items_s(cs@, p as int, true) == Some((Seq::<(AddrV, Span)>::empty(), p + 1)));
            assert(addr_group_v(group@) + Seq::<(AddrV, Span)>::empty() =~= addr_group_v(group@));
            assert(addr_items_s(cs@, pos + 1, false) == Some((addr_group_v(group@), p + 1)));
            let ghost gv = addr_group_v(group@);
            let ghost want = Some(((AddrV::Group(gv), Span { start: pos, end: (p + 1) as usize }), p + 1));
            assert(addr_group_s(cs@, pos as int) == want);
            let r = ((NetworkAddress::IPGroup(group), Span { start: pos, end: p + 1 }), p + 1);
            assert(addr_v(r.0.0) == AddrV::Group(gv));
            return Some(r);
        }
        let ghost dp = diags@;
        let r = address_at(cs, p, diags);
        match r {
            Some((a, e)) => {
                let ghost g0 = group@;
                let ghost av = (addr_v(a.0), a.1);
                group.push(a);
                assert(group@.drop_last() == g0);
                assert(addr_group_v(group@) == addr_group_v(g0).push(av));
                proof {
                    lemma_address_group_nested_wider(g0, Span { start: pos, end: p }, Span { start: pos, end: e });
                    assert(group@.last() == a);
                }
                if peek(cs, e, ',') {
                    proof {
                        match addr_items_s(cs@, e + 1, true) {
                            Some((rest, end)) => {
                                assert(addr_group_v(g0) + (seq![av] + rest) =~= addr_group_v(group@) + rest);
                            },
                            None => {},
                        }
                    }
                    proof {
                        lemma_address_group_nested_wider(group@, Span { start: pos, end: e }, Span { start: pos, end: (e + 1) as usize });
                    }
                    p = e + 1;
                } else if peek(cs, e, ']') {
                    proof {
                        match addr_items_s(cs@, e as int, true) {
                            Some((rest, end)) => {
                                assert(addr_group_v(g0) + (seq![av] + rest) =~= addr_group_v(group@) + rest);
                            },
                            None => {},
                        }
                    }
                    p = e;
                } else {
                    return None;
                }
            },
            None => {
                return None;
            },
        }
    }
}

/// An address with the white space around it (see `addr_s`).
pub fn address_at(cs: &Vec<char>, pos: usize, diags: &mut Vec<Diagnostic>) -> (r: Option<(Spanned<NetworkAddress>, usize)>)
    requires
        pos <= cs@.len(),
        diagnostics_within(old(diags)@, cs@.len() as nat),
    ensures
        diagnostics_within(final(diags)@, cs@.len() as nat),
        grows(old(diags)@, final(diags)@),
        r matches Some((a, e)) ==> pos < e <= cs@.len() && a.1.within(cs@.len() as nat) && pos
            <= a.1.start && a.1.end <= e && address_within(a.0, cs@.len() as nat) && address_nested(a.0, a.1),
        addr_result(r) == addr_s(cs@, pos as int),
        octet_too_big(cs@, ws_end(cs@, pos as int)) matches Some(e) ==> has_diag(old(diags)@, final(diags)@, sp(ws_end(cs@, pos as int), e)),
        mask_too_big(cs@, ws_end(cs@, pos as int)) matches Some(m) ==> has_diag(old(diags)@, final(diags)@, m),
    decreases cs@.len() - pos, 2nat,
{
    let p = skip_ws(cs, pos);
    let r = address_core_at(cs, p, diags);
    match r {
        Some((a, e)) => Some((a, skip_ws(cs, e))),
        None => None,
    }
}

/// What a `!` may stand before (see `neg_addr_s`).
fn negated_address_at(cs: &Vec<char>, q: usize, diags: &mut Vec<Diagnostic>) -> (r: Option<(Spanned<NetworkAddress>, usize)>)
    requires
        q <= cs@.len(),
        diagnostics_within(old(diags)@, cs@.len() as nat),
    ensures
        diagnostics_within(final(diags)@, cs@.len() as nat),
        grows(old(diags)@, final(diags)@),
        r matches Some((a, e)) ==> q < e <= cs@.len() && a.1 == (Span { start: q, end: e })
            && address_within(a.0, cs@.len() as nat) && address_nested(a.0, a.1),
        addr_result(r) == neg_addr_s(cs@, q as int),
    decreases cs@.len() - q, 1nat,
{
    let ghost d0 = diags@;
    if let Some((v, e)) = variable_at(cs, q) {
        assert(diags@.take(diags@.len() as int) == diags@);
        return Some(((NetworkAddress::IPVariable(v), Span { start: q, end: e }), e));
    }
    let g = address_group_at(cs, q, diags);
    if g.is_some() {
        return g;
    }
    let ghost d1 = diags@;
    let c = cidr_at(cs, q, diags);
    if c.is_some() {
        proof { assert(diags@.take(d1.len() as int).take(d0.len() as int) == diags@.take(d0.len() as int)); }
        return c;
    }
    let ghost d2 = diags@;
    let r = ip_at(cs, q, diags);
    proof {
        assert(diags@.take(d2.len() as int).take(d0.len() as int) == diags@.take(d0.len() as int));
        assert(d2.take(d1.len() as int).take(d0.len() as int) == d2.take(d0.len() as int));
    }
    match r {
        Some((ip, e)) => Some(((NetworkAddress::IPAddr(ip), Span { start: q, end: e }), e)),
        None => None,
    }
}

/// An address at `p`, white space excluded (see `addr_core_s`).
fn address_core_at(cs: &Vec<char>, p: usize, diags: &mut Vec<Diagnostic>) -> (r: Option<(Spanned<NetworkAddress>, usize)>)
    requires
        p <= cs@.len(),
        diagnostics_within(old(diags)@, cs@.len() as nat),
    ensures
        diagnostics_within(final(diags)@, cs@.len() as nat),
        grows(old(diags)@, final(diags)@),
        r matches Some((a, e)) ==> p < e <= cs@.len() && a.1 == (Span { start: p, end: e })
            && address_within(a.0, cs@.len() as nat) && address_nested(a.0, a.1),
        addr_result(r) == addr_core_s(cs@, p as int),
        octet_too_big(cs@, p as int) matches Some(e) ==> has_diag(old(diags)@, final(diags)@, sp(p as int, e)),
        mask_too_big(cs@, p as int) matches Some(m) ==> has_diag(old(diags)@, final(diags)@, m),
    decreases cs@.len() - p, 1nat,
{
    let ghost d0 = diags@;
    if let Some((v, e)) = variable_at(cs, p) {
        assert(diags@.take(diags@.len() as int) == diags@);
        return Some(((NetworkAddress::IPVariable(v), Span { start: p, end: e }), e));
    }
    if peek(cs, p, '!') {
        if let Some((a, e)) = negated_address_at(cs, p + 1, diags) {
            return Some(((NetworkAddress::NegIP(Box::new(a)), Span { start: p, end: e }), e));
        }
    }
    let ghost d1 = diags@;
    let g = address_group_at(cs, p, diags);
    if g.is_some() {
        proof { assert(diags@.take(d1.len() as int).take(d0.len() as int) == diags@.take(d0.len() as int)); }
        return g;
    }
    let ghost d2 = diags@;
    let c = cidr_at(cs, p, diags);
    proof {
        assert(diags@.take(d2.len() as int).take(d0.len() as int) == diags@.take(d0.len() as int));
        assert(d2.take(d1.len() as int).take(d0.len() as int) == d2.take(d0.len() as int));
    }
    if c.is_some() {
        return c;
    }
    let ghost d3 = diags@;
    let r = ip_at(cs, p, diags);
    proof {
        assert(diags@.take(d3.len() as int).take(d0.len() as int) == diags@.take(d0.len() as int));
    }
    if let Some((ip, e)) = r {
        return Some(((NetworkAddress::IPAddr(ip), Span { start: p, end: e }), e));
    }
    if let Some(e) = any_at(cs, p) {
        return Some(((NetworkAddress::Any(Span { start: p, end: e }), Span { start: p, end: e }), e));
    }
    None
}

/// The values of a port read, as plain values.
pub open spec fn port_result(r: Option<(Spanned<NetworkPort>, usize)>) -> Option<((PortV, Span), int)> {
    match r {
        Some((a, e)) => Some(((port_v(a.0), a.1), e as int)),
        None => None,
    }
}

/// A port number at `pos` (see `port_num_s`); a number above 65535 is
/// reported on its own span.
fn port_number_at(cs: &Vec<char>, pos: usize, diags: &mut Vec<Diagnostic>) -> (r: Option<(Spanned<u16>, usize)>)
    requires
        pos <= cs@.len(),
        diagnostics_within(old(diags)@, cs@.len() as nat),
    ensures
        diagnostics_within(final(diags)@, cs@.len() as nat),
        grows(old(diags)@, final(diags)@),
        r matches Some((x, e)) ==> pos < e <= cs@.len() && x.1 == (Span { start: pos, end: e })
            && port_num_s(cs@, pos as int) == Some((x.0 as nat, e as int)),
        r is None ==> port_num_s(cs@, pos as int) is None,
        int_s(cs@, pos as int) matches Some((v, e)) ==> (v > 65535 ==> final(diags)@.len() == old(diags)@.len() + 1
            && final(diags)@.last().span == (Span { start: pos, end: e as usize })),
        (int_s(cs@, pos as int) is None || (int_s(cs@, pos as int)->0).0 <= 65535) ==> final(diags)@ == old(diags)@,
        too_big(cs@, pos as int, 65535) matches Some(e) ==> has_diag(old(diags)@, final(diags)@, sp(pos as int, e)),
{
    match bounded_at(cs, pos, 65535, "A port should be at most 65535", diags) {
        Some((v, e)) => Some(((v as u16, Span { start: pos, end: e }), e)),
        None => None,
    }
}

/// A port range at `pos` (see `range_s`); a `:` with no port on either side
/// is reported.
fn port_range_at(cs: &Vec<char>, pos: usize, diags: &mut Vec<Diagnostic>) -> (r: Option<(Spanned<NetworkPort>, usize)>)
    requires
        pos <= cs@.len(),
        diagnostics_within(old(diags)@, cs@.len() as nat),
    ensures
        diagnostics_within(final(diags)@, cs@.len() as nat),
        grows(old(diags)@, final(diags)@),
        r matches Some((x, e)) ==> pos < e <= cs@.len() && x.1 == (Span { start: pos, end: e })
            && port_within(x.0, cs@.len() as nat) && port_nested(x.0, x.1),
        port_result(r) == range_s(cs@, pos as int),
        (at(cs@, pos as int, ':') && int_s(cs@, pos + 1) is None) ==> final(diags)@.len() == old(diags)@.len() + 1
            && final(diags)@.last().span == (Span { start: pos, end: (pos + 1) as usize }),
        lone_colon(cs@, pos as int) ==> has_diag(old(diags)@, final(diags)@, sp(pos as int, pos + 1)),
        too_big(cs@, pos as int, 65535) matches Some(e) ==> has_diag(old(diags)@, final(diags)@, sp(pos as int, e)),
{
    let from = port_number_at(cs, pos, diags);
    let p = match &from {
        Some((_, e)) => *e,
        None => pos,
    };
    if !peek(cs, p, ':') {
        return None;
    }
    let to = port_number_at(cs, p + 1, diags);
    match (from, to) {
        (None, None) => {
            let ghost before = diags@;
            push_diag(diags, "Port range cannot be \":\"", Span { start: pos, end: p + 1 }, Ghost(cs@.len() as nat));
            assert(diags@.take(before.len() as int) == before);
            assert(grows(before, diags@));
            assert(grows(old(diags)@, before));
            assert(diags@[diags@.len() - 1].span == sp(pos as int, pos + 1));
            None
        },
        (None, Some((t, e))) => Some(((NetworkPort::PortOpenRange(t, false), Span { start: pos, end: e }), e)),
        (Some((f, _)), None) => Some(((NetworkPort::PortOpenRange(f, true), Span { start: pos, end: p + 1 }), p + 1)),
        (Some((f, _)), Some((t, e))) => Some(((NetworkPort::PortRange(f, t), Span { start: pos, end: e }), e)),
    }
}

/// The members of a port group after its `[`, put before those of `o`.
pub open spec fn prepend_ports(acc: Seq<(PortV, Span)>, o: Option<(Seq<(PortV, Span)>, int)>) -> Option<(Seq<(PortV, Span)>, int)> {
    match o {
        Some((s, e)) => Some((acc + s, e)),
        None => None,
    }
}

/// A port group at `pos` (see `port_group_s`).
fn port_group_at(cs: &Vec<char>, pos: usize, diags: &mut Vec<Diagnostic>) -> (r: Option<(Spanned<NetworkPort>, usize)>)
    requires
        pos <= cs@.len(),
        diagnostics_within(old(diags)@, cs@.len() as nat),
    ensures
        diagnostics_within(final(diags)@, cs@.len() as nat),
        grows(old(diags)@, final(diags)@),
        r matches Some((a, e)) ==> pos < e <= cs@.len() && a.1 == (Span { start: pos, end: e })
            && port_within(a.0, cs@.len() as nat) && port_nested(a.0, a.1),
        port_result(r) == port_group_s(cs@, pos as int),
    decreases cs@.len() - pos, 0nat,
{
    if !peek(cs, pos, '[') {
        return None;
    }
    let ghost n = cs@.len() as nat;
    let mut group: Vec<Spanned<NetworkPort>> = Vec::new();
    let mut p = pos + 1;
    proof {
        if let Some((s, e)) = port_items_s(cs@, pos + 1, false) {
            assert(Seq::<(PortV, Span)>::empty() + s =~= s);
        }
    }
    loop
        invariant
            pos < p <= cs@.len(),
            n == cs@.len(),
            port_group_within(group@, n),
            port_group_nested(group@, Span { start: pos, end: p }),
            diagnostics_within(diags@, n),
            grows(old(diags)@, diags@),
            at(cs@, pos as int, '['),
            port_items_s(cs@, pos + 1, false) == prepend_ports(port_group_v(group@), port_items_s(cs@, p as int, group@.len() > 0)),
        decreases cs@.len() - p,
    {
        if peek(cs, p, ']') && group.len() > 0 {
            proof {
                lemma_port_group_nested_wider(group@, Span { start: pos, end: p }, Span { start: pos, end: (p + 1) as usize });
            }
            assert(port_items_s(cs@, p as int, true) == Some((Seq::<(PortV, Span)>::empty(), p + 1)));
            assert(port_group_v(group@) + Seq::<(PortV, Span)>::empty() =~= port_group_v(group@));
            let ghost gv = port_group_v(group@);
            assert(port_items_s(cs@, pos + 1, false) == Some((gv, p + 1)));
            let r = ((NetworkPort::PortGroup(group), Span { start: pos, end: p + 1 }), p + 1);
            assert(port_v(r.0.0) == PortV::Group(gv));
            return Some(r);
        }
        match port_at(cs, p, diags) {
            Some((a, e)) => {
                let ghost g0 = group@;
                let ghost av = (port_v(a.0), a.1);
                group.push(a);
                assert(group@.drop_last() == g0);
                assert(port_group_v(group@) == port_group_v(g0).push(av));
                proof {
                    lemma_port_group_nested_wider(g0, Span { start: pos, end: p }, Span { start: pos, end: e });
                    assert(group@.last() == a);
                }
                if peek(cs, e, ',') {
                    proof {
                        match port_items_s(cs@, e + 1, true) {
                            Some((rest, end)) => {
                                assert(port_group_v(g0) + (seq![av] + rest) =~= port_group_v(group@) + rest);
                            },
                            None => {},
                        }
                    }
                    proof {
                        lemma_port_group_nested_wider(group@, Span { start: pos, end: e }, Span { start: pos, end: (e + 1) as usize });
                    }
                    p = e + 1;
                } else if peek(cs, e, ']') {
                    proof {
                        match port_items_s(cs@, e as int, true) {
                            Some((rest, end)) => {
                                assert(port_group_v(g0) + (seq![av] + rest) =~= port_group_v(group@) + rest);
                            },
                            None => {},
                        }
                    }
                    p = e;
                } else {
                    return None;
                }
            },
            None => {
                return None;
            },
        }
    }
}

/// A port with the white space around it (see `port_s`).
pub fn port_at(cs: &Vec<char>, pos: usize, diags: &mut Vec<Diagnostic>) -> (r: Option<(Spanned<NetworkPort>, usize)>)
    requires
        pos <= cs@.len(),
        diagnostics_within(old(diags)@, cs@.len() as nat),
    ensures
        diagnostics_within(final(diags)@, cs@.len() as nat),
        grows(old(diags)@, final(diags)@),
        r matches Some((a, e)) ==> pos < e <= cs@.len() && a.1.within(cs@.len() as nat) && pos
            <= a.1.start && a.1.end <= e && port_within(a.0, cs@.len() as nat) && port_nested(a.0, a.1),
        port_result(r) == port_s(cs@, pos as int),
        lone_colon(cs@, ws_end(cs@, pos as int)) ==> has_diag(old(diags)@, final(diags)@, sp(
            ws_end(cs@, pos as int),
            ws_end(cs@, pos as int) + 1,
        )),
        too_big(cs@, ws_end(cs@, pos as int), 65535) matches Some(e) ==> has_diag(old(diags)@, final(diags)@, sp(ws_end(cs@, pos as int), e)),
    decreases cs@.len() - pos, 2nat,
{
    let p = skip_ws(cs, pos);
    let r = port_core_at(cs, p, diags);
    match r {
        Some((a, e)) => Some((a, skip_ws(cs, e))),
        None => None,
    }
}

/// What a `!` may stand before in a port (see `neg_port_s`).
fn negated_port_at(cs: &Vec<char>, q: usize, diags: &mut Vec<Diagnostic>) -> (r: Option<(Spanned<NetworkPort>, usize)>)
    requires
        q <= cs@.len(),
        diagnostics_within(old(diags)@, cs@.len() as nat),
    ensures
        diagnostics_within(final(diags)@, cs@.len() as nat),
        grows(old(diags)@, final(diags)@),
        r matches Some((a, e)) ==> q < e <= cs@.len() && a.1 == (Span { start: q, end: e })
            && port_within(a.0, cs@.len() as nat) && port_nested(a.0, a.1),
        port_result(r) == neg_port_s(cs@, q as int),
    decreases cs@.len() - q, 1nat,
{
    if let Some((v, e)) = variable_at(cs, q) {
        return Some(((NetworkPort::PortVar(v), Span { start: q, end: e }), e));
    }
    let g = port_group_at(cs, q, diags);
    if g.is_some() {
        return g;
    }
    let r = port_range_at(cs, q, diags);
    if r.is_some() {
        return r;
    }
    match port_number_at(cs, q, diags) {
        Some((x, e)) => Some(((NetworkPort::Port(x), Span { start: q, end: e }), e)),
        None => None,
    }
}

/// A port at `p`, white space excluded (see `port_core_s`).
fn port_core_at(cs: &Vec<char>, p: usize, diags: &mut Vec<Diagnostic>) -> (r: Option<(Spanned<NetworkPort>, usize)>)
    requires
        p <= cs@.len(),
        diagnostics_within(old(diags)@, cs@.len() as nat),
    ensures
        diagnostics_within(final(diags)@, cs@.len() as nat),
        grows(old(diags)@, final(diags)@),
        r matches Some((a, e)) ==> p < e <= cs@.len() && a.1 == (Span { start: p, end: e })
            && port_within(a.0, cs@.len() as nat) && port_nested(a.0, a.1),
        port_result(r) == port_core_s(cs@, p as int),
        lone_colon(cs@, p as int) ==> has_diag(old(diags)@, final(diags)@, sp(p as int, p + 1)),
        too_big(cs@, p as int, 65535) matches Some(e) ==> has_diag(old(diags)@, final(diags)@, sp(p as int, e)),
    decreases cs@.len() - p, 1nat,
{
    if peek(cs, p, '!') {
        if let Some((a, e)) = negated_port_at(cs, p + 1, diags) {
            return Some(((NetworkPort::NegPort(Box::new(a)), Span { start: p, end: e }), e));
        }
    }
    if let Some((v, e)) = variable_at(cs, p) {
        return Some(((NetworkPort::PortVar(v), Span { start: p, end: e }), e));
    }
    let g = port_group_at(cs, p, diags);
    if g.is_some() {
        return g;
    }
    let r = port_range_at(cs, p, diags);
    if r.is_some() {
        return r;
    }
    if let Some((x, e)) = port_number_at(cs, p, diags) {
        return Some(((NetworkPort::Port(x), Span { start: p, end: e }), e));
    }
    if let Some(e) = any_at(cs, p) {
        return Some(((NetworkPort::Any(Span { start: p, end: e }), Span { start: p, end: e }), e));
    }
    None
}

/// A direction at `pos` (see `dir_s`).
fn direction_at(cs: &Vec<char>, pos: usize) -> (r: Option<(Spanned<NetworkDirection>, usize)>)
    requires
        pos <= cs@.len(),
    ensures
        r matches Some((d, e)) ==> pos < e <= cs@.len() && d.1 == (Span { start: pos, end: e })
            && dir_s(cs@, pos as int) == Some(((dir_v(d.0), d.1), e as int)),
        r is None ==> dir_s(cs@, pos as int) is None,
{
    let mut e = pos;
    while e < cs.len() && (cs[e] == '<' || cs[e] == '-' || cs[e] == '>')
        invariant
            pos <= e <= cs@.len(),
            dir_run(cs@, e as int) == dir_run(cs@, pos as int),
        decreases cs@.len() - e,
    {
        e = e + 1;
    }
    if e == pos {
        return None;
    }
    let span = Span { start: pos, end: e };
    assert(e - pos == 2 ==> cs@.subrange(pos as int, e as int) =~= seq![cs@[pos as int], cs@[pos + 1]]);
    assert(e - pos != 2 ==> cs@.subrange(pos as int, e as int).len() != 2);
    let d = if e - pos == 2 && cs[pos] == '-' && cs[pos + 1] == '>' {
        NetworkDirection::SrcToDst
    } else if e - pos == 2 && cs[pos] == '<' && cs[pos + 1] == '>' {
        NetworkDirection::Both
    } else if e - pos == 2 && cs[pos] == '<' && cs[pos + 1] == '-' {
        NetworkDirection::DstToSrc
    } else {
        NetworkDirection::Unrecognized(string_of(cs, pos, e))
    };
    Some(((d, span), e))
}

/// The values of a header read, as plain values.
pub open spec fn header_result(r: (Spanned<Header>, usize)) -> ((HeaderV, Span), int) {
    ((header_v(r.0.0), r.0.1), r.1 as int)
}

/// A header at `pos` (see `header_s`).
#[verifier::rlimit(100)]
fn header_at(cs: &Vec<char>, pos: usize, diags: &mut Vec<Diagnostic>) -> (r: (Spanned<Header>, usize))
    requires
        pos <= cs@.len(),
        diagnostics_within(old(diags)@, cs@.len() as nat),
    ensures
        diagnostics_within(final(diags)@, cs@.len() as nat),
        grows(old(diags)@, final(diags)@),
        pos <= r.1 <= cs@.len(),
        r.0.1.within(cs@.len() as nat),
        header_within(r.0.0, cs@.len() as nat),
        header_nested(r.0.0, r.0.1),
        header_ordered(r.0.0),
        header_result(r) == header_s(cs@, pos as int),
{
    reveal(header_s);
    let start = skip_ws(cs, pos);
    let mut last = start;
    let mut p = start;
    let protocol = match ident_end(cs, p) {
        Some(e) => {
            let name = string_of(cs, p, e);
            let x = (name, Span { start: p, end: e });
            last = e;
            p = e;
            Some(x)
        },
        None => None,
    };
    let ghost (l1, p1) = (last as int, p as int);
    let source = match address_at(cs, p, diags) {
        Some((a, e)) => {
            last = a.1.end;
            p = e;
            Some(a)
        },
        None => None,
    };
    assert(opt_addr_s(cs@, p1, l1).1 == last as int && opt_addr_s(cs@, p1, l1).2 == p as int);
    let ghost (l2, p2) = (last as int, p as int);
    let source_port = match port_at(cs, p, diags) {
        Some((a, e)) => {
            last = a.1.end;
            p = e;
            Some(a)
        },
        None => None,
    };
    assert(opt_port_s(cs@, p2, l2).1 == last as int && opt_port_s(cs@, p2, l2).2 == p as int);
    p = skip_ws(cs, p);
    let direction = match direction_at(cs, p) {
        Some((d, e)) => {
            last = e;
            p = skip_ws(cs, e);
            Some(d)
        },
        None => None,
    };
    let ghost (l3, p3) = (last as int, p as int);
    let destination = match address_at(cs, p, diags) {
        Some((a, e)) => {
            last = a.1.end;
            p = e;
            Some(a)
        },
        None => None,
    };
    assert(opt_addr_s(cs@, p3, l3).1 == last as int && opt_addr_s(cs@, p3, l3).2 == p as int);
    let ghost (l4, p4) = (last as int, p as int);
    let destination_port = match port_at(cs, p, diags) {
        Some((a, e)) => {
            last = a.1.end;
            p = e;
            Some(a)
        },
        None => None,
    };
    assert(opt_port_s(cs@, p4, l4).1 == last as int && opt_port_s(cs@, p4, l4).2 == p as int);
    let header = Header { protocol, source, source_port, direction, destination, destination_port };
    ((header, Span { start, end: last }), p)
}

/// A character that a backslash escapes inside option values.
pub open spec fn escapable(c: char) -> bool {
    c == '"' || c == ';' || c == '\\'
}

/// A bare value read from the start of `s`: its characters, without the
/// backslash of each escape, up to the first unescaped `;` or `,`; and how
/// many characters of `s` it takes.
pub open spec fn bare_scan(s: Seq<char>) -> (Seq<char>, nat)
    decreases s.len(),
{
    if s.len() == 0 {
        (seq![], 0)
    } else if s.len() >= 2 && s[0] == '\\' && escapable(s[1]) {
        let r = bare_scan(s.skip(2));
        (seq![s[1]] + r.0, r.1 + 2)
    } else if s[0] == ';' || s[0] == ',' {
        (seq![], 0)
    } else {
        let r = bare_scan(s.skip(1));
        (seq![s[0]] + r.0, r.1 + 1)
    }
}

/// The contents of a quoted value read from just after its opening quote:
/// its characters, without the backslash of each escape, up to the first
/// unescaped `"`; and how many characters come before that quote. Nothing
/// where the quote is never closed.
pub open spec fn quoted_scan(s: Seq<char>) -> Option<(Seq<char>, nat)>
    decreases s.len(),
{
    if s.len() == 0 {
        None
    } else if s.len() >= 2 && s[0] == '\\' && escapable(s[1]) {
        match quoted_scan(s.skip(2)) {
            Some(r) => Some((seq![s[1]] + r.0, r.1 + 2)),
            None => None,
        }
    } else if s[0] == '"' {
        Some((seq![], 0))
    } else {
        match quoted_scan(s.skip(1)) {
            Some(r) => Some((seq![s[0]] + r.0, r.1 + 1)),
            None => None,
        }
    }
}

/// Escaping a value escapes its first character, then the rest.
proof fn lemma_escape_first(c: char, rest: Seq<char>)
    ensures
        escape(seq![c] + rest) == (if needs_escape(c) { seq!['\\', c] } else { seq![c] }) + escape(rest),
    decreases rest.len(),
{
    let s = seq![c] + rest;
    if rest.len() == 0 {
        assert(s.drop_last() =~= Seq::<char>::empty());
        assert(escape(Seq::<char>::empty()) =~= Seq::<char>::empty());
        assert(s.last() == c);
    } else {
        lemma_escape_first(c, rest.drop_last());
        assert(s.drop_last() =~= seq![c] + rest.drop_last());
        assert(s.last() == rest.last());
        let head = if needs_escape(c) { seq!['\\', c] } else { seq![c] };
        if needs_escape(rest.last()) {
            assert(head + escape(rest.drop_last()) + seq!['\\', rest.last()] =~= head + escape(rest));
        } else {
            assert((head + escape(rest.drop_last())).push(rest.last()) =~= head + escape(rest));
        }
    }
}

/// Writing a bare value then reading it gives it back: a value holding no
/// `,`, written escaped and followed by the end of the text, a `;` or a `,`,
/// reads as itself and takes exactly its written text.
pub proof fn lemma_bare_value_round_trip(v: Seq<char>, tail: Seq<char>)
    requires
        forall|i: int| 0 <= i < v.len() ==> v[i] != ',',
        tail.len() == 0 || tail[0] == ';' || tail[0] == ',',
    ensures
        bare_scan(escape(v) + tail) == (v, escape(v).len()),
    decreases v.len(),
{
    if v.len() == 0 {
        assert(escape(v) =~= Seq::<char>::empty());
        assert(escape(v) + tail =~= tail);
    } else {
        let c = v[0];
        let r = v.drop_first();
        assert(v =~= seq![c] + r);
        lemma_escape_first(c, r);
        lemma_bare_value_round_trip(r, tail);
        let s = escape(v) + tail;
        if needs_escape(c) {
            assert(s =~= seq!['\\', c] + (escape(r) + tail));
            assert(s.skip(2) =~= escape(r) + tail);
        } else {
            assert(s =~= seq![c] + (escape(r) + tail));
            assert(s.skip(1) =~= escape(r) + tail);
        }
    }
}

/// Writing a quoted value's contents then reading them gives them back: the
/// escaped contents followed by the closing `"` read as the contents, and
/// take exactly their written text.
pub proof fn lemma_quoted_value_round_trip(v: Seq<char>, tail: Seq<char>)
    ensures
        quoted_scan(escape(v) + seq!['"'] + tail) == Some((v, escape(v).len())),
    decreases v.len(),
{
    if v.len() == 0 {
        assert(escape(v) =~= Seq::<char>::empty());
        assert(escape(v) + seq!['"'] + tail =~= seq!['"'] + tail);
    } else {
        let c = v[0];
        let r = v.drop_first();
        assert(v =~= seq![c] + r);
        lemma_escape_first(c, r);
        lemma_quoted_value_round_trip(r, tail);
        let s = escape(v) + seq!['"'] + tail;
        if needs_escape(c) {
            assert(s =~= seq!['\\', c] + (escape(r) + seq!['"'] + tail));
            assert(s.skip(2) =~= escape(r) + seq!['"'] + tail);
        } else {
            assert(s =~= seq![c] + (escape(r) + seq!['"'] + tail));
            assert(s.skip(1) =~= escape(r) + seq!['"'] + tail);
        }
    }
}

/// An option value's span holds its text: a quoted value between its quotes,
/// a bare value up to the `;` or `,` that ends it.
pub open spec fn value_faithful(v: OptionsVariable, cs: Seq<char>) -> bool {
    match v {
        OptionsVariable::String(x) => x.1.start < x.1.end && cs[x.1.start as int] == '"' && quoted_scan(
            cs.skip(x.1.start + 1),
        ) == Some((x.0@, (x.1.end - x.1.start - 2) as nat)),
        OptionsVariable::Other(x) => bare_scan(cs.skip(x.1.start as int)) == (x.0@, (x.1.end - x.1.start) as nat),
    }
}

/// Whether a backslash at `i` escapes the character after it (`"`, `;` or `\`).
fn escape_at(cs: &Vec<char>, i: usize) -> (r: bool)
    requires
        i < cs@.len(),
    ensures
        r == (i + 1 < cs@.len() && cs@[i as int] == '\\' && escapable(cs@[i + 1])),
{
    cs[i] == '\\' && i < cs.len() - 1 && (cs[i + 1] == '"' || cs[i + 1] == ';' || cs[i + 1]
        == '\\')
}

/// A quoted value at `pos`; escaped characters are kept without their backslash.
fn string_value_at(cs: &Vec<char>, pos: usize) -> (r: Option<(Spanned<OptionsVariable>, usize)>)
    requires
        pos <= cs@.len(),
    ensures
        r matches Some((v, e)) ==> pos < e <= cs@.len() && v.1 == (Span { start: pos, end: e })
            && crate::rule::value_span(v.0).within(cs@.len() as nat) && value_faithful(v.0, cs@)
            && string_s(cs@, pos as int) == Some(((value_v(v.0), v.1), e as int)),
        r is None ==> string_s(cs@, pos as int) is None,
{
    if !peek(cs, pos, '"') {
        return None;
    }
    let mut value = String::new();
    let mut i = pos + 1;
    while i < cs.len()
        invariant
            pos < i <= cs@.len(),
            cs@[pos as int] == '"',
            match quoted_scan(cs@.skip(i as int)) {
                Some(r) => quoted_scan(cs@.skip(pos + 1)) == Some((value@ + r.0, (i - pos - 1 + r.1) as nat)),
                None => quoted_scan(cs@.skip(pos + 1)) is None,
            },
        decreases cs@.len() - i,
    {
        let ghost t = cs@.skip(i as int);
        assert(t[0] == cs@[i as int]);
        if escape_at(cs, i) {
            assert(t[1] == cs@[i + 1]);
            assert(t.skip(2) == cs@.skip(i + 2));
            push_char(&mut value, cs[i + 1]);
            i = i + 2;
            assert(value@ =~= value@.drop_last() + seq![cs@[i - 1]]);
        } else if cs[i] == '"' {
            let span = Span { start: pos, end: i + 1 };
            assert(value@ + seq![] == value@);
            return Some(((OptionsVariable::String((value, span)), span), i + 1));
        } else {
            assert(t.skip(1) == cs@.skip(i + 1));
            push_char(&mut value, cs[i]);
            i = i + 1;
        }
        proof {
            let old_v = value@.drop_last();
            match quoted_scan(cs@.skip(i as int)) {
                Some(r) => {
                    assert(old_v + (seq![value@.last()] + r.0) =~= value@ + r.0);
                },
                None => {},
            }
        }
    }
    assert(cs@.skip(i as int).len() == 0);
    None
}

/// A bare value at `pos`: every character up to the first unescaped `;` or `,`.
fn other_value_at(cs: &Vec<char>, pos: usize) -> (r: (Spanned<OptionsVariable>, usize))
    requires
        pos <= cs@.len(),
    ensures
        pos <= r.1 <= cs@.len(),
        r.0.1 == (Span { start: pos, end: r.1 }),
        crate::rule::value_span(r.0.0).within(cs@.len() as nat),
        value_faithful(r.0.0, cs@),
        other_s(cs@, pos as int) == ((value_v(r.0.0), r.0.1), r.1 as int),
{
    let mut value = String::new();
    let mut i = pos;
    while i < cs.len() && cs[i] != ';' && cs[i] != ','
        invariant
            pos <= i <= cs@.len(),
            bare_scan(cs@.skip(pos as int)) == (value@ + bare_scan(cs@.skip(i as int)).0, (i - pos + bare_scan(cs@.skip(i as int)).1) as nat),
        decreases cs@.len() - i,
    {
        let ghost t = cs@.skip(i as int);
        assert(t[0] == cs@[i as int]);
        let ghost old_v = value@;
        if escape_at(cs, i) {
            assert(t[1] == cs@[i + 1]);
            assert(t.skip(2) == cs@.skip(i + 2));
            push_char(&mut value, cs[i + 1]);
            i = i + 2;
            assert(old_v + (seq![cs@[i - 1]] + bare_scan(cs@.skip(i as int)).0) =~= value@ + bare_scan(cs@.skip(i as int)).0);
        } else {
            assert(t.skip(1) == cs@.skip(i + 1));
            push_char(&mut value, cs[i]);
            i = i + 1;
            assert(old_v + (seq![cs@[i - 1]] + bare_scan(cs@.skip(i as int)).0) =~= value@ + bare_scan(cs@.skip(i as int)).0);
        }
    }
    proof {
        if i == cs@.len() {
            assert(cs@.skip(i as int).len() == 0);
        } else {
            assert(cs@.skip(i as int)[0] == cs@[i as int]);
        }
        assert(value@ + seq![] == value@);
    }
    let span = Span { start: pos, end: i };
    ((OptionsVariable::Other((value, span)), span), i)
}

/// The values read so far put before those read from a position.
pub open spec fn prepend_values(acc: Seq<(ValueV, Span)>, o: (Seq<(ValueV, Span)>, int, int)) -> (Seq<(ValueV, Span)>, int, int) {
    (acc + o.0, o.1, o.2)
}

/// The values of an option read, as plain values.
pub open spec fn option_result(r: Option<(Spanned<RuleOption>, usize)>) -> Option<((OptionV, Span), int)> {
    match r {
        Some((o, e)) => Some(((option_v(o.0), o.1), e as int)),
        None => None,
    }
}

/// One option at `pos` (see `option_s`).
#[verifier::rlimit(40)]
fn option_at(cs: &Vec<char>, pos: usize) -> (r: Option<(Spanned<RuleOption>, usize)>)
    requires
        pos <= cs@.len(),
    ensures
        r matches Some((o, e)) ==> pos < e <= cs@.len() && o.1.within(cs@.len() as nat)
            && option_within(o.0, cs@.len() as nat) && crate::rule::option_nested(o.0, o.1),
        option_result(r) == option_s(cs@, pos as int),
{
    let ghost n = cs@.len() as nat;
    let start = skip_ws(cs, pos);
    let mut e = start;
    while e < cs.len() && cs[e] != ':' && cs[e] != ';' && cs[e] != ')'
        invariant
            start <= e <= cs@.len(),
            keyword_run(cs@, e as int) == keyword_run(cs@, start as int),
        decreases cs@.len() - e,
    {
        e = e + 1;
    }
    let mut kend = e;
    while kend > start && is_whitespace(cs[kend - 1])
        invariant
            start <= kend <= e <= cs@.len(),
            trim_back(cs@, start as int, kend as int) == trim_back(cs@, start as int, e as int),
        decreases kend,
    {
        kend = kend - 1;
    }
    if kend == start {
        return None;
    }
    let keyword = (string_of(cs, start, kend), Span { start, end: kend });
    if !peek(cs, e, ':') {
        let span = Span { start, end: kend };
        return Some(((RuleOption::Buffer(keyword), span), skip_ws(cs, e)));
    }
    let mut values: Vec<Spanned<OptionsVariable>> = Vec::new();
    let mut p = e + 1;
    let mut last = e + 1;
    proof {
        let x = values_s(cs@, e + 1);
        assert(Seq::<(ValueV, Span)>::empty() + x.0 =~= x.0);
    }
    loop
        invariant
            pos <= start < p <= cs@.len(),
            start < last <= p,
            start < kend <= e < p,
            keyword_run(cs@, start as int) == e,
            trim_back(cs@, start as int, e as int) == kend,
            start as int == ws_end(cs@, pos as int),
            at(cs@, e as int, ':'),
            keyword.1 == (Span { start, end: kend }),
            keyword.0@ == cs@.subrange(start as int, kend as int),
            n == cs@.len(),
            forall|i: int| 0 <= i < values@.len() ==> value_within(#[trigger] values@[i], n),
            forall|i: int| 0 <= i < values@.len() ==> start <= (#[trigger] values@[i]).1.start && values@[i].1.end <= last,
            values_s(cs@, e + 1) == prepend_values(value_list_v(values@), values_s(cs@, p as int)),
        decreases cs@.len() - p,
    {
        let q = skip_ws(cs, p);
        let (v, ve) = match string_value_at(cs, q) {
            Some((v, ve)) => (v, skip_ws(cs, ve)),
            None => other_value_at(cs, q),
        };
        assert(one_value_s(cs@, p as int) == ((value_v(v.0), v.1), ve as int));
        last = v.1.end;
        let ghost v0 = values@;
        let ghost vv = (value_v(v.0), v.1);
        values.push(v);
        assert(values@.drop_last() == v0);
        assert(value_list_v(values@) == value_list_v(v0).push(vv));
        assert forall|i: int| 0 <= i < values@.len() implies value_within(#[trigger] values@[i], n) by {
            if i < v0.len() {
                assert(values@[i] == v0[i]);
            }
        }
        assert forall|i: int| 0 <= i < values@.len() implies start <= (#[trigger] values@[i]).1.start && values@[i].1.end <= last by {
            if i < v0.len() {
                assert(values@[i] == v0[i]);
            }
        }
        if peek(cs, ve, ',') {
            proof {
                let x = values_s(cs@, ve + 1);
                assert(value_list_v(v0) + (seq![vv] + x.0) =~= value_list_v(values@) + x.0);
            }
            p = ve + 1;
        } else {
            assert(value_list_v(v0) + seq![vv] =~= value_list_v(values@));
            assert(values_s(cs@, p as int) == (seq![vv], v.1.end as int, ve as int));
            assert(values_s(cs@, e + 1) == (value_list_v(values@), last as int, ve as int));
            let span = Span { start, end: last };
            return Some(((RuleOption::KeywordPair(keyword, values), span), ve));
        }
    }
}

/// The options read so far put before those read from a position.
pub open spec fn prepend_opts(acc: Seq<(OptionV, Span)>, o: Option<(Seq<(OptionV, Span)>, int)>) -> Option<(Seq<(OptionV, Span)>, int)> {
    match o {
        Some((s, e)) => Some((acc + s, e)),
        None => None,
    }
}

/// The options of a rule at `pos` (see `options_s`).
fn options_at(cs: &Vec<char>, pos: usize) -> (r: Option<(Vec<Spanned<RuleOption>>, usize)>)
    requires
        pos <= cs@.len(),
    ensures
        r matches Some((os, e)) ==> pos < e <= cs@.len() && (forall|i: int|
            0 <= i < os@.len() ==> option_entry_within(#[trigger] os@[i], cs@.len() as nat)),
        r matches Some((os, e)) ==> options_s(cs@, pos as int) == Some((option_list_v(os@), e as int)),
        r matches Some((os, e)) ==> forall|i: int| 0 <= i < os@.len() ==> crate::rule::option_nested(#[trigger] os@[i].0, os@[i].1),
        r is None ==> options_s(cs@, pos as int) is None,
{
    reveal(options_s);
    let ghost n = cs@.len() as nat;
    if !peek(cs, pos, '(') {
        return None;
    }
    let mut os: Vec<Spanned<RuleOption>> = Vec::new();
    let mut p = pos + 1;
    proof {
        if let Some((x, e)) = opt_items_s(cs@, pos + 1) {
            assert(Seq::<(OptionV, Span)>::empty() + x =~= x);
        }
    }
    loop
        invariant
            pos < p <= cs@.len(),
            n == cs@.len(),
            at(cs@, pos as int, '('),
            forall|i: int| 0 <= i < os@.len() ==> option_entry_within(#[trigger] os@[i], n),
            forall|i: int| 0 <= i < os@.len() ==> crate::rule::option_nested(#[trigger] os@[i].0, os@[i].1),
            opt_items_s(cs@, pos + 1) == prepend_opts(option_list_v(os@), opt_items_s(cs@, p as int)),
        decreases cs@.len() - p,
    {
        reveal(options_s);
        let q = skip_ws(cs, p);
        if peek(cs, q, ')') {
            let end = skip_ws(cs, q + 1);
            assert(option_list_v(os@) + Seq::<(OptionV, Span)>::empty() =~= option_list_v(os@));
            return Some((os, end));
        }
        match option_at(cs, q) {
            Some((o, e)) => {
                let ghost o0 = os@;
                let ghost ov = (option_v(o.0), o.1);
                os.push(o);
                assert(os@.drop_last() == o0);
                assert(option_list_v(os@) == option_list_v(o0).push(ov));
                assert forall|i: int| 0 <= i < os@.len() implies option_entry_within(#[trigger] os@[i], n) by {
                    if i < o0.len() {
                        assert(os@[i] == o0[i]);
                    } else {
                        assert(os@[i] == o);
                    }
                }
                assert forall|i: int| 0 <= i < os@.len() implies crate::rule::option_nested(#[trigger] os@[i].0, os@[i].1) by {
                    if i < o0.len() {
                        assert(os@[i] == o0[i]);
                    } else {
                        assert(os@[i] == o);
                    }
                }
                if peek(cs, e, ';') {
                    proof {
                        if let Some((x, _)) = opt_items_s(cs@, e + 1) {
                            assert(option_list_v(o0) + (seq![ov] + x) =~= option_list_v(os@) + x);
                        }
                    }
                    p = e + 1;
                } else if peek(cs, e, ')') {
                    let end = skip_ws(cs, e + 1);
                    assert(option_list_v(o0) + seq![ov] =~= option_list_v(os@));
                    return Some((os, end));
                } else {
                    return None;
                }
            },
            None => {
                return None;
            },
        }
    }
}

impl Rule {
    /// Reads one line of rule text: an optional action, a header, optional
    /// options, and nothing after. Returns the rule spanning the whole line,
    /// or nothing with a diagnostic. Every span lies inside the line, and the
    /// span of each word, number, address and value holds its text.
    #[verifier::rlimit(100)]
    pub fn parser(text: &str) -> (r: (Option<Spanned<Rule>>, Vec<Diagnostic>))
        ensures
            r.0 matches Some(x) ==> x.1 == (Span { start: 0, end: text@.len() as usize })
                && rule_within(x.0, text@.len() as nat),
            r.0 matches Some(x) ==> header_nested(x.0.header.0, x.0.header.1),
            r.0 matches Some(x) ==> header_ordered(x.0.header.0),
            r.0 matches Some(x) ==> (x.0.options matches Some(os) ==> forall|i: int|
                0 <= i < os@.len() ==> crate::rule::option_nested(#[trigger] os@[i].0, os@[i].1)),
            r.0 is Some <==> rule_s(text@) is Some,
            r.0 matches Some(x) ==> rule_v(x.0) == rule_s(text@)->0,
            r.0 is None ==> r.1@.len() > 0,
            diagnostics_within(r.1@, text@.len() as nat),
    {
        let cs = crate::text::chars_of(text);
        let ghost n = cs@.len() as nat;
        let mut diags: Vec<Diagnostic> = Vec::new();
        let len = cs.len();
        let mut p = skip_ws(&cs, 0);
        let action = match ident_end(&cs, p) {
            Some(e) => {
                let word = string_of(&cs, p, e);
                let a = (Action::from_str(word.as_str()), Span { start: p, end: e });
                p = skip_ws(&cs, e);
                Some(a)
            },
            None => None,
        };
        let ghost p1 = p as int;
        let (header, e) = header_at(&cs, p, &mut diags);
        p = skip_ws(&cs, e);
        let options = match options_at(&cs, p) {
            Some((os, e)) => {
                p = e;
                Some(os)
            },
            None => None,
        };
        if p < len {
            push_diag(
                &mut diags,
                "Unexpected input",
                Span { start: p, end: len },
                Ghost(n),
            );
            return (None, diags);
        }
        let rule = Rule { action, header, options };
        assert(rule_s(cs@) == Some(rule_v(rule)));
        (Some((rule, Span { start: 0, end: len })), diags)
    }
}

/// What a line of a rule file holds.
#[derive(Clone, Copy, Debug, PartialEq, Eq, Structural)]
pub enum LineKind {
    /// Only white space.
    Blank,
    /// A comment: its first character other than white space is `#`.
    Comment,
    /// Anything else, read as a rule.
    Rule,
}

/// The first character of `s` other than white space, if any.
pub open spec fn first_non_ws(s: Seq<char>) -> Option<char>
    decreases s.len(),
{
    if s.len() == 0 {
        None
    } else if is_ws(s[0]) {
        first_non_ws(s.drop_first())
    } else {
        Some(s[0])
    }
}

/// What the line `s` holds.
pub open spec fn line_kind(s: Seq<char>) -> LineKind {
    match first_non_ws(s) {
        None => LineKind::Blank,
        Some(c) => if c == '#' {
            LineKind::Comment
        } else {
            LineKind::Rule
        },
    }
}

/// Tells blank lines and comments, which are not rules, from the others.
pub fn classify_line(text: &str) -> (r: LineKind)
    ensures
        r == line_kind(text@),
{
    let cs = crate::text::chars_of(text);
    let p = skip_ws(&cs, 0);
    proof {
        lemma_ws_end(cs@, 0);
        assert forall|k: int| 0 <= k <= p implies first_non_ws(cs@.subrange(k, cs@.len() as int))
            == first_non_ws(cs@) by {
            lemma_first_non_ws_skip(cs@, k);
        }
        assert(cs@.subrange(0, cs@.len() as int) == cs@);
    }
    if p == cs.len() {
        proof {
            assert(cs@.subrange(p as int, cs@.len() as int).len() == 0);
        }
        LineKind::Blank
    } else if cs[p] == '#' {
        proof {
            assert(cs@.subrange(p as int, cs@.len() as int)[0] == cs@[p as int]);
        }
        LineKind::Comment
    } else {
        proof {
            assert(cs@.subrange(p as int, cs@.len() as int)[0] == cs@[p as int]);
        }
        LineKind::Rule
    }
}

proof fn lemma_first_non_ws_skip(s: Seq<char>, k: int)
    requires
        0 <= k <= s.len(),
        forall|i: int| 0 <= i < k ==> is_ws(#[trigger] s[i]),
    ensures
        first_non_ws(s.subrange(k, s.len() as int)) == first_non_ws(s),
    decreases k,
{
    if k > 0 {
        lemma_first_non_ws_skip(s, k - 1);
        let t = s.subrange(k - 1, s.len() as int);
        assert(t.drop_first() == s.subrange(k, s.len() as int));
        assert(t[0] == s[k - 1]);
    } else {
        assert(s.subrange(0, s.len() as int) == s);
    }
}

/// Reads one line of a rule file. Blank lines and comments give no rule and no
/// diagnostic; any other line is read as a rule.
pub fn parse_line(text: &str) -> (r: (Option<Spanned<Rule>>, Vec<Diagnostic>))
    ensures
        line_kind(text@) != LineKind::Rule ==> r.0 is None && r.1@.len() == 0,
        r.0 matches Some(x) ==> x.1 == (Span { start: 0, end: text@.len() as usize })
            && rule_within(x.0, text@.len() as nat),
        line_kind(text@) == LineKind::Rule ==> (r.0 is Some <==> rule_s(text@) is Some),
        r.0 matches Some(x) ==> rule_v(x.0) == rule_s(text@)->0,
        line_kind(text@) == LineKind::Rule && r.0 is None ==> r.1@.len() > 0,
        diagnostics_within(r.1@, text@.len() as nat),
{
    match classify_line(text) {
        LineKind::Rule => Rule::parser(text),
        _ => (None, Vec::new()),
    }
}

} // verus!
