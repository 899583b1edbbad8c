use vstd::prelude::*;

use crate::header::{ip_text, Header, IpAddress, NetworkAddress, NetworkDirection, NetworkPort};
use crate::net::{ipv4_net_bounds, ipv6_net_bounds, v4_hostmask, v4_netmask, v4_value, v6_hostmask, v6_netmask};
use crate::options::RuleOption;
use crate::rule::{Rule, AST};
use crate::span::{Span, Spanned};
use crate::suricata::{record_of, KeywordMap};
use crate::text::{decimal, push_char, push_decimal, push_str, push_string};

verus! {

/// The IPv4 address whose 32-bit value is `n`.
pub open spec fn v4_of(n: u32) -> IpAddress {
    IpAddress::V4(
        (n / 16777216) as u8,
        ((n / 65536) % 256) as u8,
        ((n / 256) % 256) as u8,
        (n % 256) as u8,
    )
}

/// The first and last address of a CIDR range, where the mask is a valid
/// prefix length for the address.
pub open spec fn cidr_bounds(ip: IpAddress, mask: u8) -> Option<(IpAddress, IpAddress)> {
    match ip {
        IpAddress::V4(a, b, c, d) => if mask > 32 {
            None
        } else {
            let v = v4_value(a, b, c, d) as u32;
            Some((v4_of(v & v4_netmask(mask)), v4_of(v | v4_hostmask(mask))))
        },
        IpAddress::V6(v) => if mask > 128 {
            None
        } else {
            Some((IpAddress::V6(v & v6_netmask(mask)), IpAddress::V6(v | v6_hostmask(mask))))
        },
    }
}

/// The hover text of a CIDR range: `{cidr} — {network} to {broadcast}`.
pub open spec fn cidr_text(ip: IpAddress, mask: u8, first: IpAddress, last: IpAddress) -> Seq<char> {
    ip_text(ip) + seq!['/'] + decimal(mask as nat) + seq![' ', '—', ' '] + ip_text(first) + seq![
        ' ',
        't',
        'o',
        ' ',
    ] + ip_text(last)
}

/// The hover of an address at offset `col`: only a CIDR range has one.
pub open spec fn address_hover(a: NetworkAddress, col: usize) -> Option<(Seq<char>, Span)>
    decreases a,
{
    match a {
        NetworkAddress::CIDR(ip, mask) => match cidr_bounds(ip.0, mask.0) {
            Some((first, last)) => Some(
                (cidr_text(ip.0, mask.0, first, last), Span { start: ip.1.start, end: mask.1.end }),
            ),
            None => None,
        },
        NetworkAddress::IPGroup(g) => group_hover(g@, col),
        NetworkAddress::NegIP(b) => address_hover(b.0, col),
        _ => None,
    }
}

/// The hover of the first member of a group whose span holds `col`.
pub open spec fn group_hover(g: Seq<Spanned<NetworkAddress>>, col: usize) -> Option<(Seq<char>, Span)>
    decreases g,
{
    if g.len() == 0 {
        None
    } else if g[0].1.spec_contains(col as int) {
        address_hover(g[0].0, col)
    } else {
        group_hover(g.drop_first(), col)
    }
}

/// The hover text of a keyword of the dictionary: its name in bold, its
/// description and the link to its documentation.
pub open spec fn keyword_text(keywords: KeywordMap, name: Seq<char>) -> Option<Seq<char>> {
    match keywords.lookup(name) {
        None => None,
        Some(k) => {
            let r = record_of(k);
            Some(
                seq!['*', '*'] + r.name@ + seq!['*', '*', '\n', '\n'] + r.description@ + seq!['\n', '\n']
                    + "*Documentation: "@ + r.documentation@ + seq!['*'],
            )
        },
    }
}

/// The hover of a header at offset `col`: that of the first part whose span
/// holds it, where only addresses have one.
pub open spec fn header_hover(h: Header, col: usize) -> Option<(Seq<char>, Span)> {
    if h.source is Some && (h.source->0).1.spec_contains(col as int) {
        address_hover((h.source->0).0, col)
    } else if h.source_port is Some && (h.source_port->0).1.spec_contains(col as int) {
        None
    } else if h.direction is Some && (h.direction->0).1.spec_contains(col as int) {
        None
    } else if h.destination is Some && (h.destination->0).1.spec_contains(col as int) {
        address_hover((h.destination->0).0, col)
    } else {
        None
    }
}

/// The hover of an option at offset `col`: the keyword's documentation, over
/// the keyword's own span, where `col` is on the keyword.
pub open spec fn option_hover(o: RuleOption, col: usize, keywords: KeywordMap) -> Option<(Seq<char>, Span)> {
    let k = crate::options::option_keyword(o);
    if k.1.spec_contains(col as int) {
        match keyword_text(keywords, k.0@) {
            Some(t) => Some((t, k.1)),
            None => None,
        }
    } else {
        None
    }
}

/// The hover of the first option whose span holds `col`.
pub open spec fn options_hover(os: Seq<Spanned<RuleOption>>, col: usize, keywords: KeywordMap) -> Option<(Seq<char>, Span)>
    decreases os.len(),
{
    if os.len() == 0 {
        None
    } else if os[0].1.spec_contains(col as int) {
        option_hover(os[0].0, col, keywords)
    } else {
        options_hover(os.drop_first(), col, keywords)
    }
}

/// The hover of a rule at offset `col`: in the header, the header's; else that
/// of the option there.
pub open spec fn rule_hover(r: Rule, col: usize, keywords: KeywordMap) -> Option<(Seq<char>, Span)> {
    if r.header.1.spec_contains(col as int) {
        header_hover(r.header.0, col)
    } else {
        match r.options {
            Some(os) => options_hover(os@, col, keywords),
            None => None,
        }
    }
}

/// A hover result as plain values.
pub open spec fn hover_view(h: Option<Spanned<String>>) -> Option<(Seq<char>, Span)> {
    match h {
        Some(x) => Some((x.0@, x.1)),
        None => None,
    }
}

/// Something that can describe what lies at an offset.
pub trait Hover {
    /// What is shown at offset `col`, and the span it is about.
    spec fn hover_spec(&self, col: usize, keywords: KeywordMap) -> Option<(Seq<char>, Span)>;

    /// What is shown at offset `col`, and the span it is about.
    fn get_hover(&self, col: &usize, keywords: &KeywordMap) -> (r: Option<Spanned<String>>)
        requires
            keywords.wf(),
        ensures
            hover_view(r) == self.hover_spec(*col, *keywords),
    ;
}

fn v4_to_u32(a: u8, b: u8, c: u8, d: u8) -> (r: u32)
    ensures
        r as int == v4_value(a, b, c, d),
{
    assert(a as int * 16777216 + b as int * 65536 + c as int * 256 + d as int <= 0xffff_ffff) by (nonlinear_arith)
        requires a <= 255, b <= 255, c <= 255, d <= 255;
    a as u32 * 16777216 + b as u32 * 65536 + c as u32 * 256 + d as u32
}

fn u32_to_v4(n: u32) -> (r: IpAddress)
    ensures
        r == v4_of(n),
{
    assert(n / 16777216 <= 255) by (nonlinear_arith)
        requires n <= 0xffff_ffff;
    IpAddress::V4((n / 16777216) as u8, ((n / 65536) % 256) as u8, ((n / 256) % 256) as u8, (n % 256) as u8)
}

/// The first and last address of a CIDR range, by `ipnet`'s arithmetic.
pub fn get_cidr_bounds(ip: &IpAddress, mask: u8) -> (r: Option<(IpAddress, IpAddress)>)
    ensures
        r == cidr_bounds(*ip, mask),
{
    match ip {
        IpAddress::V4(a, b, c, d) => {
            let v = v4_to_u32(*a, *b, *c, *d);
            match ipv4_net_bounds(v, mask) {
                Some((n, bc)) => Some((u32_to_v4(n), u32_to_v4(bc))),
                None => None,
            }
        },
        IpAddress::V6(v) => match ipv6_net_bounds(*v, mask) {
            Some((n, bc)) => Some((IpAddress::V6(n), IpAddress::V6(bc))),
            None => None,
        },
    }
}

fn cidr_hover(ip: &Spanned<IpAddress>, mask: &Spanned<u8>) -> (r: Option<Spanned<String>>)
    ensures
        hover_view(r) == address_hover(NetworkAddress::CIDR(*ip, *mask), 0),
{
    match get_cidr_bounds(&ip.0, mask.0) {
        Some((first, last)) => {
            let mut t = String::new();
            crate::header::write_ip(&ip.0, &mut t);
            push_char(&mut t, '/');
            push_decimal(&mut t, mask.0 as u64);
            push_char(&mut t, ' ');
            push_char(&mut t, '—');
            push_char(&mut t, ' ');
            crate::header::write_ip(&first, &mut t);
            push_char(&mut t, ' ');
            push_char(&mut t, 't');
            push_char(&mut t, 'o');
            push_char(&mut t, ' ');
            crate::header::write_ip(&last, &mut t);
            assert(t@ =~= cidr_text(ip.0, mask.0, first, last));
            Some((t, Span { start: ip.1.start, end: mask.1.end }))
        },
        None => None,
    }
}

/// The hover text of a keyword of the dictionary, over the span `span`.
pub fn get_contents_for_keyword(keyword: &String, keywords: &KeywordMap, span: &Span) -> (r: Option<Spanned<String>>)
    requires
        keywords.wf(),
    ensures
        hover_view(r) == (match keyword_text(*keywords, keyword@) {
            Some(t) => Some((t, *span)),
            None => None,
        }),
{
    match keywords.get(keyword) {
        Some(k) => {
            let record = k.record();
            let mut t = String::new();
            push_char(&mut t, '*');
            push_char(&mut t, '*');
            push_string(&mut t, &record.name);
            push_char(&mut t, '*');
            push_char(&mut t, '*');
            push_char(&mut t, '\n');
            push_char(&mut t, '\n');
            push_string(&mut t, &record.description);
            push_char(&mut t, '\n');
            push_char(&mut t, '\n');
            push_str(&mut t, "*Documentation: ");
            push_string(&mut t, &record.documentation);
            push_char(&mut t, '*');
            Some((t, *span))
        },
        None => None,
    }
}

impl Hover for NetworkAddress {
    open spec fn hover_spec(&self, col: usize, keywords: KeywordMap) -> Option<(Seq<char>, Span)> {
        address_hover(*self, col)
    }

    fn get_hover(&self, col: &usize, keywords: &KeywordMap) -> (r: Option<Spanned<String>>)
        decreases self,
    {
        match self {
            NetworkAddress::CIDR(ip, mask) => cidr_hover(ip, mask),
            NetworkAddress::IPGroup(group) => {
                assert(group@.skip(0) == group@);
                let mut i: usize = 0;
                while i < group.len()
                    invariant
                        *self == NetworkAddress::IPGroup(*group),
                        keywords.wf(),
                        i <= group@.len(),
                        group_hover(group@, *col) == group_hover(group@.skip(i as int), *col),
                    decreases group@.len() - i,
                {
                    assert(group@.skip(i as int).drop_first() == group@.skip(i as int + 1));
                    assert(group@.skip(i as int)[0] == group@[i as int]);
                    if group[i].1.contains(*col) {
                        proof {
                            assert(decreases_to!(*self => self->IPGroup_0));
                            assert(decreases_to!(*group => group[i as int]));
                            assert(decreases_to!(group[i as int] => group[i as int].0));
                        }
                        return group[i].0.get_hover(col, keywords);
                    }
                    i = i + 1;
                }
                None
            },
            NetworkAddress::NegIP(inner) => inner.0.get_hover(col, keywords),
            _ => None,
        }
    }
}

impl Hover for NetworkPort {
    open spec fn hover_spec(&self, col: usize, keywords: KeywordMap) -> Option<(Seq<char>, Span)> {
        None
    }

    fn get_hover(&self, col: &usize, keywords: &KeywordMap) -> (r: Option<Spanned<String>>) {
        None
    }
}

impl Hover for NetworkDirection {
    open spec fn hover_spec(&self, col: usize, keywords: KeywordMap) -> Option<(Seq<char>, Span)> {
        None
    }

    fn get_hover(&self, col: &usize, keywords: &KeywordMap) -> (r: Option<Spanned<String>>) {
        None
    }
}

impl Hover for Header {
    open spec fn hover_spec(&self, col: usize, keywords: KeywordMap) -> Option<(Seq<char>, Span)> {
        header_hover(*self, col)
    }

    fn get_hover(&self, col: &usize, keywords: &KeywordMap) -> (r: Option<Spanned<String>>) {
        if let Some((source, span)) = &self.source {
            if span.contains(*col) {
                return source.get_hover(col, keywords);
            }
        }
        if let Some((source_port, span)) = &self.source_port {
            if span.contains(*col) {
                return source_port.get_hover(col, keywords);
            }
        }
        if let Some((direction, span)) = &self.direction {
            if span.contains(*col) {
                return direction.get_hover(col, keywords);
            }
        }
        if let Some((destination, span)) = &self.destination {
            if span.contains(*col) {
                return destination.get_hover(col, keywords);
            }
        }
        None
    }
}

impl Hover for RuleOption {
    open spec fn hover_spec(&self, col: usize, keywords: KeywordMap) -> Option<(Seq<char>, Span)> {
        option_hover(*self, col, keywords)
    }

    fn get_hover(&self, col: &usize, keywords: &KeywordMap) -> (r: Option<Spanned<String>>) {
        match self {
            RuleOption::KeywordPair((keyword, span), _) => {
                if span.contains(*col) {
                    get_contents_for_keyword(keyword, keywords, span)
                } else {
                    None
                }
            },
            RuleOption::Buffer((keyword, span)) => {
                if span.contains(*col) {
                    get_contents_for_keyword(keyword, keywords, span)
                } else {
                    None
                }
            },
        }
    }
}

impl Hover for Rule {
    open spec fn hover_spec(&self, col: usize, keywords: KeywordMap) -> Option<(Seq<char>, Span)> {
        rule_hover(*self, col, keywords)
    }

    fn get_hover(&self, col: &usize, keywords: &KeywordMap) -> (r: Option<Spanned<String>>) {
        if self.header.1.contains(*col) {
            return self.header.0.get_hover(col, keywords);
        }
        if let Some(os) = &self.options {
            assert(os@.skip(0) == os@);
            let mut i: usize = 0;
            while i < os.len()
                invariant
                    keywords.wf(),
                    self.options == Some(*os),
                    !self.header.1.spec_contains(*col as int),
                    i <= os@.len(),
                    options_hover(os@, *col, *keywords) == options_hover(os@.skip(i as int), *col, *keywords),
                decreases os@.len() - i,
            {
                assert(os@.skip(i as int).drop_first() == os@.skip(i as int + 1));
                assert(os@.skip(i as int)[0] == os@[i as int]);
                if os[i].1.contains(*col) {
                    return os[i].0.get_hover(col, keywords);
                }
                i = i + 1;
            }
        }
        None
    }
}

/// A bare `any` of the header covers offset `col`: as the source or
/// destination address, or as the source or destination port.
pub open spec fn any_part_at(h: Header, col: usize) -> bool {
    ||| (h.source matches Some(a) && a.0 is Any && a.1.spec_contains(col as int))
    ||| (h.source_port matches Some(p) && p.0 is Any && p.1.spec_contains(col as int))
    ||| (h.destination matches Some(a) && a.0 is Any && a.1.spec_contains(col as int))
    ||| (h.destination_port matches Some(p) && p.0 is Any && p.1.spec_contains(col as int))
}

/// Hovering over a bare `any` shows nothing, in every rule whose header parts
/// lie inside the header and follow each other without overlapping, as every
/// rule that is read does.
pub proof fn lemma_hover_on_any(r: Rule, col: usize, keywords: KeywordMap)
    requires
        crate::header::header_nested(r.header.0, r.header.1),
        crate::header::header_ordered(r.header.0),
        any_part_at(r.header.0, col),
    ensures
        rule_hover(r, col, keywords) is None,
{
    let h = r.header.0;
    assert(r.header.1.spec_contains(col as int));
}

/// What is shown at `(line, col)` of the document, and the span it is about;
/// nothing where no rule is on that line.
pub fn get_hover(ast: &AST, line: &u32, col: &usize, keywords: &KeywordMap) -> (r: Option<Spanned<String>>)
    requires
        ast.wf(),
        keywords.wf(),
    ensures
        hover_view(r) == (match ast.rule_at(*line) {
            Some(entry) => rule_hover(entry.0, *col, *keywords),
            None => None,
        }),
{
    match ast.get(*line) {
        Some(entry) => entry.0.get_hover(col, keywords),
        None => None,
    }
}

} // verus!
