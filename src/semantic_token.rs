use vstd::prelude::*;

use crate::header::{
    address_group_within, address_within, header_within, port_group_within, port_within, Header,
    NetworkAddress, NetworkPort,
};
use crate::options::{OptionsVariable, RuleOption};
use crate::rule::{option_entry_within, option_within, rule_within, value_within, Rule};
use crate::span::{Span, Spanned};

verus! {

/// A token to highlight: its start offset in the document, its length and
/// its kind (an index into the legend of token kinds).
#[derive(Clone, Copy, Debug, PartialEq, Eq, Structural)]
pub struct ImCompleteSemanticToken {
    pub start: usize,
    pub length: usize,
    pub token_type: usize,
}

/// Kinds of tokens, in the order of the legend that the editor is given.
pub const TOKEN_STRING: usize = 0;
pub const TOKEN_COMMENT: usize = 1;
pub const TOKEN_FUNCTION: usize = 2;
pub const TOKEN_VARIABLE: usize = 3;
pub const TOKEN_NUMBER: usize = 4;
pub const TOKEN_KEYWORD: usize = 5;
pub const TOKEN_OPERATOR: usize = 6;
pub const TOKEN_PROPERTY: usize = 7;
pub const TOKEN_STRUCT: usize = 8;

/// The token for a span of a line that starts at offset `col`.
pub open spec fn tok(s: Span, col: nat, kind: usize) -> ImCompleteSemanticToken {
    ImCompleteSemanticToken {
        start: (s.start + col) as usize,
        length: (s.end - s.start) as usize,
        token_type: kind,
    }
}

/// The offset of the `!` of a negation whose negated part has the span `s`:
/// the character just before that part.
pub open spec fn bang_of(s: Span) -> nat {
    if s.start > 0 { (s.start - 1) as nat } else { 0 }
}

/// The one-character token of the `!` of a negation whose negated part has
/// the span `s`.
pub open spec fn operator_tok(s: Span, col: nat) -> ImCompleteSemanticToken {
    ImCompleteSemanticToken { start: (bang_of(s) + col) as usize, length: 1, token_type: TOKEN_OPERATOR }
}

/// The tokens of an address: literals, variables, operators, group members.
pub open spec fn address_tokens(a: NetworkAddress, col: nat) -> Seq<ImCompleteSemanticToken>
    decreases a,
{
    match a {
        NetworkAddress::Any(s) => seq![tok(s, col, TOKEN_STRUCT)],
        NetworkAddress::IPAddr(ip) => seq![tok(ip.1, col, TOKEN_KEYWORD)],
        NetworkAddress::CIDR(ip, mask) => seq![tok(ip.1, col, TOKEN_KEYWORD), tok(mask.1, col, TOKEN_NUMBER)],
        NetworkAddress::IPGroup(g) => address_group_tokens(g@, col),
        NetworkAddress::NegIP(b) => seq![operator_tok(b.1, col)] + address_tokens(b.0, col),
        NetworkAddress::IPVariable(v) => seq![tok(v.1, col, TOKEN_VARIABLE)],
    }
}

/// The tokens of the members of an address group, member after member.
pub open spec fn address_group_tokens(g: Seq<Spanned<NetworkAddress>>, col: nat) -> Seq<ImCompleteSemanticToken>
    decreases g,
{
    if g.len() == 0 {
        seq![]
    } else {
        address_group_tokens(g.drop_last(), col) + address_tokens(g.last().0, col)
    }
}

/// The tokens of a port: numbers, variables, operators, the tokens of group members.
pub open spec fn port_tokens(p: NetworkPort, col: nat) -> Seq<ImCompleteSemanticToken>
    decreases p,
{
    match p {
        NetworkPort::Any(s) => seq![tok(s, col, TOKEN_KEYWORD)],
        NetworkPort::Port(x) => seq![tok(x.1, col, TOKEN_NUMBER)],
        NetworkPort::PortGroup(g) => port_group_tokens(g@, col),
        NetworkPort::PortRange(from, to) => seq![tok(from.1, col, TOKEN_NUMBER), tok(to.1, col, TOKEN_NUMBER)],
        NetworkPort::PortOpenRange(x, _) => seq![tok(x.1, col, TOKEN_NUMBER)],
        NetworkPort::NegPort(b) => seq![operator_tok(b.1, col)] + port_tokens(b.0, col),
        NetworkPort::PortVar(v) => seq![tok(v.1, col, TOKEN_VARIABLE)],
    }
}

/// The tokens of the members of a port group, member after member.
pub open spec fn port_group_tokens(g: Seq<Spanned<NetworkPort>>, col: nat) -> Seq<ImCompleteSemanticToken>
    decreases g,
{
    if g.len() == 0 {
        seq![]
    } else {
        port_group_tokens(g.drop_last(), col) + port_tokens(g.last().0, col)
    }
}

/// The token of a present span, of the given kind.
pub open spec fn opt_tok<T>(x: Option<Spanned<T>>, col: nat, kind: usize) -> Seq<ImCompleteSemanticToken> {
    match x {
        Some(p) => seq![tok(p.1, col, kind)],
        None => seq![],
    }
}

/// The tokens of a present address.
pub open spec fn opt_address_tokens(x: Option<Spanned<NetworkAddress>>, col: nat) -> Seq<ImCompleteSemanticToken> {
    match x {
        Some(a) => address_tokens(a.0, col),
        None => seq![],
    }
}

/// The tokens of a present port.
pub open spec fn opt_port_tokens(x: Option<Spanned<NetworkPort>>, col: nat) -> Seq<ImCompleteSemanticToken> {
    match x {
        Some(p) => port_tokens(p.0, col),
        None => seq![],
    }
}

/// The tokens of a header: protocol, addresses, ports and direction in order.
pub open spec fn header_tokens(h: Header, col: nat) -> Seq<ImCompleteSemanticToken> {
    opt_tok(h.protocol, col, TOKEN_FUNCTION) + opt_address_tokens(h.source, col) + opt_port_tokens(
        h.source_port,
        col,
    ) + opt_tok(h.direction, col, TOKEN_STRUCT) + opt_address_tokens(h.destination, col)
        + opt_port_tokens(h.destination_port, col)
}

fn push_opt_tok<T>(tokens: &mut Vec<ImCompleteSemanticToken>, x: &Option<Spanned<T>>, col: usize, kind: usize)
    requires
        x matches Some(p) ==> p.1.within(room(col)),
    ensures
        final(tokens)@ == old(tokens)@ + opt_tok(*x, col as nat, kind),
{
    if let Some(p) = x {
        push_tok(tokens, p.1, col, kind);
    }
}

fn push_opt_address(tokens: &mut Vec<ImCompleteSemanticToken>, x: &Option<Spanned<NetworkAddress>>, col: &usize)
    requires
        x matches Some(a) ==> address_within(a.0, room(*col)),
    ensures
        final(tokens)@ == old(tokens)@ + opt_address_tokens(*x, *col as nat),
{
    if let Some(a) = x {
        a.0.get_semantics(col, tokens);
    }
}

fn push_opt_port(tokens: &mut Vec<ImCompleteSemanticToken>, x: &Option<Spanned<NetworkPort>>, col: &usize)
    requires
        x matches Some(p) ==> port_within(p.0, room(*col)),
    ensures
        final(tokens)@ == old(tokens)@ + opt_port_tokens(*x, *col as nat),
{
    if let Some(p) = x {
        p.0.get_semantics(col, tokens);
    }
}

/// The token of an option value: a string, or a property for a bare value.
pub open spec fn value_tokens(v: OptionsVariable, col: nat) -> Seq<ImCompleteSemanticToken> {
    match v {
        OptionsVariable::String(s) => seq![tok(s.1, col, TOKEN_STRING)],
        OptionsVariable::Other(s) => seq![tok(s.1, col, TOKEN_PROPERTY)],
    }
}

/// The tokens of a list of option values.
pub open spec fn value_list_tokens(vs: Seq<Spanned<OptionsVariable>>, col: nat) -> Seq<ImCompleteSemanticToken>
    decreases vs.len(),
{
    if vs.len() == 0 {
        seq![]
    } else {
        value_list_tokens(vs.drop_last(), col) + value_tokens(vs.last().0, col)
    }
}

/// The tokens of an option: its keyword, then its values.
pub open spec fn option_tokens(o: RuleOption, col: nat) -> Seq<ImCompleteSemanticToken> {
    match o {
        RuleOption::KeywordPair(k, vs) => seq![tok(k.1, col, TOKEN_KEYWORD)] + value_list_tokens(vs@, col),
        RuleOption::Buffer(k) => seq![tok(k.1, col, TOKEN_KEYWORD)],
    }
}

/// The tokens of a list of options.
pub open spec fn option_list_tokens(os: Seq<Spanned<RuleOption>>, col: nat) -> Seq<ImCompleteSemanticToken>
    decreases os.len(),
{
    if os.len() == 0 {
        seq![]
    } else {
        option_list_tokens(os.drop_last(), col) + option_tokens(os.last().0, col)
    }
}

/// The tokens of a rule: its action, its header, its options.
pub open spec fn rule_tokens(r: Rule, col: nat) -> Seq<ImCompleteSemanticToken> {
    (match r.action {
        Some(a) => seq![tok(a.1, col, TOKEN_FUNCTION)],
        None => seq![],
    }) + header_tokens(r.header.0, col) + (match r.options {
        Some(os) => option_list_tokens(os@, col),
        None => seq![],
    })
}

/// The room left in `usize` after offset `col`.
pub open spec fn room(col: usize) -> nat {
    (usize::MAX - col) as nat
}

fn push_tok(tokens: &mut Vec<ImCompleteSemanticToken>, s: Span, col: usize, kind: usize)
    requires
        s.within(room(col)),
    ensures
        final(tokens)@ == old(tokens)@.push(tok(s, col as nat, kind)),
{
    tokens.push(ImCompleteSemanticToken { start: s.start + col, length: s.end - s.start, token_type: kind });
}

fn push_operator(tokens: &mut Vec<ImCompleteSemanticToken>, s: Span, col: usize)
    requires
        s.within(room(col)),
    ensures
        final(tokens)@ == old(tokens)@.push(operator_tok(s, col as nat)),
{
    let bang = if s.start > 0 { s.start - 1 } else { 0 };
    tokens.push(ImCompleteSemanticToken { start: bang + col, length: 1, token_type: TOKEN_OPERATOR });
}

/// The members of a well-placed address group are well placed.
proof fn lemma_address_group_member(g: Seq<Spanned<NetworkAddress>>, n: nat, i: int)
    requires
        address_group_within(g, n),
        0 <= i < g.len(),
    ensures
        g[i].1.within(n),
        address_within(g[i].0, n),
    decreases g.len(),
{
    if i < g.len() - 1 {
        lemma_address_group_member(g.drop_last(), n, i);
    }
}

/// The members of a well-placed port group are well placed.
proof fn lemma_port_group_member(g: Seq<Spanned<NetworkPort>>, n: nat, i: int)
    requires
        port_group_within(g, n),
        0 <= i < g.len(),
    ensures
        g[i].1.within(n),
        port_within(g[i].0, n),
    decreases g.len(),
{
    if i < g.len() - 1 {
        lemma_port_group_member(g.drop_last(), n, i);
    }
}

/// Something that yields highlighting tokens.
pub trait Semantics {
    /// The tokens, for a line that starts at offset `col`.
    spec fn tokens(&self, col: nat) -> Seq<ImCompleteSemanticToken>;

    /// Every span lies inside the first `n` offsets.
    spec fn spans_within(&self, n: nat) -> bool;

    /// Appends the tokens, for a line that starts at offset `col`.
    fn get_semantics(&self, col: &usize, semantic_tokens: &mut Vec<ImCompleteSemanticToken>)
        requires
            self.spans_within(room(*col)),
        ensures
            final(semantic_tokens)@ == old(semantic_tokens)@ + self.tokens(*col as nat),
    ;
}

impl Semantics for NetworkAddress {
    open spec fn tokens(&self, col: nat) -> Seq<ImCompleteSemanticToken> {
        address_tokens(*self, col)
    }

    open spec fn spans_within(&self, n: nat) -> bool {
        address_within(*self, n)
    }

    fn get_semantics(&self, col: &usize, semantic_tokens: &mut Vec<ImCompleteSemanticToken>)
        decreases self,
    {
        let ghost n = room(*col);
        match self {
            NetworkAddress::Any(s) => push_tok(semantic_tokens, *s, *col, TOKEN_STRUCT),
            NetworkAddress::IPAddr(ip) => push_tok(semantic_tokens, ip.1, *col, TOKEN_KEYWORD),
            NetworkAddress::CIDR(ip, mask) => {
                push_tok(semantic_tokens, ip.1, *col, TOKEN_KEYWORD);
                push_tok(semantic_tokens, mask.1, *col, TOKEN_NUMBER);
            },
            NetworkAddress::IPGroup(group) => {
                let ghost start = semantic_tokens@;
                let mut i: usize = 0;
                while i < group.len()
                    invariant
                        *self == NetworkAddress::IPGroup(*group),
                        i <= group@.len(),
                        n == room(*col),
                        address_group_within(group@, n),
                        semantic_tokens@ == start + address_group_tokens(group@.take(i as int), *col as nat),
                    decreases group@.len() - i,
                {
                    assert(group@.take(i as int + 1).drop_last() == group@.take(i as int));
                    proof {
                        lemma_address_group_member(group@, n, i as int);
                        assert(decreases_to!(*self => self->IPGroup_0));
                        assert(decreases_to!(*group => group[i as int]));
                        assert(decreases_to!(group[i as int] => group[i as int].0));
                    }
                    group[i].0.get_semantics(col, semantic_tokens);
                    i = i + 1;
                }
                assert(group@.take(group@.len() as int) == group@);
            },
            NetworkAddress::NegIP(inner) => {
                push_operator(semantic_tokens, inner.1, *col);
                inner.0.get_semantics(col, semantic_tokens);
            },
            NetworkAddress::IPVariable(v) => push_tok(semantic_tokens, v.1, *col, TOKEN_VARIABLE),
        }
    }
}

impl Semantics for NetworkPort {
    open spec fn tokens(&self, col: nat) -> Seq<ImCompleteSemanticToken> {
        port_tokens(*self, col)
    }

    open spec fn spans_within(&self, n: nat) -> bool {
        port_within(*self, n)
    }

    fn get_semantics(&self, col: &usize, semantic_tokens: &mut Vec<ImCompleteSemanticToken>)
        decreases self,
    {
        let ghost n = room(*col);
        match self {
            NetworkPort::Any(s) => push_tok(semantic_tokens, *s, *col, TOKEN_KEYWORD),
            NetworkPort::Port(x) => push_tok(semantic_tokens, x.1, *col, TOKEN_NUMBER),
            NetworkPort::PortGroup(group) => {
                let ghost start = semantic_tokens@;
                let mut i: usize = 0;
                while i < group.len()
                    invariant
                        *self == NetworkPort::PortGroup(*group),
                        i <= group@.len(),
                        n == room(*col),
                        port_group_within(group@, n),
                        semantic_tokens@ == start + port_group_tokens(group@.take(i as int), *col as nat),
                    decreases group@.len() - i,
                {
                    assert(group@.take(i as int + 1).drop_last() == group@.take(i as int));
                    proof {
                        lemma_port_group_member(group@, n, i as int);
                        assert(decreases_to!(*self => self->PortGroup_0));
                        assert(decreases_to!(*group => group[i as int]));
                        assert(decreases_to!(group[i as int] => group[i as int].0));
                    }
                    group[i].0.get_semantics(col, semantic_tokens);
                    i = i + 1;
                }
                assert(group@.take(group@.len() as int) == group@);
            },
            NetworkPort::PortRange(from, to) => {
                push_tok(semantic_tokens, from.1, *col, TOKEN_NUMBER);
                push_tok(semantic_tokens, to.1, *col, TOKEN_NUMBER);
            },
            NetworkPort::PortOpenRange(x, _) => push_tok(semantic_tokens, x.1, *col, TOKEN_NUMBER),
            NetworkPort::NegPort(inner) => {
                push_operator(semantic_tokens, inner.1, *col);
                inner.0.get_semantics(col, semantic_tokens);
            },
            NetworkPort::PortVar(v) => push_tok(semantic_tokens, v.1, *col, TOKEN_VARIABLE),
        }
    }
}

impl Semantics for Header {
    open spec fn tokens(&self, col: nat) -> Seq<ImCompleteSemanticToken> {
        header_tokens(*self, col)
    }

    open spec fn spans_within(&self, n: nat) -> bool {
        header_within(*self, n)
    }

    #[verifier::rlimit(50)]
    fn get_semantics(&self, col: &usize, semantic_tokens: &mut Vec<ImCompleteSemanticToken>) {
        let ghost c = *col as nat;
        let ghost s0 = semantic_tokens@;
        push_opt_tok(semantic_tokens, &self.protocol, *col, TOKEN_FUNCTION);
        let ghost s1 = semantic_tokens@;
        push_opt_address(semantic_tokens, &self.source, col);
        let ghost s2 = semantic_tokens@;
        push_opt_port(semantic_tokens, &self.source_port, col);
        let ghost s3 = semantic_tokens@;
        push_opt_tok(semantic_tokens, &self.direction, *col, TOKEN_STRUCT);
        let ghost s4 = semantic_tokens@;
        push_opt_address(semantic_tokens, &self.destination, col);
        let ghost s5 = semantic_tokens@;
        push_opt_port(semantic_tokens, &self.destination_port, col);
        proof {
            let a = opt_tok(self.protocol, c, TOKEN_FUNCTION);
            let b = opt_address_tokens(self.source, c);
            let d = opt_port_tokens(self.source_port, c);
            let e = opt_tok(self.direction, c, TOKEN_STRUCT);
            let f = opt_address_tokens(self.destination, c);
            let g = opt_port_tokens(self.destination_port, c);
            assert(s1 == s0 + a);
            assert(s2 == s0 + (a + b));
            assert(s3 == s0 + (a + b + d));
            assert(s4 == s0 + (a + b + d + e));
            assert(s5 == s0 + (a + b + d + e + f));
            assert(semantic_tokens@ == s0 + (a + b + d + e + f + g));
        }
    }
}

impl Semantics for OptionsVariable {
    open spec fn tokens(&self, col: nat) -> Seq<ImCompleteSemanticToken> {
        value_tokens(*self, col)
    }

    open spec fn spans_within(&self, n: nat) -> bool {
        crate::rule::value_span(*self).within(n)
    }

    fn get_semantics(&self, col: &usize, semantic_tokens: &mut Vec<ImCompleteSemanticToken>) {
        match self {
            OptionsVariable::String(s) => push_tok(semantic_tokens, s.1, *col, TOKEN_STRING),
            OptionsVariable::Other(s) => push_tok(semantic_tokens, s.1, *col, TOKEN_PROPERTY),
        }
    }
}

impl Semantics for RuleOption {
    open spec fn tokens(&self, col: nat) -> Seq<ImCompleteSemanticToken> {
        option_tokens(*self, col)
    }

    open spec fn spans_within(&self, n: nat) -> bool {
        option_within(*self, n)
    }

    fn get_semantics(&self, col: &usize, semantic_tokens: &mut Vec<ImCompleteSemanticToken>) {
        let ghost n = room(*col);
        match self {
            RuleOption::KeywordPair(k, values) => {
                push_tok(semantic_tokens, k.1, *col, TOKEN_KEYWORD);
                let ghost start = semantic_tokens@;
                let mut i: usize = 0;
                while i < values.len()
                    invariant
                        i <= values@.len(),
                        n == room(*col),
                        forall|j: int| 0 <= j < values@.len() ==> value_within(#[trigger] values@[j], n),
                        semantic_tokens@ == start + value_list_tokens(values@.take(i as int), *col as nat),
                    decreases values@.len() - i,
                {
                    assert(values@.take(i as int + 1).drop_last() == values@.take(i as int));
                    assert(value_within(values@[i as int], n));
                    values[i].0.get_semantics(col, semantic_tokens);
                    i = i + 1;
                }
                assert(values@.take(values@.len() as int) == values@);
            },
            RuleOption::Buffer(k) => push_tok(semantic_tokens, k.1, *col, TOKEN_KEYWORD),
        }
    }
}

impl Semantics for Rule {
    open spec fn tokens(&self, col: nat) -> Seq<ImCompleteSemanticToken> {
        rule_tokens(*self, col)
    }

    open spec fn spans_within(&self, n: nat) -> bool {
        rule_within(*self, n)
    }

    fn get_semantics(&self, col: &usize, semantic_tokens: &mut Vec<ImCompleteSemanticToken>) {
        let ghost n = room(*col);
        let ghost s0 = semantic_tokens@;
        if let Some(a) = &self.action {
            push_tok(semantic_tokens, a.1, *col, TOKEN_FUNCTION);
        }
        self.header.0.get_semantics(col, semantic_tokens);
        let ghost s1 = semantic_tokens@;
        if let Some(os) = &self.options {
            let mut i: usize = 0;
            while i < os.len()
                invariant
                    i <= os@.len(),
                    n == room(*col),
                    forall|j: int| 0 <= j < os@.len() ==> option_entry_within(#[trigger] os@[j], n),
                    semantic_tokens@ == s1 + option_list_tokens(os@.take(i as int), *col as nat),
                decreases os@.len() - i,
            {
                assert(os@.take(i as int + 1).drop_last() == os@.take(i as int));
                assert(option_entry_within(os@[i as int], n));
                os[i].0.get_semantics(col, semantic_tokens);
                i = i + 1;
            }
            assert(os@.take(os@.len() as int) == os@);
        }
        assert(semantic_tokens@ == s0 + rule_tokens(*self, *col as nat));
    }
}

/// Appends the highlighting tokens of a rule whose line starts at offset `col`.
pub fn semantic_token_from_rule(rule: &Spanned<Rule>, col: &usize, semantic_tokens: &mut Vec<ImCompleteSemanticToken>)
    requires
        rule_within(rule.0, room(*col)),
    ensures
        final(semantic_tokens)@ == old(semantic_tokens)@ + rule_tokens(rule.0, *col as nat),
{
    rule.0.get_semantics(col, semantic_tokens);
}

/// Tokens are ordered by their start offset.
pub open spec fn by_start() -> spec_fn(ImCompleteSemanticToken, ImCompleteSemanticToken) -> bool {
    |a: ImCompleteSemanticToken, b: ImCompleteSemanticToken| a.start <= b.start
}

/// Relies on `slice::sort_by_key`: a stable sort, so equal starts keep their order.
#[verifier::external_body]
pub(crate) fn sort_tokens(tokens: &mut Vec<ImCompleteSemanticToken>)
    ensures
        final(tokens)@ == old(tokens)@.sort_by(by_start()),
{
    tokens.sort_by_key(|t| t.start)
}

/// A token as an editor receives it: relative to the token before it.
#[derive(Clone, Copy, Debug, PartialEq, Eq, Structural)]
pub struct SemanticTokenData {
    pub delta_line: u32,
    pub delta_start: u32,
    pub length: u32,
    pub token_type: u32,
}

/// How many line starts lie at or before `off`.
pub open spec fn starts_before(starts: Seq<usize>, off: usize) -> nat
    decreases starts.len(),
{
    if starts.len() == 0 {
        0
    } else {
        starts_before(starts.drop_last(), off) + if starts.last() <= off { 1nat } else { 0 }
    }
}

/// The line of offset `off`, given the offset at which each line starts.
pub open spec fn line_of(starts: Seq<usize>, off: usize) -> nat {
    if starts_before(starts, off) == 0 { 0 } else { (starts_before(starts, off) - 1) as nat }
}

/// The offset at which line `l` starts; 0 where there is no such line.
pub open spec fn start_of(starts: Seq<usize>, l: nat) -> usize {
    if l < starts.len() { starts[l as int] } else { 0 }
}

/// The line and the column of offset `off`.
pub open spec fn position(starts: Seq<usize>, off: usize) -> (u32, u32) {
    let l = line_of(starts, off);
    let first = start_of(starts, l);
    (l as u32, (if off >= first { off - first } else { 0 }) as u32)
}

/// `a - b`, or nothing where `b` is larger.
pub open spec fn diff(a: u32, b: u32) -> u32 {
    if a >= b { (a - b) as u32 } else { 0 }
}

/// The tokens relative to each other: each one's line against the line
/// before, and its column against the column before where the line is the same.
pub open spec fn encode_spec(tokens: Seq<ImCompleteSemanticToken>, starts: Seq<usize>) -> Seq<SemanticTokenData>
    decreases tokens.len(),
{
    if tokens.len() == 0 {
        seq![]
    } else {
        let rest = tokens.drop_last();
        let t = tokens.last();
        let (line, col) = position(starts, t.start);
        let (pre_line, pre_col) = if rest.len() == 0 { (0u32, 0u32) } else { position(starts, rest.last().start) };
        let delta_line = diff(line, pre_line);
        encode_spec(rest, starts).push(SemanticTokenData {
            delta_line,
            delta_start: if delta_line == 0 { diff(col, pre_col) } else { col },
            length: t.length as u32,
            token_type: t.token_type as u32,
        })
    }
}

/// The line and the column of offset `off`.
fn locate(starts: &Vec<usize>, off: usize) -> (r: (u32, u32))
    ensures
        r == position(starts@, off),
{
    let mut count: usize = 0;
    let mut i: usize = 0;
    while i < starts.len()
        invariant
            i <= starts@.len(),
            count == starts_before(starts@.take(i as int), off),
            count <= i,
        decreases starts@.len() - i,
    {
        assert(starts@.take(i as int + 1).drop_last() == starts@.take(i as int));
        if starts[i] <= off {
            count = count + 1;
        }
        i = i + 1;
    }
    assert(starts@.take(starts@.len() as int) == starts@);
    let l = if count == 0 { 0 } else { count - 1 };
    let first = if l < starts.len() { starts[l] } else { 0 };
    let col: usize = if off >= first { off - first } else { 0 };
    (#[verifier::truncate] (l as u32), #[verifier::truncate] (col as u32))
}

/// The tokens as an editor receives them: sorted by start, each relative to
/// the one before. `line_starts` holds the offset at which each line starts.
pub fn encode_tokens(tokens: &Vec<ImCompleteSemanticToken>, line_starts: &Vec<usize>) -> (r: Vec<SemanticTokenData>)
    ensures
        r@ == encode_spec(tokens@.sort_by(by_start()), line_starts@),
{
    let mut sorted = tokens.clone();
    assert(sorted@ == tokens@);
    sort_tokens(&mut sorted);
    let mut out: Vec<SemanticTokenData> = Vec::new();
    let mut pre_line: u32 = 0;
    let mut pre_col: u32 = 0;
    let mut i: usize = 0;
    while i < sorted.len()
        invariant
            i <= sorted@.len(),
            out@ == encode_spec(sorted@.take(i as int), line_starts@),
            i > 0 ==> (pre_line, pre_col) == position(line_starts@, sorted@[i - 1].start),
            i == 0 ==> pre_line == 0 && pre_col == 0,
        decreases sorted@.len() - i,
    {
        let t = sorted[i];
        let (line, col) = locate(line_starts, t.start);
        let delta_line = if line >= pre_line { line - pre_line } else { 0 };
        let delta_start = if delta_line == 0 {
            if col >= pre_col { col - pre_col } else { 0 }
        } else {
            col
        };
        out.push(SemanticTokenData { delta_line, delta_start, length: #[verifier::truncate] (t.length as u32), token_type: #[verifier::truncate] (t.token_type as u32) });
        proof {
            let s = sorted@.take(i as int + 1);
            assert(s.drop_last() == sorted@.take(i as int));
            assert(s.last() == t);
            if i > 0 {
                assert(s.drop_last().last() == sorted@[i - 1]);
            }
        }
        pre_line = line;
        pre_col = col;
        i = i + 1;
    }
    assert(sorted@.take(sorted@.len() as int) == sorted@);
    out
}

} // verus!
