use vstd::prelude::*;

use crate::action::{action_text, Action};
use crate::header::{
    header_text, header_within, Header, NetworkAddress,
    NetworkDirection, NetworkPort,
};
use crate::options::{option_text, RuleOption};
use crate::span::{Span, Spanned};
use crate::text::push_char;

verus! {

/// One rule (signature): action, header and options, each with its span.
/// Rules are equal when they are the same but for their spans and the order
/// of their options.
#[derive(Debug)]
pub struct Rule {
    pub action: Option<Spanned<Action>>,
    pub header: Spanned<Header>,
    pub options: Option<Vec<Spanned<RuleOption>>>,
}

/// The rules of one document, keyed by line number; at most one rule per line.
#[derive(Debug)]
pub struct AST {
    pub rules: Vec<(u32, (Rule, Span))>,
}

/// The texts of a rule's options, each followed by `"; "` but the last, which is
/// followed by `";"`.
pub open spec fn option_list_text(os: Seq<Spanned<RuleOption>>) -> Seq<char>
    decreases os.len(),
{
    if os.len() == 0 {
        seq![]
    } else if os.len() == 1 {
        option_text(os[0].0)
    } else {
        option_list_text(os.drop_last()) + seq![';', ' '] + option_text(os.last().0)
    }
}

/// The canonical text of a rule's option list.
pub open spec fn options_text(os: Option<Vec<Spanned<RuleOption>>>) -> Seq<char> {
    match os {
        None => seq![],
        Some(v) => if v@.len() == 0 {
            seq!['(', ')']
        } else {
            seq!['('] + option_list_text(v@) + seq![';', ')']
        },
    }
}

/// The canonical text of a rule: the action and a space, the header, the options.
pub open spec fn rule_text(r: Rule) -> Seq<char> {
    let action = match r.action {
        Some(a) => action_text(a.0) + seq![' '],
        None => seq![],
    };
    action + header_text(r.header.0) + options_text(r.options)
}

/// Every span of an option lies inside a text of `n` characters.
pub open spec fn option_within(o: RuleOption, n: nat) -> bool {
    match o {
        RuleOption::KeywordPair(k, vs) => k.1.within(n) && forall|i: int|
            0 <= i < vs@.len() ==> value_within(#[trigger] vs@[i], n),
        RuleOption::Buffer(k) => k.1.within(n),
    }
}

/// The span that an option value carries.
pub open spec fn value_span(v: crate::options::OptionsVariable) -> Span {
    match v {
        crate::options::OptionsVariable::String(s) => s.1,
        crate::options::OptionsVariable::Other(s) => s.1,
    }
}

/// The keyword and the values of an option lie inside its span `s`.
pub open spec fn option_nested(o: RuleOption, s: Span) -> bool {
    match o {
        RuleOption::KeywordPair(k, vs) => crate::header::inside(k.1, s) && forall|i: int|
            0 <= i < vs@.len() ==> crate::header::inside(#[trigger] vs@[i].1, s),
        RuleOption::Buffer(k) => crate::header::inside(k.1, s),
    }
}

/// The spans of an option value lie inside a text of `n` characters.
pub open spec fn value_within(v: Spanned<crate::options::OptionsVariable>, n: nat) -> bool {
    v.1.within(n) && value_span(v.0).within(n)
}

/// The spans of an option lie inside a text of `n` characters.
pub open spec fn option_entry_within(o: Spanned<RuleOption>, n: nat) -> bool {
    o.1.within(n) && option_within(o.0, n)
}

/// Every span of the rule is valid and lies inside a text of `n` characters.
pub open spec fn rule_within(r: Rule, n: nat) -> bool {
    &&& (r.action matches Some(a) ==> a.1.within(n))
    &&& r.header.1.within(n)
    &&& header_within(r.header.0, n)
    &&& (r.options matches Some(os) ==> forall|i: int|
        0 <= i < os@.len() ==> option_entry_within(#[trigger] os@[i], n))
}

/// The values present among a source and a destination, source first.
pub open spec fn present<T>(src: Option<T>, dst: Option<T>) -> Seq<T> {
    let a = match src {
        Some(x) => seq![x],
        None => seq![],
    };
    let b = match dst {
        Some(x) => seq![x],
        None => seq![],
    };
    a + b
}

impl AST {
    /// At most one rule per line.
    pub open spec fn wf(self) -> bool {
        forall|i: int, j: int|
            0 <= i < j < self.rules@.len() ==> #[trigger] self.rules@[i].0 != #[trigger] self.rules@[j].0
    }

    /// The rule stored for `line`, if any.
    pub open spec fn rule_at(self, line: u32) -> Option<(Rule, Span)> {
        if exists|i: int| 0 <= i < self.rules@.len() && self.rules@[i].0 == line {
            let i = choose|i: int| 0 <= i < self.rules@.len() && self.rules@[i].0 == line;
            Some(self.rules@[i].1)
        } else {
            None
        }
    }

    /// Whether no line holds two rules.
    pub fn well_formed(&self) -> (r: bool)
        ensures
            r == self.wf(),
    {
        let n = self.rules.len();
        let mut i: usize = 0;
        while i < n
            invariant
                n == self.rules@.len(),
                i <= n,
                forall|a: int, b: int| 0 <= a < b < n && a < i ==> #[trigger] self.rules@[a].0 != #[trigger] self.rules@[b].0,
            decreases n - i,
        {
            let mut j: usize = i + 1;
            while j < n
                invariant
                    n == self.rules@.len(),
                    i < n,
                    i < j <= n,
                    forall|a: int, b: int| 0 <= a < b < n && a < i ==> #[trigger] self.rules@[a].0 != #[trigger] self.rules@[b].0,
                    forall|b: int| i < b < j ==> self.rules@[i as int].0 != #[trigger] self.rules@[b].0,
                decreases n - j,
            {
                if self.rules[i].0 == self.rules[j].0 {
                    return false;
                }
                j = j + 1;
            }
            i = i + 1;
        }
        true
    }

    /// An empty document.
    pub fn new() -> (r: AST)
        ensures
            r.wf(),
            r.rules@.len() == 0,
    {
        AST { rules: Vec::new() }
    }

    /// The index of the entry for `line`, if any.
    pub fn index_of(&self, line: u32) -> (r: Option<usize>)
        requires
            self.wf(),
        ensures
            r matches Some(i) ==> i < self.rules@.len() && self.rules@[i as int].0 == line,
            r is None ==> forall|i: int| 0 <= i < self.rules@.len() ==> self.rules@[i].0 != line,
    {
        let mut i: usize = 0;
        while i < self.rules.len()
            invariant
                i <= self.rules@.len(),
                forall|k: int| 0 <= k < i ==> self.rules@[k].0 != line,
            decreases self.rules@.len() - i,
        {
            if self.rules[i].0 == line {
                return Some(i);
            }
            i = i + 1;
        }
        None
    }

    /// The rule stored for `line`, with its span.
    pub fn get(&self, line: u32) -> (r: Option<&(Rule, Span)>)
        requires
            self.wf(),
        ensures
            r matches Some(x) ==> self.rule_at(line) == Some(*x),
            r is None ==> self.rule_at(line) is None,
    {
        match self.index_of(line) {
            Some(i) => {
                proof {
                    let j = choose|j: int| 0 <= j < self.rules@.len() && self.rules@[j].0 == line;
                    if j != i as int {
                        if j < i as int {
                            assert(self.rules@[j].0 != self.rules@[i as int].0);
                        } else {
                            assert(self.rules@[i as int].0 != self.rules@[j].0);
                        }
                    }
                }
                Some(&self.rules[i].1)
            },
            None => None,
        }
    }

    /// Stores the rule of `line`, replacing the one stored before.
    pub fn insert(&mut self, line: u32, rule: Rule, span: Span)
        requires
            old(self).wf(),
        ensures
            final(self).wf(),
            final(self).rule_at(line) == Some((rule, span)),
            forall|l: u32| l != line ==> final(self).rule_at(l) == old(self).rule_at(l),
    {
        let ghost before = *self;
        let ghost idx: int;
        match self.index_of(line) {
            Some(i) => {
                self.rules.set(i, (line, (rule, span)));
                proof {
                    idx = i as int;
                }
            },
            None => {
                self.rules.push((line, (rule, span)));
                proof {
                    idx = before.rules@.len() as int;
                }
            },
        }
        proof {
            assert(self.rules@[idx] == (line, (rule, span)));
            lemma_rule_at(*self, idx);
            assert forall|l: u32| l != line implies #[trigger] self.rule_at(l) == before.rule_at(l) by {
                if exists|k: int| 0 <= k < before.rules@.len() && before.rules@[k].0 == l {
                    let k = choose|k: int| 0 <= k < before.rules@.len() && before.rules@[k].0 == l;
                    assert(k != idx);
                    assert(self.rules@[k] == before.rules@[k]);
                    lemma_rule_at(before, k);
                    lemma_rule_at(*self, k);
                } else {
                    assert forall|k: int| 0 <= k < self.rules@.len() implies self.rules@[k].0 != l by {
                        if k != idx {
                            assert(self.rules@[k] == before.rules@[k]);
                        }
                    }
                }
            }
        }
    }
}

/// A rule whose spans lie inside `n` characters lies inside any wider range.
pub proof fn lemma_rule_within_wider(r: Rule, n: nat, m: nat)
    requires
        rule_within(r, n),
        n <= m,
    ensures
        rule_within(r, m),
{
    crate::header::lemma_header_within_wider(r.header.0, n, m);
    if let Some(os) = r.options {
        assert forall|i: int| 0 <= i < os@.len() implies option_entry_within(#[trigger] os@[i], m) by {
            assert(option_entry_within(os@[i], n));
            match os@[i].0 {
                RuleOption::KeywordPair(k, vs) => {
                    assert forall|j: int| 0 <= j < vs@.len() implies value_within(#[trigger] vs@[j], m) by {
                        assert(value_within(vs@[j], n));
                    }
                },
                RuleOption::Buffer(_) => {},
            }
        }
    }
}

/// After storing `(rule, span)` under `line`, each entry is the new one or an
/// entry of before.
pub proof fn lemma_entry_origin(before: AST, after: AST, line: u32, rule: Rule, span: Span, k: int)
    requires
        before.wf(),
        after.wf(),
        after.rule_at(line) == Some((rule, span)),
        forall|l: u32| l != line ==> after.rule_at(l) == before.rule_at(l),
        0 <= k < after.rules@.len(),
    ensures
        after.rules@[k].0 == line ==> after.rules@[k].1 == (rule, span),
        after.rules@[k].0 != line ==> exists|j: int| 0 <= j < before.rules@.len() && before.rules@[j] == after.rules@[k],
{
    lemma_rule_at(after, k);
    let l = after.rules@[k].0;
    if l != line {
        assert(before.rule_at(l) == Some(after.rules@[k].1));
        let j = choose|j: int| 0 <= j < before.rules@.len() && before.rules@[j].0 == l;
        lemma_rule_at(before, j);
        assert(before.rules@[j] == after.rules@[k]);
    }
}

/// The entry at index `k` is the one stored for its line.
proof fn lemma_rule_at(ast: AST, k: int)
    requires
        ast.wf(),
        0 <= k < ast.rules@.len(),
    ensures
        ast.rule_at(ast.rules@[k].0) == Some(ast.rules@[k].1),
{
    let line = ast.rules@[k].0;
    assert(exists|j: int| 0 <= j < ast.rules@.len() && ast.rules@[j].0 == line);
    let j = choose|j: int| 0 <= j < ast.rules@.len() && ast.rules@[j].0 == line;
    if j != k {
        if j < k {
            assert(ast.rules@[j].0 != ast.rules@[k].0);
        } else {
            assert(ast.rules@[k].0 != ast.rules@[j].0);
        }
    }
}

impl Rule {
    /// The protocol of the header.
    pub fn protocol(&self) -> (r: &Option<Spanned<String>>)
        ensures
            *r == self.header.0.protocol,
    {
        &self.header.0.protocol
    }

    /// The source address of the header.
    pub fn source(&self) -> (r: &Option<Spanned<NetworkAddress>>)
        ensures
            *r == self.header.0.source,
    {
        &self.header.0.source
    }

    /// The source port of the header.
    pub fn source_port(&self) -> (r: &Option<Spanned<NetworkPort>>)
        ensures
            *r == self.header.0.source_port,
    {
        &self.header.0.source_port
    }

    /// The direction of the header.
    pub fn direction(&self) -> (r: &Option<Spanned<NetworkDirection>>)
        ensures
            *r == self.header.0.direction,
    {
        &self.header.0.direction
    }

    /// The destination address of the header.
    pub fn destination(&self) -> (r: &Option<Spanned<NetworkAddress>>)
        ensures
            *r == self.header.0.destination,
    {
        &self.header.0.destination
    }

    /// The destination port of the header.
    pub fn destination_port(&self) -> (r: &Option<Spanned<NetworkPort>>)
        ensures
            *r == self.header.0.destination_port,
    {
        &self.header.0.destination_port
    }

    /// The addresses present in the header: source first, then destination.
    pub fn addresses(&self) -> (r: Vec<&Spanned<NetworkAddress>>)
        ensures
            r@.len() == present(self.header.0.source, self.header.0.destination).len(),
            forall|i: int| 0 <= i < r@.len() ==> *#[trigger] r@[i] == present(self.header.0.source, self.header.0.destination)[i],
    {
        let mut r: Vec<&Spanned<NetworkAddress>> = Vec::new();
        if let Some(a) = &self.header.0.source {
            r.push(a);
        }
        if let Some(a) = &self.header.0.destination {
            r.push(a);
        }
        r
    }

    /// The ports present in the header: source port first, then destination port.
    pub fn ports(&self) -> (r: Vec<&Spanned<NetworkPort>>)
        ensures
            r@.len() == present(self.header.0.source_port, self.header.0.destination_port).len(),
            forall|i: int| 0 <= i < r@.len() ==> *#[trigger] r@[i] == present(self.header.0.source_port, self.header.0.destination_port)[i],
    {
        let mut r: Vec<&Spanned<NetworkPort>> = Vec::new();
        if let Some(p) = &self.header.0.source_port {
            r.push(p);
        }
        if let Some(p) = &self.header.0.destination_port {
            r.push(p);
        }
        r
    }

    /// Appends the canonical text of the rule.
    pub fn write_to(&self, out: &mut String)
        ensures
            final(out)@ == old(out)@ + rule_text(*self),
    {
        let ghost start = out@;
        if let Some(a) = &self.action {
            a.0.write_to(out);
            push_char(out, ' ');
        }
        self.header.0.write_to(out);
        let ghost mid = out@;
        if let Some(os) = &self.options {
            push_char(out, '(');
            if os.len() > 0 {
                let ghost s0 = out@;
                let mut i: usize = 0;
                while i < os.len()
                    invariant
                        i <= os@.len(),
                        out@ == s0 + option_list_text(os@.take(i as int)),
                    decreases os@.len() - i,
                {
                    assert(os@.take(i as int + 1).drop_last() == os@.take(i as int));
                    if i > 0 {
                        push_char(out, ';');
                        push_char(out, ' ');
                    }
                    os[i].0.write_to(out);
                    i = i + 1;
                }
                assert(os@.take(os@.len() as int) == os@);
                push_char(out, ';');
            }
            push_char(out, ')');
        }
        assert(out@ == mid + options_text(self.options));
    }

    /// The canonical text of the rule: parsing it again gives the same rule
    /// up to spans.
    pub fn to_string(&self) -> (r: String)
        ensures
            r@ == rule_text(*self),
    {
        let mut out = String::new();
        self.write_to(&mut out);
        out
    }
}

} // verus!
