use vstd::prelude::*;

use crate::span::Spanned;
use crate::text::{push_char, push_string};

verus! {

/// A value inside the options of a rule: a quoted string, whose special
/// characters are escaped in the text, or any other bare token.
#[derive(Debug, PartialEq, Eq, Hash)]
pub enum OptionsVariable {
    String(Spanned<String>),
    Other(Spanned<String>),
}

/// One option of a rule: a keyword with its values, or a keyword alone.
#[derive(Debug)]
pub enum RuleOption {
    KeywordPair(Spanned<String>, Vec<Spanned<OptionsVariable>>),
    Buffer(Spanned<String>),
}

/// A character that a quoted value writes with a backslash before it.
pub open spec fn needs_escape(c: char) -> bool {
    c == '\\' || c == '"' || c == ';'
}

/// The escaped form of a value's contents: a backslash before each `\`, `"`
/// and `;`, which reading a value removes again.
pub open spec fn escape(s: Seq<char>) -> Seq<char>
    decreases s.len(),
{
    if s.len() == 0 {
        seq![]
    } else if needs_escape(s.last()) {
        escape(s.drop_last()) + seq!['\\', s.last()]
    } else {
        escape(s.drop_last()).push(s.last())
    }
}

/// The canonical text of an option value.
pub open spec fn value_text(v: OptionsVariable) -> Seq<char> {
    match v {
        OptionsVariable::String(s) => seq!['"'] + escape(s.0@) + seq!['"'],
        OptionsVariable::Other(s) => escape(s.0@),
    }
}

/// The texts of a keyword's values, separated by `", "`.
pub open spec fn value_list_text(vs: Seq<Spanned<OptionsVariable>>) -> Seq<char>
    decreases vs.len(),
{
    if vs.len() == 0 {
        seq![]
    } else if vs.len() == 1 {
        value_text(vs[0].0)
    } else {
        value_list_text(vs.drop_last()) + seq![',', ' '] + value_text(vs.last().0)
    }
}

/// The canonical text of an option.
pub open spec fn option_text(o: RuleOption) -> Seq<char> {
    match o {
        RuleOption::KeywordPair(k, vs) => k.0@ + seq![':', ' '] + value_list_text(vs@),
        RuleOption::Buffer(k) => k.0@,
    }
}

/// The keyword of an option, with its span.
pub open spec fn option_keyword(o: RuleOption) -> Spanned<String> {
    match o {
        RuleOption::KeywordPair(k, _) => k,
        RuleOption::Buffer(k) => k,
    }
}

/// Appends the escaped form of `s`.
fn write_escaped(s: &String, out: &mut String)
    ensures
        final(out)@ == old(out)@ + escape(s@),
{
    let ghost start = out@;
    let n = s.as_str().unicode_len();
    let mut i: usize = 0;
    while i < n
        invariant
            n == s@.len(),
            i <= n,
            out@ == start + escape(s@.take(i as int)),
        decreases n - i,
    {
        let c = s.as_str().get_char(i);
        assert(s@.take(i as int + 1).drop_last() == s@.take(i as int));
        if c == '\\' || c == '"' || c == ';' {
            push_char(out, '\\');
        }
        push_char(out, c);
        i = i + 1;
    }
    assert(s@.take(n as int) == s@);
}

impl OptionsVariable {
    /// Appends the canonical text of the value.
    pub fn write_to(&self, out: &mut String)
        ensures
            final(out)@ == old(out)@ + value_text(*self),
    {
        match self {
            OptionsVariable::String(s) => {
                push_char(out, '"');
                write_escaped(&s.0, out);
                push_char(out, '"');
            },
            OptionsVariable::Other(s) => write_escaped(&s.0, out),
        }
    }

    /// The canonical text of the value.
    pub fn to_string(&self) -> (r: String)
        ensures
            r@ == value_text(*self),
    {
        let mut out = String::new();
        self.write_to(&mut out);
        out
    }
}

impl RuleOption {
    /// Appends the canonical text of the option.
    pub fn write_to(&self, out: &mut String)
        ensures
            final(out)@ == old(out)@ + option_text(*self),
    {
        match self {
            RuleOption::KeywordPair(k, values) => {
                push_string(out, &k.0);
                push_char(out, ':');
                push_char(out, ' ');
                let ghost start = out@;
                let mut i: usize = 0;
                while i < values.len()
                    invariant
                        i <= values@.len(),
                        out@ == start + value_list_text(values@.take(i as int)),
                    decreases values@.len() - i,
                {
                    assert(values@.take(i as int + 1).drop_last() == values@.take(i as int));
                    if i > 0 {
                        push_char(out, ',');
                        push_char(out, ' ');
                    }
                    values[i].0.write_to(out);
                    i = i + 1;
                }
                assert(values@.take(values@.len() as int) == values@);
            },
            RuleOption::Buffer(k) => push_string(out, &k.0),
        }
    }

    /// The canonical text of the option.
    pub fn to_string(&self) -> (r: String)
        ensures
            r@ == option_text(*self),
    {
        let mut out = String::new();
        self.write_to(&mut out);
        out
    }
}

} // verus!
