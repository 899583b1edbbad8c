use vstd::prelude::*;

use crate::grammar::{rule_s, rule_v};
use crate::parser::{line_kind, parse_line, LineKind};
use crate::reference::get_reference;
use crate::rule::{rule_text, rule_within, Rule, AST};
use crate::semantic_token::{room, rule_tokens, semantic_token_from_rule, ImCompleteSemanticToken, TOKEN_COMMENT};
use crate::span::{Span, Spanned};
use crate::text::{push_char, push_string};

verus! {

/// The number of characters of the lines before line `i`.
pub open spec fn offset_of(lines: Seq<String>, i: int) -> nat
    decreases i,
{
    if i <= 0 {
        0
    } else {
        offset_of(lines, i - 1) + lines[i - 1]@.len()
    }
}

/// What the document holds for one of its lines.
pub open spec fn entry_fits(lines: Seq<String>, line: u32, rule: Rule, span: Span) -> bool {
    &&& line < lines.len()
    &&& line_kind(lines[line as int]@) == LineKind::Rule
    &&& span == (Span { start: 0, end: lines[line as int]@.len() as usize })
    &&& rule_within(rule, lines[line as int]@.len() as nat)
}

/// What the document holds for line `j`: the rule that the line reads as,
/// exactly where it is a rule line that reads as one, spanning the whole line.
pub open spec fn line_entry_ok(lines: Seq<String>, ast: AST, j: int) -> bool {
    let t = lines[j]@;
    &&& (ast.rule_at(j as u32) is Some <==> (line_kind(t) == LineKind::Rule && rule_s(t) is Some))
    &&& (ast.rule_at(j as u32) matches Some(x) ==> rule_v(x.0) == rule_s(t)->0 && x.1 == (Span {
        start: 0,
        end: t.len() as usize,
    }))
}

/// The tokens of line `i`: one comment token over a comment line, the tokens
/// of the rule stored for a rule line, offset by the characters before the line.
pub open spec fn line_tokens(lines: Seq<String>, ast: AST, i: int) -> Seq<ImCompleteSemanticToken> {
    let off = offset_of(lines, i);
    if line_kind(lines[i]@) == LineKind::Comment {
        seq![ImCompleteSemanticToken { start: off as usize, length: lines[i]@.len() as usize, token_type: TOKEN_COMMENT }]
    } else {
        match ast.rule_at(i as u32) {
            Some(x) => rule_tokens(x.0, off),
            None => seq![],
        }
    }
}

/// The tokens of the first `k` lines, line after line.
pub open spec fn doc_tokens(lines: Seq<String>, ast: AST, k: int) -> Seq<ImCompleteSemanticToken>
    decreases k,
{
    if k <= 0 {
        seq![]
    } else {
        doc_tokens(lines, ast, k - 1) + line_tokens(lines, ast, k - 1)
    }
}

/// The tokens of the first `k` lines depend only on the rules stored for them.
proof fn lemma_doc_tokens_frame(lines: Seq<String>, a: AST, b: AST, k: int)
    requires
        0 <= k <= lines.len() <= u32::MAX,
        forall|j: int| 0 <= j < k ==> #[trigger] a.rule_at(j as u32) == b.rule_at(j as u32),
    ensures
        doc_tokens(lines, a, k) == doc_tokens(lines, b, k),
    decreases k,
{
    if k > 0 {
        lemma_doc_tokens_frame(lines, a, b, k - 1);
        assert(a.rule_at((k - 1) as u32) == b.rule_at((k - 1) as u32));
    }
}

proof fn lemma_offset_grows(lines: Seq<String>, i: int, j: int)
    requires
        0 <= i <= j <= lines.len(),
    ensures
        offset_of(lines, i) <= offset_of(lines, j),
    decreases j - i,
{
    if i < j {
        lemma_offset_grows(lines, i, j - 1);
    }
}

/// Reads every line of a document. Blank lines and comments give no rule;
/// a comment gives one comment token over its whole line. Every other line
/// that reads as a rule is stored under its index, and its tokens follow, each
/// offset by the number of characters before its line. Lines hold their line
/// ends, so that the offsets count them.
#[verifier::rlimit(40)]
pub fn parse_document(lines: &Vec<String>) -> (r: (AST, Vec<ImCompleteSemanticToken>))
    requires
        lines@.len() <= u32::MAX,
        offset_of(lines@, lines@.len() as int) <= usize::MAX,
    ensures
        r.0.wf(),
        forall|k: int| 0 <= k < r.0.rules@.len() ==> entry_fits(lines@, r.0.rules@[k].0, r.0.rules@[k].1.0, r.0.rules@[k].1.1),
        forall|i: int| 0 <= i < lines@.len() ==> line_entry_ok(lines@, r.0, i),
        r.1@ == doc_tokens(lines@, r.0, lines@.len() as int),
{
    let mut ast = AST::new();
    let mut tokens: Vec<ImCompleteSemanticToken> = Vec::new();
    let mut offset: usize = 0;
    let mut i: usize = 0;
    while i < lines.len()
        invariant
            i <= lines@.len(),
            lines@.len() <= u32::MAX,
            offset_of(lines@, lines@.len() as int) <= usize::MAX,
            offset == offset_of(lines@, i as int),
            ast.wf(),
            forall|k: int| 0 <= k < ast.rules@.len() ==> entry_fits(lines@, ast.rules@[k].0, ast.rules@[k].1.0, ast.rules@[k].1.1) && ast.rules@[k].0 < i,
            forall|j: int| 0 <= j < i ==> line_entry_ok(lines@, ast, j),
            forall|l: u32| i <= l ==> ast.rule_at(l) is None,
            tokens@ == doc_tokens(lines@, ast, i as int),
        decreases lines@.len() - i,
    {
        let ghost ast0 = ast;
        let ghost tok0 = tokens@;
        let text = lines[i].as_str();
        let n = text.unicode_len();
        proof {
            lemma_offset_grows(lines@, i as int + 1, lines@.len() as int);
        }
        match crate::parser::classify_line(text) {
            LineKind::Blank => {},
            LineKind::Comment => {
                tokens.push(ImCompleteSemanticToken { start: offset, length: n, token_type: TOKEN_COMMENT });
            },
            LineKind::Rule => {
                let (parsed, _) = parse_line(text);
                if let Some((rule, span)) = parsed {
                    assert(rule_within(rule, room(offset))) by {
                        crate::rule::lemma_rule_within_wider(rule, n as nat, room(offset));
                    }
                    let entry = (rule, span);
                    semantic_token_from_rule(&entry, &offset, &mut tokens);
                    let (rule, span) = entry;
                    let ghost before = ast;
                    ast.insert(i as u32, rule, span);
                    proof {
                        assert forall|k: int| 0 <= k < ast.rules@.len() implies entry_fits(lines@, ast.rules@[k].0, ast.rules@[k].1.0, ast.rules@[k].1.1) && ast.rules@[k].0 < i + 1 by {
                            crate::rule::lemma_entry_origin(before, ast, i as u32, rule, span, k);
                        }
                    }
                }
            },
        }
        proof {
            assert forall|j: int| 0 <= j < i implies #[trigger] ast.rule_at(j as u32) == ast0.rule_at(j as u32) by {
                assert(j as u32 != i as u32);
            }
            lemma_doc_tokens_frame(lines@, ast0, ast, i as int);
            assert(tokens@ == tok0 + line_tokens(lines@, ast, i as int));
            assert forall|j: int| 0 <= j < i + 1 implies line_entry_ok(lines@, ast, j) by {
                if j < i {
                    assert(ast.rule_at(j as u32) == ast0.rule_at(j as u32));
                    assert(line_entry_ok(lines@, ast0, j));
                }
            }
        }
        offset = offset + n;
        i = i + 1;
    }
    (ast, tokens)
}

/// The edits that give each rule of the document its canonical text: one for
/// each rule whose line, among lines `first` to `last` (excluded), holds
/// another text. Lines are given without their line ends.
pub open spec fn format_edits_spec(rules: Seq<(u32, (Rule, Span))>, lines: Seq<String>, first: u32, last: u32) -> Seq<(u32, Seq<char>)>
    decreases rules.len(),
{
    if rules.len() == 0 {
        seq![]
    } else {
        let e = rules.last();
        let rest = format_edits_spec(rules.drop_last(), lines, first, last);
        if first <= e.0 < last && e.0 < lines.len() && lines[e.0 as int]@ != rule_text(e.1.0) {
            rest.push((e.0, rule_text(e.1.0)))
        } else {
            rest
        }
    }
}

/// Edits as plain values.
pub open spec fn edits_view(es: Seq<(u32, String)>) -> Seq<(u32, Seq<char>)> {
    es.map_values(|e: (u32, String)| (e.0, e.1@))
}

/// The edits that give each rule of the document whose line lies among lines
/// `first` to `last` (excluded) its canonical text, where the line holds
/// another text.
pub fn format_edits(ast: &AST, lines: &Vec<String>, first: u32, last: u32) -> (r: Vec<(u32, String)>)
    ensures
        edits_view(r@) == format_edits_spec(ast.rules@, lines@, first, last),
{
    let mut edits: Vec<(u32, String)> = Vec::new();
    let mut i: usize = 0;
    while i < ast.rules.len()
        invariant
            i <= ast.rules@.len(),
            edits_view(edits@) == format_edits_spec(ast.rules@.take(i as int), lines@, first, last),
        decreases ast.rules@.len() - i,
    {
        assert(ast.rules@.take(i as int + 1).drop_last() == ast.rules@.take(i as int));
        let line = ast.rules[i].0;
        if first <= line && line < last && (line as usize) < lines.len() {
            let text = ast.rules[i].1.0.to_string();
            if !(lines[line as usize] == text) {
                let ghost before = edits@;
                edits.push((line, text));
                assert(edits_view(edits@) == edits_view(before).push((line, text@)));
            }
        }
        i = i + 1;
    }
    assert(ast.rules@.take(ast.rules@.len() as int) == ast.rules@);
    edits
}

/// The text that replaces a variable occurrence when it is renamed to `name`:
/// the name with its `$` sigil.
pub open spec fn renamed_text(name: Seq<char>) -> Seq<char> {
    seq!['$'] + name
}

/// The renaming edits for a list of occurrences: each occurrence's line and
/// span, with the new name and its sigil.
pub open spec fn rename_spec(refs: Seq<(u32, Spanned<String>)>, name: Seq<char>) -> Seq<(u32, Span, Seq<char>)> {
    refs.map_values(|e: (u32, Spanned<String>)| (e.0, e.1.1, renamed_text(name)))
}

/// Renaming edits as plain values.
pub open spec fn edits_of(es: Seq<(u32, Span, String)>) -> Seq<(u32, Span, Seq<char>)> {
    es.map_values(|e: (u32, Span, String)| (e.0, e.1, e.2@))
}

/// The edits that rename the variable at `(line, col)` to `new_name`: one for
/// each occurrence of it in the document, over the occurrence's span; nothing
/// where no variable is there.
pub fn rename_edits(ast: &AST, line: &u32, col: &usize, new_name: &String) -> (r: Option<Vec<(u32, Span, String)>>)
    requires
        ast.wf(),
    ensures
        r is Some <==> (crate::reference::references_spec(*ast, *line, *col, true) matches Some(refs)
            && refs.len() > 0),
        r matches Some(es) ==> edits_of(es@) == rename_spec(
            crate::reference::references_spec(*ast, *line, *col, true)->0,
            new_name@,
        ),
{
    let refs = match get_reference(ast, line, col, true) {
        Some(refs) => refs,
        None => {
            return None;
        },
    };
    if refs.len() == 0 {
        return None;
    }
    let mut text = String::new();
    push_char(&mut text, '$');
    push_string(&mut text, new_name);
    let mut edits: Vec<(u32, Span, String)> = Vec::new();
    let mut i: usize = 0;
    while i < refs.len()
        invariant
            i <= refs@.len(),
            edits@.len() == i,
            text@ == renamed_text(new_name@),
            forall|k: int| 0 <= k < i ==> (#[trigger] edits@[k]).0 == refs@[k].0 && edits@[k].1 == refs@[k].1.1
                && edits@[k].2@ == renamed_text(new_name@),
        decreases refs@.len() - i,
    {
        edits.push((refs[i].0, refs[i].1.1, text.clone()));
        i = i + 1;
    }
    assert(edits_of(edits@) =~= rename_spec(refs@, new_name@));
    Some(edits)
}

} // verus!
