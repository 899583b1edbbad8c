use vstd::prelude::*;

use crate::header::{header_address_vars, header_port_vars};
use crate::rule::{Rule, AST};
use crate::span::{Span, Spanned};

verus! {

/// Every variable of a header: address variables, then port variables.
pub open spec fn header_vars(r: Rule, filter: Option<Seq<char>>) -> Seq<Spanned<String>> {
    header_address_vars(r.header.0, filter) + header_port_vars(r.header.0, filter)
}

/// The first variable of the list whose span holds `col`.
pub open spec fn first_at(vs: Seq<Spanned<String>>, col: usize) -> Option<Spanned<String>>
    decreases vs.len(),
{
    if vs.len() == 0 {
        None
    } else if vs[0].1.spec_contains(col as int) {
        Some(vs[0])
    } else {
        first_at(vs.drop_first(), col)
    }
}

/// The variable of the rule's header at offset `col`, if one is there.
pub open spec fn variable_at_offset(r: Rule, col: usize) -> Option<Spanned<String>> {
    first_at(header_vars(r, None), col)
}

/// Each variable of the list, paired with the line `line`.
pub open spec fn on_line(line: u32, vs: Seq<Spanned<String>>) -> Seq<(u32, Spanned<String>)> {
    vs.map_values(|v: Spanned<String>| (line, v))
}

/// Every variable named `name` in the headers of the rules, rule after rule,
/// each with the line of its rule.
pub open spec fn occurrences(rules: Seq<(u32, (Rule, Span))>, name: Seq<char>) -> Seq<(u32, Spanned<String>)>
    decreases rules.len(),
{
    if rules.len() == 0 {
        seq![]
    } else {
        occurrences(rules.drop_last(), name) + on_line(
            rules.last().0,
            header_vars(rules.last().1.0, Some(name)),
        )
    }
}

/// An occurrence other than the one at line `line` with span `s`.
pub open spec fn is_other(e: (u32, Spanned<String>), line: u32, s: Span) -> bool {
    !(e.0 == line && e.1.1 == s)
}

/// The references for a query at `(line, col)`: every occurrence of the name of
/// the variable there, without that one unless `include_self`.
pub open spec fn references_spec(ast: AST, line: u32, col: usize, include_self: bool) -> Option<Seq<(u32, Spanned<String>)>> {
    match ast.rule_at(line) {
        None => None,
        Some(entry) => match variable_at_offset(entry.0, col) {
            None => None,
            Some(v) => {
                let all = occurrences(ast.rules@, v.0@);
                if include_self {
                    Some(all)
                } else {
                    Some(all.filter(|e: (u32, Spanned<String>)| is_other(e, line, v.1)))
                }
            },
        },
    }
}

/// The variable of the rule's header at offset `col`, if one is there.
pub fn get_variable_from_offset(rule: &Rule, col: &usize) -> (r: Option<Spanned<String>>)
    ensures
        r == variable_at_offset(*rule, *col),
{
    let mut variables: Vec<Spanned<String>> = Vec::new();
    rule.header.0.find_address_variables(&None, &mut variables);
    rule.header.0.find_port_variables(&None, &mut variables);
    assert(variables@ == header_vars(*rule, None));
    assert(variables@.skip(0) == variables@);
    let mut i: usize = 0;
    while i < variables.len()
        invariant
            i <= variables@.len(),
            variables@ == header_vars(*rule, None),
            first_at(variables@, *col) == first_at(variables@.skip(i as int), *col),
        decreases variables@.len() - i,
    {
        assert(variables@.skip(i as int).drop_first() == variables@.skip(i as int + 1));
        assert(variables@.skip(i as int)[0] == variables@[i as int]);
        if variables[i].1.contains(*col) {
            let v = &variables[i];
            return Some((v.0.clone(), v.1));
        }
        i = i + 1;
    }
    None
}

/// Every occurrence of the variable at `(line, col)` in the headers of the
/// document, each with its line; without the one at `(line, col)` itself
/// unless `include_self`. Nothing where no variable is at that place.
pub fn get_reference(ast: &AST, line: &u32, col: &usize, include_self: bool) -> (r: Option<Vec<(u32, Spanned<String>)>>)
    requires
        ast.wf(),
    ensures
        r is None <==> references_spec(*ast, *line, *col, include_self) is None,
        r matches Some(v) ==> references_spec(*ast, *line, *col, include_self) == Some(v@),
{
    let entry = match ast.get(*line) {
        Some(e) => e,
        None => {
            return None;
        },
    };
    let var = match get_variable_from_offset(&entry.0, col) {
        Some(v) => v,
        None => {
            return None;
        },
    };
    let name = Some(var.0.clone());
    let ghost key = var.0@;
    let mut all: Vec<(u32, Spanned<String>)> = Vec::new();
    let mut i: usize = 0;
    while i < ast.rules.len()
        invariant
            i <= ast.rules@.len(),
            name == Some(var.0),
            key == var.0@,
            all@ == occurrences(ast.rules@.take(i as int), key),
        decreases ast.rules@.len() - i,
    {
        assert(ast.rules@.take(i as int + 1).drop_last() == ast.rules@.take(i as int));
        let rule_line = ast.rules[i].0;
        let rule = &ast.rules[i].1.0;
        let mut found: Vec<Spanned<String>> = Vec::new();
        rule.header.0.find_address_variables(&name, &mut found);
        rule.header.0.find_port_variables(&name, &mut found);
        assert(found@ == header_vars(*rule, Some(key)));
        let ghost before = all@;
        let mut j: usize = 0;
        while j < found.len()
            invariant
                j <= found@.len(),
                all@ == before + on_line(rule_line, found@.take(j as int)),
            decreases found@.len() - j,
        {
            let v = &found[j];
            all.push((rule_line, (v.0.clone(), v.1)));
            j = j + 1;
            assert(on_line(rule_line, found@.take(j as int)) == on_line(rule_line, found@.take(j - 1)).push((rule_line, found@[j - 1])));
        }
        assert(found@.take(found@.len() as int) == found@);
        i = i + 1;
    }
    assert(ast.rules@.take(ast.rules@.len() as int) == ast.rules@);
    if include_self {
        return Some(all);
    }
    let mut ret: Vec<(u32, Spanned<String>)> = Vec::new();
    let mut k: usize = 0;
    while k < all.len()
        invariant
            k <= all@.len(),
            ret@ == all@.take(k as int).filter(|e: (u32, Spanned<String>)| is_other(e, *line, var.1)),
        decreases all@.len() - k,
    {
        let e = &all[k];
        assert(all@.take(k as int + 1).drop_last() == all@.take(k as int));
        reveal(Seq::filter);
        if !(e.0 == *line && e.1.1 == var.1) {
            ret.push((e.0, (e.1.0.clone(), e.1.1)));
        }
        k = k + 1;
    }
    assert(all@.take(all@.len() as int) == all@);
    Some(ret)
}

} // verus!
