use vstd::prelude::*;

use crate::action::{str_eq, Action};
use crate::header::{address_vars, header_address_vars, header_port_vars, port_vars, NetworkAddress, NetworkDirection, NetworkPort};
use crate::rule::{Rule, AST};
use crate::span::{Span, Spanned};
use crate::suricata::{record_of, Keyword, KeywordMap};
use crate::text::push_char;

verus! {

/// How an editor shows a completion.
#[derive(Clone, Copy, Debug, PartialEq, Eq, Hash, Structural)]
pub enum CompletionKind {
    Value,
    Constant,
    Operator,
    Keyword,
    Variable,
}

/// One proposal to insert at the cursor.
#[derive(Debug, PartialEq, Eq)]
pub struct CompletionItem {
    pub label: String,
    pub insert_text: Option<String>,
    pub kind: CompletionKind,
    pub detail: Option<String>,
}

/// Names as a set of character sequences.
pub open spec fn name_set(v: Seq<String>) -> Set<Seq<char>> {
    Set::new(|n: Seq<char>| exists|i: int| 0 <= i < v.len() && v[i]@ == n)
}

/// No name occurs twice.
pub open spec fn unique_names(v: Seq<String>) -> bool {
    forall|i: int, j: int| 0 <= i < j < v.len() ==> #[trigger] v[i]@ != #[trigger] v[j]@
}

/// The names of a list of variables, as a set.
pub open spec fn var_names(vs: Seq<Spanned<String>>) -> Set<Seq<char>> {
    Set::new(|n: Seq<char>| exists|i: int| 0 <= i < vs.len() && vs[i].0@ == n)
}

/// The names of the address variables in the headers of the rules.
pub open spec fn address_names(rules: Seq<(u32, (Rule, Span))>) -> Set<Seq<char>>
    decreases rules.len(),
{
    if rules.len() == 0 {
        Set::empty()
    } else {
        address_names(rules.drop_last()) + var_names(header_address_vars(rules.last().1.0.header.0, None))
    }
}

/// The names of the port variables in the headers of the rules.
pub open spec fn port_names(rules: Seq<(u32, (Rule, Span))>) -> Set<Seq<char>>
    decreases rules.len(),
{
    if rules.len() == 0 {
        Set::empty()
    } else {
        port_names(rules.drop_last()) + var_names(header_port_vars(rules.last().1.0.header.0, None))
    }
}

/// Adds a name unless it is there already.
pub fn insert_name(names: &mut Vec<String>, name: &String)
    requires
        unique_names(old(names)@),
    ensures
        unique_names(final(names)@),
        name_set(final(names)@) == name_set(old(names)@).insert(name@),
{
    let mut i: usize = 0;
    while i < names.len()
        invariant
            i <= names@.len(),
            unique_names(names@),
            forall|k: int| 0 <= k < i ==> names@[k]@ != name@,
        decreases names@.len() - i,
    {
        if names[i] == *name {
            assert(name_set(names@) == name_set(names@).insert(name@));
            return;
        }
        i = i + 1;
    }
    let ghost before = names@;
    names.push(name.clone());
    assert(name_set(names@) =~= name_set(before).insert(name@)) by {
        assert forall|n: Seq<char>| name_set(before).insert(name@).contains(n) implies name_set(names@).contains(n) by {
            if n == name@ {
                assert(names@[before.len() as int]@ == n);
            } else {
                let k = choose|k: int| 0 <= k < before.len() && before[k]@ == n;
                assert(names@[k] == before[k]);
            }
        }
        assert forall|n: Seq<char>| name_set(names@).contains(n) implies name_set(before).insert(name@).contains(n) by {
            let k = choose|k: int| 0 <= k < names@.len() && names@[k]@ == n;
            if k < before.len() {
                assert(names@[k] == before[k]);
            }
        }
    }
}

/// Adds the names of the variables that are not there already.
pub fn insert_all(names: &mut Vec<String>, vs: &Vec<Spanned<String>>)
    requires
        unique_names(old(names)@),
    ensures
        unique_names(final(names)@),
        name_set(final(names)@) == name_set(old(names)@) + var_names(vs@),
{
    let ghost start = name_set(names@);
    let mut i: usize = 0;
    while i < vs.len()
        invariant
            i <= vs@.len(),
            unique_names(names@),
            name_set(names@) == start + var_names(vs@.take(i as int)),
        decreases vs@.len() - i,
    {
        insert_name(names, &vs[i].0);
        i = i + 1;
        assert(var_names(vs@.take(i as int)) =~= var_names(vs@.take(i - 1)).insert(vs@[i - 1].0@)) by {
            assert forall|n: Seq<char>| var_names(vs@.take(i as int)).contains(n) implies var_names(vs@.take(i - 1)).insert(vs@[i - 1].0@).contains(n) by {
                let t = vs@.take(i as int);
                let k = choose|k: int| 0 <= k < t.len() && t[k].0@ == n;
                if k < i - 1 {
                    assert(vs@.take(i - 1)[k] == vs@[k]);
                }
            }
            assert forall|n: Seq<char>| var_names(vs@.take(i - 1)).insert(vs@[i - 1].0@).contains(n) implies var_names(vs@.take(i as int)).contains(n) by {
                if n == vs@[i - 1].0@ {
                    assert(vs@.take(i as int)[i - 1] == vs@[i - 1]);
                } else {
                    let t = vs@.take(i - 1);
                    let k = choose|k: int| 0 <= k < t.len() && t[k].0@ == n;
                    assert(vs@.take(i as int)[k] == vs@[k]);
                }
            }
        }
        assert(name_set(names@) =~= start + var_names(vs@.take(i as int)));
    }
    assert(vs@.take(vs@.len() as int) == vs@);
}

/// Adds the names of the variables of an address.
pub fn search_for_address_variables(address: &NetworkAddress, address_variables: &mut Vec<String>)
    requires
        unique_names(old(address_variables)@),
    ensures
        unique_names(final(address_variables)@),
        name_set(final(address_variables)@) == name_set(old(address_variables)@) + var_names(
            address_vars(*address, None),
        ),
{
    let mut vs: Vec<Spanned<String>> = Vec::new();
    address.find_variables_with_array(&None, &mut vs);
    assert(vs@ =~= address_vars(*address, None));
    insert_all(address_variables, &vs);
}

/// Adds the names of the variables of a port.
pub fn search_for_port_variables(port: &NetworkPort, port_variables: &mut Vec<String>)
    requires
        unique_names(old(port_variables)@),
    ensures
        unique_names(final(port_variables)@),
        name_set(final(port_variables)@) == name_set(old(port_variables)@) + var_names(
            port_vars(*port, None),
        ),
{
    let mut vs: Vec<Spanned<String>> = Vec::new();
    port.find_variables_with_array(&None, &mut vs);
    assert(vs@ =~= port_vars(*port, None));
    insert_all(port_variables, &vs);
}

/// Adds the names of every address variable and every port variable of the
/// document, each once.
pub fn get_variables_from_ast(ast: &AST, address_variables: &mut Vec<String>, port_variables: &mut Vec<String>)
    requires
        unique_names(old(address_variables)@),
        unique_names(old(port_variables)@),
    ensures
        unique_names(final(address_variables)@),
        unique_names(final(port_variables)@),
        name_set(final(address_variables)@) == name_set(old(address_variables)@) + address_names(ast.rules@),
        name_set(final(port_variables)@) == name_set(old(port_variables)@) + port_names(ast.rules@),
{
    let ghost a0 = name_set(address_variables@);
    let ghost p0 = name_set(port_variables@);
    let mut i: usize = 0;
    while i < ast.rules.len()
        invariant
            i <= ast.rules@.len(),
            unique_names(address_variables@),
            unique_names(port_variables@),
            name_set(address_variables@) == a0 + address_names(ast.rules@.take(i as int)),
            name_set(port_variables@) == p0 + port_names(ast.rules@.take(i as int)),
        decreases ast.rules@.len() - i,
    {
        assert(ast.rules@.take(i as int + 1).drop_last() == ast.rules@.take(i as int));
        let header = &ast.rules[i].1.0.header.0;
        let mut avs: Vec<Spanned<String>> = Vec::new();
        header.find_address_variables(&None, &mut avs);
        assert(avs@ =~= header_address_vars(*header, None));
        insert_all(address_variables, &avs);
        let mut pvs: Vec<Spanned<String>> = Vec::new();
        header.find_port_variables(&None, &mut pvs);
        assert(pvs@ =~= header_port_vars(*header, None));
        insert_all(port_variables, &pvs);
        i = i + 1;
        assert(name_set(address_variables@) =~= a0 + address_names(ast.rules@.take(i as int)));
        assert(name_set(port_variables@) =~= p0 + port_names(ast.rules@.take(i as int)));
    }
    assert(ast.rules@.take(ast.rules@.len() as int) == ast.rules@);
}

/// A proposal for a variable: its name, inserted as it is.
pub open spec fn is_variable_item(c: CompletionItem) -> bool {
    c.kind == CompletionKind::Variable && c.insert_text == Some(c.label) && c.detail is None
}

/// The labels of a list of proposals.
pub open spec fn labels(items: Seq<CompletionItem>) -> Seq<String> {
    items.map_values(|c: CompletionItem| c.label)
}

/// A proposal as plain values: label, text to insert, kind, detail.
pub type ItemView = (Seq<char>, Option<Seq<char>>, CompletionKind, Option<Seq<char>>);

/// An optional text as an optional sequence of characters.
pub open spec fn opt_text(t: Option<String>) -> Option<Seq<char>> {
    match t {
        Some(x) => Some(x@),
        None => None,
    }
}

/// The proposal for a keyword: `name; ` for one that takes no value, `name: `
/// for the others, with the description as detail.
pub open spec fn keyword_item(k: Keyword) -> ItemView {
    let r = record_of(k);
    match k {
        Keyword::NoOption(_) => (r.name@, Some(r.name@ + seq![';', ' ']), CompletionKind::Constant, Some(r.description@)),
        Keyword::Other(_) => (r.name@, Some(r.name@ + seq![':', ' ']), CompletionKind::Keyword, Some(r.description@)),
    }
}

/// What a proposal holds, as plain values.
pub open spec fn item_view(c: CompletionItem) -> ItemView {
    (c.label@, opt_text(c.insert_text), c.kind, opt_text(c.detail))
}

/// The proposals appended to `before` give `after`.
pub open spec fn appended(before: Seq<CompletionItem>, after: Seq<CompletionItem>, added: Seq<ItemView>) -> bool {
    &&& after.len() == before.len() + added.len()
    &&& after.take(before.len() as int) == before
    &&& forall|i: int| 0 <= i < added.len() ==> item_view(#[trigger] after[before.len() + i]) == added[i]
}

/// A proposal with a label, an optional text to insert and a kind.
fn simple_item(label: &str, insert: Option<&str>, kind: CompletionKind) -> (r: CompletionItem)
    ensures
        item_view(r) == (label@, match insert {
            Some(t) => Some(t@),
            None => None::<Seq<char>>,
        }, kind, None::<Seq<char>>),
{
    CompletionItem {
        label: String::from_str(label),
        insert_text: match insert {
            Some(t) => Some(String::from_str(t)),
            None => None,
        },
        kind,
        detail: None,
    }
}

/// Appends proposals, keeping those already there.
fn push_item(items: &mut Vec<CompletionItem>, item: CompletionItem, Ghost(start): Ghost<Seq<CompletionItem>>, Ghost(added): Ghost<Seq<ItemView>>)
    requires
        appended(start, old(items)@, added),
    ensures
        appended(start, final(items)@, added.push(item_view(item))),
{
    let ghost before = items@;
    items.push(item);
    assert(items@.take(start.len() as int) == before.take(start.len() as int));
    assert forall|i: int| 0 <= i < added.len() + 1 implies item_view(#[trigger] items@[start.len() + i]) == added.push(item_view(item))[i] by {
        if i < added.len() {
            assert(items@[start.len() + i] == before[start.len() + i]);
        }
    }
}

/// Something that proposes fixed completions for its part of a rule.
pub trait Completions {
    /// The proposals, in order.
    spec fn proposals() -> Seq<ItemView>;

    /// Appends the proposals.
    fn get_completion(address_variables: &Vec<String>, port_variables: &Vec<String>, completion_tokens: &mut Vec<CompletionItem>)
        ensures
            appended(old(completion_tokens)@, final(completion_tokens)@, Self::proposals()),
    ;
}

impl Completions for Action {
    open spec fn proposals() -> Seq<ItemView> {
        seq![
            ("alert"@, None, CompletionKind::Operator, None),
            ("pass"@, None, CompletionKind::Operator, None),
            ("drop"@, None, CompletionKind::Operator, None),
            ("reject"@, None, CompletionKind::Operator, None),
            ("rejectsrc"@, None, CompletionKind::Operator, None),
            ("rejectdst"@, None, CompletionKind::Operator, None),
            ("rejectboth"@, None, CompletionKind::Operator, None),
        ]
    }

    fn get_completion(address_variables: &Vec<String>, port_variables: &Vec<String>, completion_tokens: &mut Vec<CompletionItem>) {
        let ghost start = completion_tokens@;
        assert(start.take(start.len() as int) == start);
        push_item(completion_tokens, simple_item("alert", None, CompletionKind::Operator), Ghost(start), Ghost(Self::proposals().take(0)));
        push_item(completion_tokens, simple_item("pass", None, CompletionKind::Operator), Ghost(start), Ghost(Self::proposals().take(1)));
        push_item(completion_tokens, simple_item("drop", None, CompletionKind::Operator), Ghost(start), Ghost(Self::proposals().take(2)));
        push_item(completion_tokens, simple_item("reject", None, CompletionKind::Operator), Ghost(start), Ghost(Self::proposals().take(3)));
        push_item(completion_tokens, simple_item("rejectsrc", None, CompletionKind::Operator), Ghost(start), Ghost(Self::proposals().take(4)));
        push_item(completion_tokens, simple_item("rejectdst", None, CompletionKind::Operator), Ghost(start), Ghost(Self::proposals().take(5)));
        push_item(completion_tokens, simple_item("rejectboth", None, CompletionKind::Operator), Ghost(start), Ghost(Self::proposals().take(6)));
        assert(Self::proposals().take(6).push(("rejectboth"@, None, CompletionKind::Operator, None)) == Self::proposals());
    }
}

impl Completions for NetworkPort {
    open spec fn proposals() -> Seq<ItemView> {
        seq![
            ("SSH"@, Some("22"@), CompletionKind::Value, None),
            ("HTTP"@, Some("80"@), CompletionKind::Value, None),
            ("HTTPS"@, Some("443"@), CompletionKind::Value, None),
            ("SMB"@, Some("445"@), CompletionKind::Value, None),
            ("Telnet"@, Some("23"@), CompletionKind::Value, None),
            ("any"@, None, CompletionKind::Constant, None),
        ]
    }

    fn get_completion(address_variables: &Vec<String>, port_variables: &Vec<String>, completion_tokens: &mut Vec<CompletionItem>) {
        let ghost start = completion_tokens@;
        assert(start.take(start.len() as int) == start);
        push_item(completion_tokens, simple_item("SSH", Some("22"), CompletionKind::Value), Ghost(start), Ghost(Self::proposals().take(0)));
        push_item(completion_tokens, simple_item("HTTP", Some("80"), CompletionKind::Value), Ghost(start), Ghost(Self::proposals().take(1)));
        push_item(completion_tokens, simple_item("HTTPS", Some("443"), CompletionKind::Value), Ghost(start), Ghost(Self::proposals().take(2)));
        push_item(completion_tokens, simple_item("SMB", Some("445"), CompletionKind::Value), Ghost(start), Ghost(Self::proposals().take(3)));
        push_item(completion_tokens, simple_item("Telnet", Some("23"), CompletionKind::Value), Ghost(start), Ghost(Self::proposals().take(4)));
        push_item(completion_tokens, simple_item("any", None, CompletionKind::Constant), Ghost(start), Ghost(Self::proposals().take(5)));
        assert(Self::proposals().take(5).push(("any"@, None, CompletionKind::Constant, None)) == Self::proposals());
    }
}

impl Completions for NetworkDirection {
    open spec fn proposals() -> Seq<ItemView> {
        seq![
            ("To Src"@, Some("<-"@), CompletionKind::Operator, None),
            ("To Dst"@, Some("->"@), CompletionKind::Operator, None),
            ("Both"@, Some("<>"@), CompletionKind::Operator, None),
        ]
    }

    fn get_completion(address_variables: &Vec<String>, port_variables: &Vec<String>, completion_tokens: &mut Vec<CompletionItem>) {
        let ghost start = completion_tokens@;
        assert(start.take(start.len() as int) == start);
        push_item(completion_tokens, simple_item("To Src", Some("<-"), CompletionKind::Operator), Ghost(start), Ghost(Self::proposals().take(0)));
        push_item(completion_tokens, simple_item("To Dst", Some("->"), CompletionKind::Operator), Ghost(start), Ghost(Self::proposals().take(1)));
        push_item(completion_tokens, simple_item("Both", Some("<>"), CompletionKind::Operator), Ghost(start), Ghost(Self::proposals().take(2)));
        assert(Self::proposals().take(2).push(("Both"@, Some("<>"@), CompletionKind::Operator, None)) == Self::proposals());
    }
}

/// The usual ports of an application protocol, by its name.
pub open spec fn protocol_ports(p: Seq<char>) -> Seq<u16> {
    if p == "HTTP"@ || p == "HTTP/2"@ {
        seq![80, 443]
    } else if p == "SSL"@ || p == "TLS"@ {
        seq![443]
    } else if p == "SMB"@ {
        seq![139, 445]
    } else if p == "DCERPC"@ {
        seq![135]
    } else if p == "SMTP"@ {
        seq![25]
    } else if p == "FTP"@ {
        seq![21]
    } else if p == "SSH"@ {
        seq![22]
    } else if p == "DNS"@ {
        seq![53]
    } else if p == "Modbus"@ {
        seq![502]
    } else if p == "NFS"@ {
        seq![111]
    } else if p == "NTP"@ {
        seq![123]
    } else if p == "DHCP"@ {
        seq![67]
    } else if p == "TFTP"@ {
        seq![69]
    } else if p == "KRB5"@ {
        seq![88]
    } else if p == "SIP"@ {
        seq![5060, 5061]
    } else if p == "SNMP"@ {
        seq![161, 162]
    } else if p == "RDP"@ {
        seq![3389]
    } else {
        seq![]
    }
}

/// The usual ports of an application protocol, by its name; none for an
/// unknown one.
pub fn get_port_by_protocol(protocol: String) -> (r: Vec<u16>)
    ensures
        r@ == protocol_ports(protocol@),
{
    let p = protocol.as_str();
    if str_eq(p, "HTTP") || str_eq(p, "HTTP/2") {
        vec![80, 443]
    } else if str_eq(p, "SSL") || str_eq(p, "TLS") {
        vec![443]
    } else if str_eq(p, "SMB") {
        vec![139, 445]
    } else if str_eq(p, "DCERPC") {
        vec![135]
    } else if str_eq(p, "SMTP") {
        vec![25]
    } else if str_eq(p, "FTP") {
        vec![21]
    } else if str_eq(p, "SSH") {
        vec![22]
    } else if str_eq(p, "DNS") {
        vec![53]
    } else if str_eq(p, "Modbus") {
        vec![502]
    } else if str_eq(p, "NFS") {
        vec![111]
    } else if str_eq(p, "NTP") {
        vec![123]
    } else if str_eq(p, "DHCP") {
        vec![67]
    } else if str_eq(p, "TFTP") {
        vec![69]
    } else if str_eq(p, "KRB5") {
        vec![88]
    } else if str_eq(p, "SIP") {
        vec![5060, 5061]
    } else if str_eq(p, "SNMP") {
        vec![161, 162]
    } else if str_eq(p, "RDP") {
        vec![3389]
    } else {
        vec![]
    }
}

/// The first part of a rule that is still missing, in the order it is typed.
#[derive(Clone, Copy, Debug, PartialEq, Eq, Structural)]
pub enum Uncompleted {
    Action,
    Protocol,
    Direction,
    Address,
    Port,
    OptionKeyword,
    Other,
}

/// The first part of the rule that is missing: action, protocol, source,
/// source port, direction, destination, destination port, options.
pub fn get_next_uncompleted(rule: &Rule) -> (r: Uncompleted)
    ensures
        r == (if rule.action is None {
            Uncompleted::Action
        } else if rule.header.0.protocol is None {
            Uncompleted::Protocol
        } else if rule.header.0.source is None {
            Uncompleted::Address
        } else if rule.header.0.source_port is None {
            Uncompleted::Port
        } else if rule.header.0.direction is None {
            Uncompleted::Direction
        } else if rule.header.0.destination is None {
            Uncompleted::Address
        } else if rule.header.0.destination_port is None {
            Uncompleted::Port
        } else if rule.options is None {
            Uncompleted::OptionKeyword
        } else {
            Uncompleted::Other
        }),
{
    if rule.action.is_none() {
        Uncompleted::Action
    } else if rule.protocol().is_none() {
        Uncompleted::Protocol
    } else if rule.source().is_none() {
        Uncompleted::Address
    } else if rule.source_port().is_none() {
        Uncompleted::Port
    } else if rule.direction().is_none() {
        Uncompleted::Direction
    } else if rule.destination().is_none() {
        Uncompleted::Address
    } else if rule.destination_port().is_none() {
        Uncompleted::Port
    } else if rule.options.is_none() {
        Uncompleted::OptionKeyword
    } else {
        Uncompleted::Other
    }
}

/// The proposals are variable proposals: first the address variables of the
/// rules, each once, then their port variables, each once.
pub open spec fn variable_proposals(items: Seq<CompletionItem>, rules: Seq<(u32, (Rule, Span))>) -> bool {
    &&& forall|i: int| 0 <= i < items.len() ==> is_variable_item(#[trigger] items[i])
    &&& exists|k: int|
        0 <= k <= items.len() && unique_names(labels(items.take(k))) && name_set(labels(items.take(k)))
            == address_names(rules) && unique_names(labels(items.skip(k))) && name_set(
            labels(items.skip(k)),
        ) == port_names(rules)
}

fn variable_item(name: &String) -> (r: CompletionItem)
    ensures
        is_variable_item(r),
        r.label == *name,
{
    CompletionItem {
        label: name.clone(),
        insert_text: Some(name.clone()),
        kind: CompletionKind::Variable,
        detail: None,
    }
}

/// Appends a proposal for each name.
fn push_variable_items(names: &Vec<String>, items: &mut Vec<CompletionItem>)
    ensures
        final(items)@.len() == old(items)@.len() + names@.len(),
        final(items)@.take(old(items)@.len() as int) == old(items)@,
        forall|i: int| 0 <= i < names@.len() ==> is_variable_item(#[trigger] final(items)@[old(items)@.len() + i])
            && final(items)@[old(items)@.len() + i].label == names@[i],
{
    let ghost n0 = items@.len();
    let ghost start = items@;
    let mut i: usize = 0;
    while i < names.len()
        invariant
            i <= names@.len(),
            items@.len() == n0 + i,
            n0 == start.len(),
            items@.take(n0 as int) == start,
            forall|k: int| 0 <= k < i ==> is_variable_item(#[trigger] items@[n0 + k]) && items@[n0 + k].label == names@[k],
        decreases names@.len() - i,
    {
        let ghost before = items@;
        items.push(variable_item(&names[i]));
        assert(items@.take(n0 as int) == before.take(n0 as int));
        assert forall|k: int| 0 <= k < i + 1 implies is_variable_item(#[trigger] items@[n0 + k]) && items@[n0 + k].label == names@[k] by {
            if k < i {
                assert(items@[n0 + k] == before[n0 + k]);
            }
        }
        i = i + 1;
    }
}

/// Appends a proposal for each keyword of the dictionary, in its order.
pub fn get_completion_for_option_keywords(keywords: &KeywordMap, completion_tokens: &mut Vec<CompletionItem>)
    ensures
        final(completion_tokens)@.len() == old(completion_tokens)@.len() + keywords.entries@.len(),
        final(completion_tokens)@.take(old(completion_tokens)@.len() as int) == old(completion_tokens)@,
        forall|i: int| 0 <= i < keywords.entries@.len() ==> item_view(
            #[trigger] final(completion_tokens)@[old(completion_tokens)@.len() + i],
        ) == keyword_item(keywords.entries@[i].1),
{
    let ghost n0 = completion_tokens@.len();
    let ghost start = completion_tokens@;
    let mut i: usize = 0;
    while i < keywords.entries.len()
        invariant
            i <= keywords.entries@.len(),
            completion_tokens@.len() == n0 + i,
            n0 == start.len(),
            completion_tokens@.take(n0 as int) == start,
            forall|k: int| 0 <= k < i ==> item_view(#[trigger] completion_tokens@[n0 + k]) == keyword_item(keywords.entries@[k].1),
        decreases keywords.entries@.len() - i,
    {
        let keyword = &keywords.entries[i].1;
        let record = keyword.record();
        let mut insert = record.name.clone();
        let kind = match keyword {
            Keyword::NoOption(_) => {
                push_char(&mut insert, ';');
                CompletionKind::Constant
            },
            Keyword::Other(_) => {
                push_char(&mut insert, ':');
                CompletionKind::Keyword
            },
        };
        push_char(&mut insert, ' ');
        let item = CompletionItem {
            label: record.name.clone(),
            insert_text: Some(insert),
            kind,
            detail: Some(record.description.clone()),
        };
        let ghost before = completion_tokens@;
        completion_tokens.push(item);
        assert(completion_tokens@.take(n0 as int) == before.take(n0 as int));
        assert forall|k: int| 0 <= k < i + 1 implies item_view(#[trigger] completion_tokens@[n0 + k]) == keyword_item(keywords.entries@[k].1) by {
            if k < i {
                assert(completion_tokens@[n0 + k] == before[n0 + k]);
            }
        }
        i = i + 1;
    }
}

/// The proposals for the cursor at offset `col` of the line `line_text`: after
/// `$`, the names of every address and port variable of the document; after
/// `(`, or two characters after `;`, every keyword; an empty list elsewhere.
/// Nothing at all where the cursor is not inside the line.
pub fn get_completion(
    ast: &AST,
    line_text: &str,
    line: usize,
    col: usize,
    keywords: &KeywordMap,
) -> (r: Option<Vec<CompletionItem>>)
    ensures
        r is None <==> (col == 0 || col > line_text@.len()),
        r matches Some(items) ==> {
            let s = line_text@;
            if s[col - 1] == '$' {
                variable_proposals(items@, ast.rules@)
            } else if s[col - 1] == '(' || (col >= 2 && s[col - 2] == ';') {
                items@.len() == keywords.entries@.len() && forall|i: int|
                    0 <= i < items@.len() ==> item_view(#[trigger] items@[i]) == keyword_item(keywords.entries@[i].1)
            } else {
                items@.len() == 0
            }
        },
{
    let n = line_text.unicode_len();
    if col == 0 || col > n {
        return None;
    }
    let mut completion_tokens: Vec<CompletionItem> = Vec::new();
    if line_text.get_char(col - 1) == '$' {
        let mut address_variables: Vec<String> = Vec::new();
        let mut port_variables: Vec<String> = Vec::new();
        assert(name_set(address_variables@) =~= Set::empty());
        assert(name_set(port_variables@) =~= Set::empty());
        get_variables_from_ast(ast, &mut address_variables, &mut port_variables);
        push_variable_items(&address_variables, &mut completion_tokens);
        let ghost k = completion_tokens@.len() as int;
        let ghost first = completion_tokens@;
        push_variable_items(&port_variables, &mut completion_tokens);
        proof {
            assert(completion_tokens@.take(k) == first);
            assert forall|i: int| 0 <= i < k implies #[trigger] labels(first)[i] == address_variables@[i] by {
                assert(first[0 + i] == first[i]);
            }
            assert(labels(first) =~= address_variables@);
            let rest = completion_tokens@.skip(k);
            assert forall|i: int| 0 <= i < rest.len() implies #[trigger] labels(rest)[i] == port_variables@[i] by {
                assert(rest[i] == completion_tokens@[k + i]);
            }
            assert(labels(rest) =~= port_variables@);
            assert forall|i: int| 0 <= i < completion_tokens@.len() implies is_variable_item(#[trigger] completion_tokens@[i]) by {
                if i >= k {
                    assert(completion_tokens@[k + (i - k)] == completion_tokens@[i]);
                } else {
                    assert(completion_tokens@.take(k)[i] == completion_tokens@[i]);
                    assert(first[0 + i] == first[i]);
                }
            }
            let items = completion_tokens@;
            assert(0 <= k <= items.len() && unique_names(labels(items.take(k))) && name_set(
                labels(items.take(k)),
            ) == address_names(ast.rules@) && unique_names(labels(items.skip(k)))
                && name_set(labels(items.skip(k))) == port_names(ast.rules@));
            assert(variable_proposals(items, ast.rules@));
        }
        return Some(completion_tokens);
    }
    if line_text.get_char(col - 1) == '(' || (col >= 2 && line_text.get_char(col - 2) == ';') {
        get_completion_for_option_keywords(keywords, &mut completion_tokens);
        assert forall|i: int| 0 <= i < completion_tokens@.len() implies item_view(#[trigger] completion_tokens@[i]) == keyword_item(keywords.entries@[i].1) by {
            assert(completion_tokens@[0 + i] == completion_tokens@[i]);
        }
    }
    Some(completion_tokens)
}

} // verus!
