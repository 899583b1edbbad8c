use meerkat::action::Action;
use meerkat::completion::{get_completion, get_next_uncompleted, get_port_by_protocol, CompletionItem, CompletionKind, Completions, Uncompleted};
use meerkat::document::{format_edits, parse_document, rename_edits};
use meerkat::header::{IpAddress, NetworkAddress, NetworkDirection, NetworkPort};
use meerkat::parser::parse_line;
use meerkat::rule::{Rule, AST};
use meerkat::semantic_token::{
    encode_tokens, semantic_token_from_rule, ImCompleteSemanticToken, SemanticTokenData, TOKEN_COMMENT,
    TOKEN_OPERATOR, TOKEN_VARIABLE,
};
use meerkat::hover::get_hover;
use meerkat::span::Span;
use meerkat::suricata::{Keyword, KeywordMap, KeywordRecord};
use meerkat::suricata_log::{diagnostics_from_logs, LogMessage};

fn rule_of(text: &str) -> Rule {
    parse_line(text).0.expect("rule").0
}

fn labels(items: &[CompletionItem]) -> Vec<(String, Option<String>, CompletionKind)> {
    items.iter().map(|c| (c.label.clone(), c.insert_text.clone(), c.kind)).collect()
}

#[test]
fn a_document_is_read_line_by_line() {
    let lines: Vec<String> = vec![
        "# rules\n".to_string(),
        "alert tcp $A any -> any any (sid: 1;)\n".to_string(),
        "\n".to_string(),
        "not a ( rule\n".to_string(),
        "drop udp any any -> $B 53".to_string(),
    ];
    let (ast, tokens) = parse_document(&lines);
    let stored: Vec<u32> = ast.rules.iter().map(|(line, _)| *line).collect();
    assert_eq!(stored, vec![1, 4]);
    assert_eq!(tokens[0], ImCompleteSemanticToken { start: 0, length: 8, token_type: TOKEN_COMMENT });
    assert_eq!(tokens[1].start, 8);
    let last_line_start: usize = lines[..4].iter().map(|l| l.chars().count()).sum();
    assert!(tokens.iter().any(|t| t.start == last_line_start));
}

#[test]
fn only_rules_not_in_canonical_form_are_edited() {
    let lines: Vec<String> = vec![
        "alert tcp any any -> any any (sid: 1;)".to_string(),
        "alert  tcp any any -> any any (sid:1;)".to_string(),
    ];
    let mut ast = AST::new();
    for (i, line) in lines.iter().enumerate() {
        let (rule, span) = parse_line(line).0.unwrap();
        ast.insert(i as u32, rule, span);
    }
    let edits = format_edits(&ast, &lines, 0, u32::MAX);
    assert_eq!(edits, vec![(1, "alert tcp any any -> any any (sid: 1;)".to_string())]);
    assert!(format_edits(&ast, &lines, 0, 1).is_empty());
}

#[test]
fn renaming_puts_the_sigil_back() {
    let mut ast = AST::new();
    for (i, line) in ["alert tcp $HOME any -> $HOME any", "alert tcp any any -> $HOME any"].iter().enumerate() {
        let (rule, span) = parse_line(line).0.unwrap();
        ast.insert(i as u32, rule, span);
    }
    let edits = rename_edits(&ast, &0, &11, &"LAN".to_string()).unwrap();
    assert_eq!(
        edits,
        vec![
            (0, Span { start: 10, end: 15 }, "$LAN".to_string()),
            (0, Span { start: 23, end: 28 }, "$LAN".to_string()),
            (1, Span { start: 21, end: 26 }, "$LAN".to_string()),
        ]
    );
    assert!(rename_edits(&ast, &0, &2, &"LAN".to_string()).is_none());
}

#[test]
fn tokens_are_sorted_and_made_relative() {
    let tokens = vec![
        ImCompleteSemanticToken { start: 12, length: 2, token_type: 4 },
        ImCompleteSemanticToken { start: 0, length: 5, token_type: 2 },
        ImCompleteSemanticToken { start: 6, length: 3, token_type: 2 },
    ];
    let encoded = encode_tokens(&tokens, &vec![0, 10]);
    assert_eq!(
        encoded,
        vec![
            SemanticTokenData { delta_line: 0, delta_start: 0, length: 5, token_type: 2 },
            SemanticTokenData { delta_line: 0, delta_start: 6, length: 3, token_type: 2 },
            SemanticTokenData { delta_line: 1, delta_start: 2, length: 2, token_type: 4 },
        ]
    );
}

const LOG: &str = "18/10/2026 -- 06:09:00 - <Info> - This is Suricata version 6.0.0\n\
18/10/2026 -- 06:09:00 - <Error> - [ERRCODE: SC_ERR_INVALID_SIGNATURE(39)] - error parsing signature \"alert foo\"\n\
18/10/2026 -- 06:09:00 - <Error> - [ERRCODE: SC_ERR_INVALID_SIGNATURE(39)] - error parsing signature \"alert foo\" from file /tmp/x at line 3\n\
18/10/2026 -- 06:09:01 - <Error> - [ERRCODE: SC_ERR_UNKNOWN_PROTOCOL(124)] - protocol \"foo\" cannot be used\n\
18/10/2026 -- 06:09:01 - <Error> - [ERRCODE: SC_ERR_INVALID_SIGNATURE(39)] - error parsing signature \"alert foo\" from file /tmp/x at line 7\n";

#[test]
fn engine_log_lines_are_read() {
    let logs = LogMessage::parse_logs(LOG);
    assert_eq!(logs.len(), 5);
    assert_eq!(logs[0].log_level, "Info");
    assert!(logs[0].err_code.is_none());
    assert_eq!(logs[0].message, "This is Suricata version 6.0.0");
    assert_eq!(logs[0].timestamp.year, 2026);
    assert_eq!(logs[0].timestamp.minute, 9);
    let code = logs[3].err_code.as_ref().unwrap();
    assert_eq!(code.err_type, "SC_ERR_UNKNOWN_PROTOCOL");
    assert_eq!(code.err_code, 124);
    assert_eq!(LogMessage::parse_logs("garbage\n").len(), 0);
}

#[test]
fn engine_errors_take_the_line_named_after_them() {
    let logs = LogMessage::parse_logs(LOG);
    let diagnostics = diagnostics_from_logs(&logs);
    let seen: Vec<(u32, u32, &str)> = diagnostics.iter().map(|d| (d.line, d.code, d.message.as_str())).collect();
    assert_eq!(
        seen,
        vec![
            (7, 124, "protocol \"foo\" cannot be used"),
            (3, 39, "error parsing signature \"alert foo\""),
        ]
    );
}

#[test]
fn fixed_proposals_for_actions_ports_and_directions() {
    let mut items = vec![];
    Action::get_completion(&vec![], &vec![], &mut items);
    assert_eq!(items.len(), 7);
    assert_eq!(items[6].label, "rejectboth");
    assert_eq!(items[0].kind, CompletionKind::Operator);
    let mut items = vec![];
    NetworkPort::get_completion(&vec![], &vec![], &mut items);
    assert_eq!(labels(&items)[2], ("HTTPS".to_string(), Some("443".to_string()), CompletionKind::Value));
    assert_eq!(labels(&items)[5], ("any".to_string(), None, CompletionKind::Constant));
    let mut items = vec![];
    NetworkDirection::get_completion(&vec![], &vec![], &mut items);
    assert_eq!(labels(&items)[1], ("To Dst".to_string(), Some("->".to_string()), CompletionKind::Operator));
}

#[test]
fn usual_ports_of_protocols() {
    assert_eq!(get_port_by_protocol("HTTP/2".to_string()), vec![80, 443]);
    assert_eq!(get_port_by_protocol("SNMP".to_string()), vec![161, 162]);
    assert_eq!(get_port_by_protocol("RDP".to_string()), vec![3389]);
    assert!(get_port_by_protocol("gopher".to_string()).is_empty());
}

#[test]
fn the_next_missing_part_of_a_rule() {
    assert_eq!(get_next_uncompleted(&rule_of("alert tcp $A any -> $B any")), Uncompleted::OptionKeyword);
    assert_eq!(get_next_uncompleted(&rule_of("alert tcp $A any -> $B any (sid: 1;)")), Uncompleted::Other);
    assert_eq!(get_next_uncompleted(&rule_of("alert tcp $A")), Uncompleted::Port);
    assert_eq!(get_next_uncompleted(&rule_of("$A any -> any any")), Uncompleted::Action);
}

#[test]
fn rules_are_equal_up_to_spans_and_option_order() {
    let a = rule_of("alert tcp $A any -> any any (msg: \"x\"; sid: 1;)");
    let b = rule_of("  alert tcp   $A any  ->  any any (sid: 1; msg: \"x\")");
    let c = rule_of("alert tcp $A any -> any any (msg: \"y\"; sid: 1;)");
    assert!(a == b);
    assert!(a != c);
    let reparsed = rule_of(&a.to_string());
    assert!(reparsed == a);
}

#[test]
fn a_line_holding_two_rules_is_not_well_formed() {
    let mut ast = AST::new();
    assert!(ast.well_formed());
    let (rule, span) = parse_line("alert tcp any any -> any any").0.unwrap();
    ast.rules.push((3, (rule, span)));
    let (rule, span) = parse_line("drop tcp any any -> any any").0.unwrap();
    ast.rules.push((3, (rule, span)));
    assert!(!ast.well_formed());
}

#[test]
fn addresses_and_ports_are_equal_up_to_spans() {
    let a = rule_of("alert tcp [1.1.1.1, $A] [80,!$P] -> any any");
    let b = rule_of("alert tcp   [1.1.1.1,$A]   [80, !$P] -> any any");
    let c = rule_of("alert tcp [$A, 1.1.1.1] [80,!$P] -> any any");
    assert!(a.source().as_ref().unwrap().0 == b.source().as_ref().unwrap().0);
    assert!(a.source_port().as_ref().unwrap().0 == b.source_port().as_ref().unwrap().0);
    assert!(a.source().as_ref().unwrap().0 != c.source().as_ref().unwrap().0);
    assert!(a.header.0 == b.header.0);
    assert!(a.header.0 != c.header.0);
}

#[test]
fn an_empty_dictionary_and_document_are_valid_inputs() {
    let empty = KeywordMap::new();
    let ast = AST::new();
    assert_eq!(get_completion(&ast, "alert tcp any any -> any any (", 0, 30, &empty).unwrap().len(), 0);
    assert_eq!(get_completion(&ast, "alert tcp $", 0, 11, &empty).unwrap().len(), 0);
    assert!(get_hover(&ast, &0, &3, &empty).is_none());
    let mut one = AST::new();
    let (rule, span) = parse_line("alert tcp any any -> any any (msg: \"x\";)").0.unwrap();
    one.insert(0, rule, span);
    assert!(get_hover(&one, &0, &31, &empty).is_none());
}

#[test]
fn storing_a_keyword_again_replaces_it() {
    let record = |features: &str| KeywordRecord {
        name: "nocase".to_string(),
        description: features.to_string(),
        app_layer: String::new(),
        features: features.to_string(),
        documentation: String::new(),
    };
    let mut map = KeywordMap::new();
    let (name, keyword) = KeywordRecord::to_keyword(record("none"));
    map.insert(name, keyword);
    let (name, keyword) = KeywordRecord::to_keyword(record("No option"));
    map.insert(name, keyword);
    assert_eq!(map.entries.len(), 1);
    assert!(matches!(map.get(&"nocase".to_string()), Some(Keyword::NoOption(_))));
    assert!(map.get(&"msg".to_string()).is_none());
}

#[test]
fn keywords_are_proposed_after_an_opening_parenthesis_in_the_first_column() {
    let mut map = KeywordMap::new();
    let (name, keyword) = KeywordRecord::to_keyword(KeywordRecord {
        name: "msg".to_string(),
        description: "d".to_string(),
        app_layer: String::new(),
        features: String::new(),
        documentation: String::new(),
    });
    map.insert(name, keyword);
    let ast = AST::new();
    let items = get_completion(&ast, "(", 0, 1, &map).unwrap();
    assert_eq!(items.len(), 1);
    assert_eq!(items[0].insert_text.as_deref(), Some("msg: "));
    assert_eq!(items[0].kind, CompletionKind::Keyword);
    assert!(get_completion(&ast, "a", 0, 1, &map).unwrap().is_empty());
    assert!(get_completion(&ast, "alert tcp ", 0, 10, &map).unwrap().is_empty());
    assert!(get_completion(&ast, "alert", 0, 0, &map).is_none());
}

#[test]
fn negation_tokens_stand_on_the_bang_and_groups_are_walked() {
    let (rule, _) = parse_line("alert tcp ![$A,[$B,1.1.1.1]] !80 -> any any");
    let mut tokens = vec![];
    semantic_token_from_rule(&rule.unwrap(), &0, &mut tokens);
    let ops: Vec<usize> = tokens.iter().filter(|t| t.token_type == TOKEN_OPERATOR).map(|t| t.start).collect();
    assert_eq!(ops, vec![10, 29]);
    let vars: Vec<(usize, usize)> = tokens
        .iter()
        .filter(|t| t.token_type == TOKEN_VARIABLE)
        .map(|t| (t.start, t.length))
        .collect();
    assert_eq!(vars, vec![(12, 2), (16, 2)]);
}

#[test]
fn port_forms_follow_the_grammar() {
    let rule = rule_of("alert tcp any 80: -> any 1:2");
    assert!(matches!(rule.source_port().as_ref().unwrap().0, NetworkPort::PortOpenRange((80, s), true) if s == Span { start: 14, end: 16 }));
    assert!(matches!(rule.destination_port().as_ref().unwrap().0, NetworkPort::PortRange((1, _), (2, _))));
    assert!(parse_line("alert tcp any !!80 -> any any").0.is_none());
    assert!(parse_line("alert tcp !!$A any -> any any").0.is_none());
    let (rule, diags) = parse_line("alert tcp any : -> any any");
    assert!(rule.is_none());
    assert!(diags.iter().any(|d| d.span == Span { start: 14, end: 15 }));
}

#[test]
fn a_cidr_range_reads_as_one() {
    let rule = rule_of("alert tcp 192.168.0.0/16 any -> any any");
    match &rule.source().as_ref().unwrap().0 {
        NetworkAddress::CIDR((ip, s1), (16, s2)) => {
            assert_eq!(*ip, IpAddress::V4(192, 168, 0, 0));
            assert_eq!(*s1, Span { start: 10, end: 21 });
            assert_eq!(*s2, Span { start: 22, end: 24 });
        }
        other => panic!("unexpected {other:?}"),
    }
    let (rule, diags) = parse_line("alert tcp 10.0.0.0/300 any -> any any");
    assert!(rule.is_none());
    assert!(diags.iter().any(|d| d.span == Span { start: 19, end: 22 }));
}

#[test]
fn escaped_bare_values_survive_formatting() {
    let rule = rule_of(r#"alert tcp $A $B -> $C $D (k: x\;y; m: \"abc";)"#);
    let text = rule.to_string();
    assert_eq!(text, r#"alert tcp $A $B -> $C $D (k: x\;y; m: \"abc\";)"#);
    let again = rule_of(&text);
    assert!(again == rule);
    let options = again.options.as_ref().unwrap();
    assert_eq!(options.len(), 2);
    assert_eq!(options[1].0.to_string(), r#"m: \"abc\""#);
}

#[test]
fn out_of_range_literals_are_reported_on_their_span() {
    let (_, diags) = parse_line("alert tcp 256.1.1.1 any -> any any");
    assert!(diags.iter().any(|d| d.span == Span { start: 10, end: 13 }));
    let (_, diags) = parse_line("alert tcp any 70000 -> any any");
    assert!(diags.iter().any(|d| d.span == Span { start: 14, end: 19 }));
}
