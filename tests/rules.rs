use meerkat::action::Action;
use meerkat::completion::{get_completion, get_variables_from_ast, CompletionKind};
use meerkat::header::{IpAddress, NetworkAddress, NetworkDirection, NetworkPort};
use meerkat::hover::{get_cidr_bounds, get_hover};
use meerkat::options::{OptionsVariable, RuleOption};
use meerkat::parser::{classify_line, parse_line, LineKind};
use meerkat::reference::get_reference;
use meerkat::rule::{Rule, AST};
use meerkat::semantic_token::{
    semantic_token_from_rule, ImCompleteSemanticToken, TOKEN_FUNCTION, TOKEN_KEYWORD,
    TOKEN_OPERATOR, TOKEN_STRING, TOKEN_STRUCT, TOKEN_VARIABLE,
};
use meerkat::span::Span;
use meerkat::suricata::{Keyword, KeywordMap, KeywordRecord};

fn parse(text: &str) -> Rule {
    let (rule, diags) = parse_line(text);
    assert!(diags.is_empty(), "unexpected diagnostics for {text:?}: {diags:?}");
    rule.expect("rule").0
}

fn ast_of(lines: &[&str]) -> AST {
    let mut ast = AST::new();
    for (i, line) in lines.iter().enumerate() {
        if let (Some((rule, span)), _) = parse_line(line) {
            ast.insert(i as u32, rule, span);
        }
    }
    ast
}

fn record(name: &str, features: &str) -> KeywordRecord {
    KeywordRecord {
        name: name.to_string(),
        description: format!("{name} description"),
        app_layer: String::new(),
        features: features.to_string(),
        documentation: format!("https://docs/{name}"),
    }
}

fn keywords() -> KeywordMap {
    let mut map = KeywordMap::new();
    for r in [record("msg", ""), record("nocase", "No option"), record("sid", "")] {
        let (name, keyword) = KeywordRecord::to_keyword(r);
        map.insert(name, keyword);
    }
    map
}

const SAMPLE: &str = "alert tcp $HOME_NET any -> $EXTERNAL_NET any (msg: \"test\"; sid: 1;)";

#[test]
fn sample_rule_parses_into_its_parts() {
    let rule = parse(SAMPLE);
    assert_eq!(rule.action.as_ref().unwrap().0, Action::Alert);
    assert_eq!(rule.action.as_ref().unwrap().1, Span { start: 0, end: 5 });
    assert_eq!(rule.protocol().as_ref().unwrap().0, "tcp");
    match &rule.source().as_ref().unwrap().0 {
        NetworkAddress::IPVariable((name, span)) => {
            assert_eq!(name, "HOME_NET");
            assert_eq!(*span, Span { start: 10, end: 19 });
        }
        other => panic!("unexpected source {other:?}"),
    }
    assert!(matches!(rule.source_port().as_ref().unwrap().0, NetworkPort::Any(_)));
    assert_eq!(rule.direction().as_ref().unwrap().0, NetworkDirection::SrcToDst);
    let options = rule.options.as_ref().unwrap();
    assert_eq!(options.len(), 2);
    match &options[0].0 {
        RuleOption::KeywordPair((k, _), values) => {
            assert_eq!(k, "msg");
            assert!(matches!(&values[0].0, OptionsVariable::String((v, _)) if v == "test"));
        }
        other => panic!("unexpected option {other:?}"),
    }
}

#[test]
fn formatting_then_parsing_gives_the_same_rule() {
    let rule = parse(SAMPLE);
    let text = rule.to_string();
    assert_eq!(text, SAMPLE);
    let again = parse(&text);
    assert_eq!(again.to_string(), text);
}

#[test]
fn non_canonical_text_is_normalised() {
    let rule = parse("  alert   tcp [1.1.1.1,2.2.2.2]  [80,443] <> any any (msg:\"a\\\"b\" ; nocase;)  ");
    let text = rule.to_string();
    assert_eq!(text, "alert tcp [1.1.1.1, 2.2.2.2] [80,443] <> any any (msg: \"a\\\"b\"; nocase;)");
    assert_eq!(parse(&text).to_string(), text);
}

#[test]
fn spans_lie_inside_the_line() {
    let text = "alert tcp !$A [1:2,!3] -> 10.0.0.0/8 :1024 (content: \"x\", nocase; sid: 2;)";
    let (rule, _) = parse_line(text);
    let (rule, span) = rule.unwrap();
    let n = text.chars().count();
    assert_eq!(span, Span { start: 0, end: n });
    let mut tokens = vec![];
    semantic_token_from_rule(&(rule, span), &0, &mut tokens);
    for t in &tokens {
        assert!(t.start + t.length <= n, "{t:?}");
    }
}

#[test]
fn nested_groups_yield_every_variable_once() {
    let rule = parse("alert tcp [$A,[$B,!$C]] any -> any any");
    let address = &rule.source().as_ref().unwrap().0;
    let names: Vec<String> = address.find_variables(&None).unwrap().into_iter().map(|(n, _)| n).collect();
    assert_eq!(names, vec!["A", "B", "C"]);
    let only_b = address.find_variables(&Some("B".to_string())).unwrap();
    assert_eq!(only_b.len(), 1);
    assert_eq!(only_b[0].0, "B");
    assert!(address.find_variables(&Some("D".to_string())).is_none());
}

#[test]
fn port_variables_are_found_in_groups_and_negations() {
    let rule = parse("alert tcp any [$P,!$Q,80] -> any any");
    let port = &rule.source_port().as_ref().unwrap().0;
    let names: Vec<String> = port.find_variables(&None).unwrap().into_iter().map(|(n, _)| n).collect();
    assert_eq!(names, vec!["P", "Q"]);
}

#[test]
fn cidr_bounds_of_a_class_b_range() {
    let (first, last) = get_cidr_bounds(&IpAddress::V4(192, 168, 0, 0), 16).unwrap();
    assert_eq!(first, IpAddress::V4(192, 168, 0, 0));
    assert_eq!(last, IpAddress::V4(192, 168, 255, 255));
}

#[test]
fn cidr_bounds_clear_and_set_host_bits() {
    let (first, last) = get_cidr_bounds(&IpAddress::V4(10, 1, 2, 3), 20).unwrap();
    assert_eq!(first, IpAddress::V4(10, 1, 0, 0));
    assert_eq!(last, IpAddress::V4(10, 1, 15, 255));
    assert!(get_cidr_bounds(&IpAddress::V4(10, 1, 2, 3), 33).is_none());
    let (first, last) = get_cidr_bounds(&IpAddress::V6(0xfd00_1234_5678u128 << 80), 24).unwrap();
    assert_eq!(first, IpAddress::V6(0xfd00_1200u128 << 96));
    assert_eq!(last, IpAddress::V6((0xfd00_1200u128 << 96) | ((1u128 << 104) - 1)));
}

#[test]
fn hover_on_a_cidr_range_gives_its_bounds() {
    let ast = ast_of(&["alert tcp 192.168.0.0/16 any -> any any"]);
    let (text, span) = get_hover(&ast, &0, &12, &keywords()).unwrap();
    assert_eq!(text, "192.168.0.0/16 — 192.168.0.0 to 192.168.255.255");
    assert_eq!(span, Span { start: 10, end: 24 });
}

#[test]
fn a_lone_colon_is_not_a_port() {
    let (rule, diags) = parse_line("alert tcp any : -> any any");
    assert!(rule.is_none());
    assert!(!diags.is_empty());
    assert!(diags.iter().any(|d| d.message.contains("Port range cannot be")));
}

#[test]
fn completion_after_dollar_lists_the_variables() {
    let ast = ast_of(&[
        "alert tcp $HOME_NET any -> $DMZ any (sid: 1;)",
        "alert tcp $HOME_NET $WEB_PORTS -> any any (sid: 2;)",
    ]);
    let line = "alert tcp $";
    let items = get_completion(&ast, line, 2, 11, &keywords()).unwrap();
    let labels: Vec<&str> = items.iter().map(|c| c.label.as_str()).collect();
    assert_eq!(labels, vec!["HOME_NET", "DMZ", "WEB_PORTS"]);
    for item in &items {
        assert_eq!(item.kind, CompletionKind::Variable);
        assert_eq!(item.insert_text.as_deref(), Some(item.label.as_str()));
    }
}

#[test]
fn completion_after_an_option_lists_the_keywords() {
    let ast = ast_of(&[SAMPLE]);
    let items = get_completion(&ast, "alert tcp any any -> any any (msg: \"x\"; ", 0, 40, &keywords()).unwrap();
    let inserts: Vec<&str> = items.iter().map(|c| c.insert_text.as_deref().unwrap()).collect();
    assert_eq!(inserts, vec!["msg: ", "nocase; ", "sid: "]);
    assert_eq!(items[1].kind, CompletionKind::Constant);
    assert_eq!(items[0].kind, CompletionKind::Keyword);
    assert_eq!(items[0].detail.as_deref(), Some("msg description"));
    let after_paren = get_completion(&ast, "alert tcp any any -> any any (", 0, 30, &keywords()).unwrap();
    assert_eq!(after_paren.len(), 3);
}

#[test]
fn completion_elsewhere_proposes_nothing() {
    let ast = ast_of(&[SAMPLE]);
    assert_eq!(get_completion(&ast, "alert tcp", 0, 9, &keywords()).unwrap().len(), 0);
    assert!(get_completion(&ast, "alert", 0, 0, &keywords()).is_none());
    assert!(get_completion(&ast, "alert", 0, 6, &keywords()).is_none());
}

#[test]
fn variables_of_the_document_are_collected_once() {
    let ast = ast_of(&["alert tcp [$A,$B] $P -> $A any", "alert tcp $B $P -> $C $Q"]);
    let mut addresses = vec![];
    let mut ports = vec![];
    get_variables_from_ast(&ast, &mut addresses, &mut ports);
    assert_eq!(addresses, vec!["A", "B", "C"]);
    assert_eq!(ports, vec!["P", "Q"]);
}

#[test]
fn rename_excludes_the_origin_unless_asked() {
    let ast = ast_of(&[
        "alert tcp $HOME_NET any -> any any (sid: 1;)",
        "alert tcp any any -> $HOME_NET any (sid: 2;)",
    ]);
    let others = get_reference(&ast, &0, &12, false).unwrap();
    assert_eq!(others.len(), 1);
    assert_eq!(others[0].0, 1);
    assert_eq!(others[0].1 .1, Span { start: 21, end: 30 });
    let all = get_reference(&ast, &0, &12, true).unwrap();
    assert_eq!(all.len(), 2);
    assert_eq!(all[0].0, 0);
    assert_eq!(all[0].1 .1, Span { start: 10, end: 19 });
    assert!(get_reference(&ast, &0, &3, true).is_none());
    assert!(get_reference(&ast, &5, &12, true).is_none());
}

#[test]
fn hover_on_any_gives_nothing() {
    let ast = ast_of(&["alert tcp any any -> any any (msg: \"x\";)"]);
    assert!(get_hover(&ast, &0, &11, &keywords()).is_none());
    assert!(get_hover(&ast, &0, &22, &keywords()).is_none());
}

#[test]
fn hover_on_a_keyword_gives_its_documentation() {
    let ast = ast_of(&[SAMPLE]);
    let (text, span) = get_hover(&ast, &0, &47, &keywords()).unwrap();
    assert_eq!(text, "**msg**\n\nmsg description\n\n*Documentation: https://docs/msg*");
    assert_eq!(span, Span { start: 46, end: 49 });
    assert!(get_hover(&ast, &0, &52, &keywords()).is_none());
}

#[test]
fn actions_are_read_by_name() {
    assert_eq!(Action::from_str("alert"), Action::Alert);
    assert_eq!(Action::from_str("rejectboth"), Action::Rejectboth);
    assert_eq!(Action::from_str("log"), Action::Other("log".to_string()));
    assert_eq!(Action::Rejectdst.to_string(), "rejectdst");
}

#[test]
fn directions_and_open_ranges() {
    let rule = parse("alert tcp any 1024: <- any :80");
    assert_eq!(rule.direction().as_ref().unwrap().0, NetworkDirection::DstToSrc);
    assert!(matches!(rule.source_port().as_ref().unwrap().0, NetworkPort::PortOpenRange((1024, _), true)));
    assert!(matches!(rule.destination_port().as_ref().unwrap().0, NetworkPort::PortOpenRange((80, _), false)));
    assert_eq!(rule.to_string(), "alert tcp any 1024: <- any :80 ");
    let odd = parse("alert tcp any any <<- any any");
    assert_eq!(odd.direction().as_ref().unwrap().0, NetworkDirection::Unrecognized("<<-".to_string()));
}

#[test]
fn out_of_range_numbers_are_reported() {
    let (rule, diags) = parse_line("alert tcp 300.1.1.1 any -> any any");
    assert!(rule.is_none());
    assert!(diags.iter().any(|d| d.message.contains("less than 255") && d.span == Span { start: 10, end: 13 }));
    let (rule, diags) = parse_line("alert tcp any 70000 -> any any");
    assert!(rule.is_none());
    assert!(diags.iter().any(|d| d.span == Span { start: 14, end: 19 }));
}

#[test]
fn ipv6_addresses_are_read_and_written_back() {
    let rule = parse("alert tcp fe80::1/64 any -> ::1 any");
    match &rule.source().as_ref().unwrap().0 {
        NetworkAddress::CIDR((IpAddress::V6(v), _), (64, _)) => assert_eq!(*v, 0xfe80u128 << 112 | 1),
        other => panic!("unexpected {other:?}"),
    }
    assert_eq!(rule.to_string(), "alert tcp fe80::1/64 any -> ::1 any ");
}

#[test]
fn escaped_values_keep_their_characters() {
    let rule = parse(r#"alert tcp any any -> any any (msg: "a\;b\\c"; pcre: x\;y;)"#);
    let options = rule.options.as_ref().unwrap();
    match &options[0].0 {
        RuleOption::KeywordPair(_, values) => {
            assert!(matches!(&values[0].0, OptionsVariable::String((v, _)) if v == "a;b\\c"))
        }
        other => panic!("unexpected {other:?}"),
    }
    match &options[1].0 {
        RuleOption::KeywordPair(_, values) => {
            assert!(matches!(&values[0].0, OptionsVariable::Other((v, _)) if v == "x;y"))
        }
        other => panic!("unexpected {other:?}"),
    }
    assert_eq!(options[0].0.to_string(), r#"msg: "a\;b\\c""#);
}

#[test]
fn blank_and_comment_lines_are_not_rules() {
    assert_eq!(classify_line("   \t"), LineKind::Blank);
    assert_eq!(classify_line("  # alert tcp any any -> any any"), LineKind::Comment);
    assert_eq!(classify_line("alert"), LineKind::Rule);
    let (rule, diags) = parse_line("# comment");
    assert!(rule.is_none() && diags.is_empty());
    let (rule, diags) = parse_line("");
    assert!(rule.is_none() && diags.is_empty());
}

#[test]
fn semantic_tokens_follow_the_rule() {
    let text = "alert tcp !$A any -> any any (msg: \"x\";)";
    let (rule, _) = parse_line(text);
    let mut tokens = vec![];
    semantic_token_from_rule(&rule.unwrap(), &100, &mut tokens);
    let kinds: Vec<usize> = tokens.iter().map(|t| t.token_type).collect();
    assert_eq!(
        kinds,
        vec![TOKEN_FUNCTION, TOKEN_FUNCTION, TOKEN_OPERATOR, TOKEN_VARIABLE, 5, TOKEN_STRUCT, TOKEN_STRUCT, TOKEN_KEYWORD, TOKEN_KEYWORD, TOKEN_STRING]
    );
    assert_eq!(tokens[0], ImCompleteSemanticToken { start: 100, length: 5, token_type: TOKEN_FUNCTION });
    assert_eq!(tokens[3], ImCompleteSemanticToken { start: 111, length: 2, token_type: TOKEN_VARIABLE });
}

#[test]
fn keywords_without_values_are_told_apart() {
    let (name, keyword) = KeywordRecord::to_keyword(record("nocase", "No option allowed"));
    assert_eq!(name, "nocase");
    assert!(matches!(keyword, Keyword::NoOption(_)));
    let (_, keyword) = KeywordRecord::to_keyword(record("msg", "none"));
    assert!(matches!(keyword, Keyword::Other(_)));
}

#[test]
fn the_document_keeps_one_rule_per_line() {
    let mut ast = ast_of(&[SAMPLE]);
    let (rule, span) = parse_line("drop udp any any -> any any").0.unwrap();
    ast.insert(0, rule, span);
    assert_eq!(ast.rules.len(), 1);
    assert_eq!(ast.get(0).unwrap().0.action.as_ref().unwrap().0, Action::Drop);
    assert!(ast.get(1).is_none());
}
