use haproxy_lsp::index::{parse, HaproxyLsp};
use haproxy_lsp::model::{Position, ReferenceContext, SymbolKind};

const URI: &str = "file:///etc/haproxy/haproxy.cfg";

fn position(line: u32, character: u32) -> Position {
    Position { line, character }
}

#[test]
fn declarations_are_scanned_in_line_order() {
    let text = "frontend web\n    acl is_api path_beg /api\nbackend api_backend\n    server s1 10.0.0.1:80\nlisten stats\n";
    let symbols = parse(URI, text);
    let found: Vec<(String, SymbolKind, u32)> = symbols
        .iter()
        .map(|s| (s.name.clone(), s.kind, s.range.start.line))
        .collect();
    assert_eq!(
        found,
        vec![
            ("web".to_string(), SymbolKind::Frontend, 0),
            ("is_api".to_string(), SymbolKind::Acl, 1),
            ("api_backend".to_string(), SymbolKind::Backend, 2),
            ("s1".to_string(), SymbolKind::Server, 3),
            ("stats".to_string(), SymbolKind::Listen, 4),
        ]
    );
    for symbol in &symbols {
        assert_eq!(symbol.uri, URI);
        assert!(symbol.references.is_empty());
    }
}

#[test]
fn declaration_range_spans_the_trimmed_line() {
    let symbols = parse(URI, "   backend   spaced name  \n");
    assert_eq!(symbols.len(), 1);
    assert_eq!(symbols[0].name, "spaced name");
    assert_eq!(symbols[0].range.start, position(0, 0));
    assert_eq!(symbols[0].range.end, position(0, 21));
}

#[test]
fn declaration_range_counts_bytes() {
    let symbols = parse(URI, "backend caf\u{e9}\n");
    assert_eq!(symbols[0].name, "caf\u{e9}");
    assert_eq!(symbols[0].range.end, position(0, 13));
}

#[test]
fn empty_names_declare_nothing() {
    assert!(parse(URI, "backend \nfrontend\nacl\nserver \nlisten   \n").is_empty());
}

#[test]
fn acl_reference_resolves_to_its_declaration() {
    let text = "acl is_api path_beg /api\nhttp-request deny if is_api";
    let mut lsp = HaproxyLsp::new();
    lsp.parse_document(URI, text);
    let symbol = lsp.find_definition(URI, &position(1, 21), text).unwrap();
    assert_eq!(symbol.name, "is_api");
    assert_eq!(symbol.kind, SymbolKind::Acl);
    assert_eq!(symbol.range.start, position(0, 0));
    assert_eq!(symbol.range.end, position(0, 24));
    assert_eq!(symbol.references.len(), 1);
    assert_eq!(symbol.references[0].context, ReferenceContext::AclCondition);
    assert_eq!(symbol.references[0].range.start, position(1, 0));
    assert_eq!(symbol.references[0].range.end, position(1, 27));
}

#[test]
fn use_backend_line_resolves_to_the_backend_not_the_acl() {
    let text = "acl is_api path_beg /api\nuse_backend api_backend if is_api";
    let mut lsp = HaproxyLsp::new();
    lsp.parse_document(URI, text);
    // the ACL gets its reference from the condition
    let symbols = lsp.symbols_of(URI).unwrap();
    assert_eq!(symbols.len(), 1);
    assert_eq!(symbols[0].references.len(), 1);
    assert_eq!(symbols[0].references[0].context, ReferenceContext::AclCondition);
    // a definition query on that line asks for the backend, wherever the cursor is,
    // and no backend of that name is declared
    for character in [0, 13, 27, 32] {
        assert!(lsp.find_definition(URI, &position(1, character), text).is_none());
    }
}

#[test]
fn dangling_default_backend_is_dropped() {
    let text = "frontend fe\n  default_backend be1";
    let mut lsp = HaproxyLsp::new();
    lsp.parse_document(URI, text);
    let symbols = lsp.symbols_of(URI).unwrap();
    assert_eq!(symbols.len(), 1);
    assert_eq!(symbols[0].name, "fe");
    assert!(symbols[0].references.is_empty());
    assert!(lsp.find_definition(URI, &position(1, 20), text).is_none());
    assert_eq!(
        lsp.extract_backend_from_default_backend("  default_backend be1"),
        Some("be1".to_string())
    );
}

#[test]
fn condition_names_strip_negation_and_stop_at_brace() {
    let lsp = HaproxyLsp::new();
    let names = lsp.extract_acl_names_from_condition(
        "http-request deny if cond1 && !cond2 || { src 10.0.0.0/8 }",
        "if",
    );
    assert_eq!(names, Some(vec!["cond1".to_string(), "cond2".to_string()]));
}
