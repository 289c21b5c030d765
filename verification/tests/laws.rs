use haproxy_lsp::index::{parse, HaproxyLsp};
use haproxy_lsp::launcher::{candidate_paths, launch_command};
use haproxy_lsp::model::{Position, ReferenceContext, Symbol, SymbolKind};

const URI: &str = "file:///etc/haproxy/haproxy.cfg";
const OTHER: &str = "file:///etc/haproxy/other.cfg";
const TEXT: &str = "global\n  daemon\n\nfrontend web\n  bind :80\n  acl is_api path_beg /api\n  acl is_old hdr(host) old.example.org\n  use_backend api if is_api !is_old\n  use_backend legacy unless is_api || { src 10.0.0.0/8 }\n  default_backend api\n\nbackend api\n  server s1 10.0.0.1:80\n  server s2 10.0.0.2:80\n\nlisten stats\n  bind :8404\r\n";

fn summary(symbols: &[Symbol]) -> Vec<(String, SymbolKind, (u32, u32, u32, u32), String, usize)> {
    symbols
        .iter()
        .map(|s| {
            (
                s.name.clone(),
                s.kind,
                (s.range.start.line, s.range.start.character, s.range.end.line, s.range.end.character),
                s.uri.clone(),
                s.references.len(),
            )
        })
        .collect()
}

#[test]
fn parsing_gives_the_expected_symbols() {
    let expected = vec![
        ("web".to_string(), SymbolKind::Frontend, (3, 0, 3, 12), URI.to_string(), 0),
        ("is_api".to_string(), SymbolKind::Acl, (5, 0, 5, 24), URI.to_string(), 2),
        ("is_old".to_string(), SymbolKind::Acl, (6, 0, 6, 36), URI.to_string(), 1),
        ("api".to_string(), SymbolKind::Backend, (11, 0, 11, 11), URI.to_string(), 2),
        ("s1".to_string(), SymbolKind::Server, (12, 0, 12, 21), URI.to_string(), 0),
        ("s2".to_string(), SymbolKind::Server, (13, 0, 13, 21), URI.to_string(), 0),
        ("stats".to_string(), SymbolKind::Listen, (15, 0, 15, 12), URI.to_string(), 0),
    ];
    assert_eq!(summary(&parse(URI, TEXT)), expected);
}

#[test]
fn parsing_again_changes_nothing() {
    let mut lsp = HaproxyLsp::new();
    lsp.parse_document(OTHER, "backend api\n");
    lsp.parse_document(URI, TEXT);
    let once = summary(&lsp.symbols_of(URI).unwrap());
    let other = summary(&lsp.symbols_of(OTHER).unwrap());
    lsp.parse_document(URI, TEXT);
    lsp.parse_document(URI, TEXT);
    assert_eq!(summary(&lsp.symbols_of(URI).unwrap()), once);
    assert_eq!(summary(&lsp.symbols_of(OTHER).unwrap()), other);
    assert_eq!(once, summary(&parse(URI, TEXT)));
    assert_eq!(lsp.document_count(), 2);
}

#[test]
fn parsing_replaces_the_symbols_of_the_document() {
    let mut lsp = HaproxyLsp::new();
    assert!(lsp.symbols_of(URI).is_none());
    assert_eq!(lsp.document_count(), 0);
    lsp.parse_document(URI, TEXT);
    assert_eq!(lsp.symbols_of(URI).unwrap().len(), 7);
    lsp.parse_document(URI, "backend only\n");
    let symbols = lsp.symbols_of(URI).unwrap();
    assert_eq!(summary(&symbols), summary(&parse(URI, "backend only\n")));
    assert!(lsp.find_symbol_by_name("api", SymbolKind::Backend).is_none());
    lsp.parse_document(URI, "");
    assert_eq!(lsp.symbols_of(URI).map(|s| s.len()), Some(0));
    assert_eq!(lsp.document_count(), 1);
    assert!(lsp.symbols_of(OTHER).is_none());
}

#[test]
fn backend_declaration_query_answers_from_the_same_document() {
    let mut lsp = HaproxyLsp::new();
    lsp.parse_document(URI, TEXT);
    lsp.parse_document(OTHER, "backend api\nuse_backend api\nuse_backend api\nuse_backend api\n");
    let symbols = parse(URI, TEXT);
    let api = symbols.iter().find(|s| s.name == "api").unwrap();
    for character in [0, 5, 10, 11] {
        let found = lsp.find_declaration(URI, &Position { line: 11, character }, TEXT).unwrap();
        assert_eq!(found.len(), api.references.len());
        for (a, b) in found.iter().zip(api.references.iter()) {
            assert_eq!((a.range, &a.uri, a.context), (b.range, &b.uri, b.context));
        }
    }
    // asked of the later document, the query still answers from the first one that declares the name
    let other = "backend api\nuse_backend api\nuse_backend api\nuse_backend api\n";
    let found = lsp.find_declaration(OTHER, &Position { line: 0, character: 0 }, other).unwrap();
    assert_eq!(found.len(), 2);
    assert!(found.iter().all(|r| r.uri == URI));
}

#[test]
fn use_backend_reference_counts() {
    let count = |symbols: &[Symbol], name: &str| {
        symbols
            .iter()
            .filter(|s| s.name == name && s.kind == SymbolKind::Backend)
            .map(|s| s.references.iter().filter(|r| r.context == ReferenceContext::UseBackend).count())
            .collect::<Vec<usize>>()
    };
    let symbols = parse(URI, "backend x\nuse_backend x\n");
    assert_eq!(count(&symbols, "x"), vec![1]);
    let symbols = parse(URI, "backend x\nuse_backend x if cond\nacl cond always_true\n");
    assert_eq!(count(&symbols, "x"), vec![1]);
    let symbols = parse(URI, "backend y\nuse_backend x if cond\n");
    assert_eq!(count(&symbols, "y"), vec![0]);
    assert!(symbols.iter().all(|s| s.references.is_empty()));
    let symbols = parse(URI, "backend x\nbackend x\nuse_backend x\n");
    assert_eq!(count(&symbols, "x"), vec![1, 0]);
    let symbols = parse(URI, "backend use_backend\nuse_backend use_backend\n");
    assert_eq!(count(&symbols, "use_backend"), vec![1]);
}

#[test]
fn line_endings_do_not_change_the_symbols() {
    let unix = "backend api\n  server s1 1.2.3.4:80\nuse_backend api\n";
    let dos = "backend api\r\n  server s1 1.2.3.4:80\r\nuse_backend api\r\n";
    let bare = "backend api\n  server s1 1.2.3.4:80\nuse_backend api";
    assert_eq!(summary(&parse(URI, unix)), summary(&parse(URI, dos)));
    assert_eq!(summary(&parse(URI, unix)), summary(&parse(URI, bare)));
}

#[test]
fn launch_prefers_the_first_development_build_found() {
    assert_eq!(
        candidate_paths(),
        vec!["target/release/haproxy-lsp", "target/debug/haproxy-lsp", "bin/haproxy-lsp"]
    );
    let command = |found: &[bool]| launch_command(&found.to_vec()).command;
    assert_eq!(command(&[true]), "target/release/haproxy-lsp");
    assert_eq!(command(&[true, true, true]), "target/release/haproxy-lsp");
    assert_eq!(command(&[false, true]), "target/debug/haproxy-lsp");
    assert_eq!(command(&[false, false, true]), "bin/haproxy-lsp");
    assert_eq!(command(&[false, false, false]), "haproxy-lsp");
    assert_eq!(command(&[]), "haproxy-lsp");
    assert_eq!(command(&[false, false, false, true]), "haproxy-lsp");
    assert_eq!(launch_command(&vec![false, true]).args, vec!["--stdio"]);
    assert_eq!(launch_command(&Vec::new()).args, vec!["--stdio"]);
}
