use haproxy_lsp::index::{parse, HaproxyLsp};
use haproxy_lsp::linker::{mentions_of, names_in_condition, target_of_keyword};
use haproxy_lsp::model::{Position, Range, Reference, ReferenceContext, Symbol, SymbolKind};
use haproxy_lsp::text::{to_chars, to_string};

const URI: &str = "file:///etc/haproxy/haproxy.cfg";

fn range(line: u32, end: u32) -> Range {
    Range {
        start: Position { line, character: 0 },
        end: Position { line, character: end },
    }
}

fn names(line: &str, keyword: &str) -> Vec<String> {
    let line = to_chars(line);
    let keyword = to_chars(keyword);
    names_in_condition(&line, &keyword).into_iter().map(to_string).collect()
}

fn contexts(symbol: &Symbol) -> Vec<(ReferenceContext, u32)> {
    symbol.references.iter().map(|r| (r.context, r.range.start.line)).collect()
}

#[test]
fn backend_keyword_must_come_first() {
    let lsp = HaproxyLsp::new();
    assert_eq!(lsp.extract_backend_from_use_backend("use_backend api"), Some("api".to_string()));
    assert_eq!(
        lsp.extract_backend_from_use_backend("   use_backend   api   if is_api  "),
        Some("api".to_string())
    );
    assert_eq!(lsp.extract_backend_from_use_backend("use_backend"), None);
    assert_eq!(lsp.extract_backend_from_use_backend("use_backend   "), None);
    assert_eq!(lsp.extract_backend_from_use_backend("# use_backend api"), None);
    assert_eq!(lsp.extract_backend_from_use_backend("use_backends api"), None);
    assert_eq!(lsp.extract_backend_from_use_backend("default_backend api"), None);
    assert_eq!(lsp.extract_backend_from_use_backend(""), None);
    assert_eq!(
        lsp.extract_backend_from_default_backend("\tdefault_backend web-01\r"),
        Some("web-01".to_string())
    );
    assert_eq!(lsp.extract_backend_from_default_backend("use_backend api"), None);
    assert_eq!(lsp.extract_backend_from_default_backend("default_backend"), None);
    let line = to_chars("server s1 10.0.0.1:80");
    let keyword = to_chars("server");
    assert_eq!(target_of_keyword(&line, &keyword).map(to_string), Some("s1".to_string()));
}

#[test]
fn condition_names_of_a_plain_condition() {
    assert_eq!(names("use_backend api if is_api", "if"), vec!["is_api"]);
    assert_eq!(names("use_backend api if a b c", "if"), vec!["a", "b", "c"]);
    assert_eq!(names("use_backend api unless a || b", "unless"), vec!["a", "b"]);
    assert_eq!(names("use_backend api unless a || b", "if"), Vec::<String>::new());
    assert_eq!(names("use_backend api", "if"), Vec::<String>::new());
    assert_eq!(names("if a", "if"), Vec::<String>::new());
    assert_eq!(names("x if ", "if"), Vec::<String>::new());
}

#[test]
fn condition_names_handle_negation() {
    assert_eq!(names("deny if !a", "if"), vec!["a"]);
    assert_eq!(names("deny if ! a", "if"), vec!["a"]);
    assert_eq!(names("deny if !", "if"), Vec::<String>::new());
    assert_eq!(names("deny if !!a b", "if"), vec!["b"]);
    assert_eq!(names("deny if !a.b c", "if"), vec!["c"]);
}

#[test]
fn condition_names_stop_at_the_first_brace() {
    assert_eq!(names("deny if a { src 10.0.0.0/8 } b", "if"), vec!["a"]);
    assert_eq!(names("deny if { src 10.0.0.0/8 } b", "if"), Vec::<String>::new());
    assert_eq!(names("deny if a x{y b", "if"), vec!["a"]);
    assert_eq!(names("deny if a !{ b", "if"), vec!["a"]);
    assert_eq!(names("deny if a } b", "if"), vec!["a", "b"]);
}

#[test]
fn condition_names_skip_what_is_no_name() {
    assert_eq!(names("deny if a && b || c", "if"), vec!["a", "b", "c"]);
    assert_eq!(names("deny if a 10.0.0.0/8 b_2 c-3 d:4", "if"), vec!["a", "b_2", "c-3"]);
    assert_eq!(names("deny if a&&b", "if"), Vec::<String>::new());
}

#[test]
fn condition_starts_after_the_first_keyword() {
    assert_eq!(names("deny if a if b", "if"), vec!["a", "if", "b"]);
    assert_eq!(names("deny if a unless b", "unless"), vec!["b"]);
    assert_eq!(names("deny if a unless b", "if"), vec!["a", "unless", "b"]);
}

#[test]
fn extracted_names_are_absent_when_there_are_none() {
    let lsp = HaproxyLsp::new();
    assert_eq!(lsp.extract_acl_names_from_condition("use_backend api", "if"), None);
    assert_eq!(lsp.extract_acl_names_from_condition("deny if { src 1.2.3.4 }", "if"), None);
    assert_eq!(
        lsp.extract_acl_names_from_condition("deny unless a !b", "unless"),
        Some(vec!["a".to_string(), "b".to_string()])
    );
}

#[test]
fn a_line_may_make_several_mentions() {
    let line = to_chars("use_backend api if is_api !is_old unless maintenance");
    let found: Vec<(String, SymbolKind, ReferenceContext)> =
        mentions_of(&line).into_iter().map(|m| (m.name, m.kind, m.context)).collect();
    assert_eq!(
        found,
        vec![
            ("api".to_string(), SymbolKind::Backend, ReferenceContext::UseBackend),
            ("is_api".to_string(), SymbolKind::Acl, ReferenceContext::AclCondition),
            ("is_old".to_string(), SymbolKind::Acl, ReferenceContext::AclCondition),
            ("unless".to_string(), SymbolKind::Acl, ReferenceContext::AclCondition),
            ("maintenance".to_string(), SymbolKind::Acl, ReferenceContext::AclCondition),
            ("maintenance".to_string(), SymbolKind::Acl, ReferenceContext::AclUnlessCondition),
        ]
    );
    assert!(mentions_of(&to_chars("server s1 10.0.0.1:80")).is_empty());
}

#[test]
fn use_backend_line_records_one_reference() {
    let text = "backend api\nbackend other\nfrontend web\n  use_backend api\n  use_backend api if is_api\n  use_backend missing\n";
    let symbols = parse(URI, text);
    assert_eq!(symbols.len(), 3);
    assert_eq!(
        contexts(&symbols[0]),
        vec![(ReferenceContext::UseBackend, 3), (ReferenceContext::UseBackend, 4)]
    );
    assert!(symbols[1].references.is_empty());
    assert!(symbols[2].references.is_empty());
    assert_eq!(symbols[0].references[0].range, range(3, 15));
    assert_eq!(symbols[0].references[1].range, range(4, 25));
    assert_eq!(symbols[0].references[0].uri, URI);
}

#[test]
fn references_go_to_the_first_symbol_of_that_name_and_kind() {
    let text = "acl api path_beg /api\nbackend api\nbackend api\nuse_backend api if api\n";
    let symbols = parse(URI, text);
    assert_eq!(symbols.len(), 3);
    assert_eq!(symbols[0].kind, SymbolKind::Acl);
    assert_eq!(contexts(&symbols[0]), vec![(ReferenceContext::AclCondition, 3)]);
    assert_eq!(contexts(&symbols[1]), vec![(ReferenceContext::UseBackend, 3)]);
    assert!(symbols[2].references.is_empty());
}

#[test]
fn references_are_kept_in_line_order() {
    let text = "frontend web\n  default_backend api\n  use_backend api if is_api\n  use_backend api unless is_api\nbackend api\n  acl is_api path_beg /api\n  default_backend api\n";
    let symbols = parse(URI, text);
    let api = symbols.iter().find(|s| s.name == "api").unwrap();
    assert_eq!(
        contexts(api),
        vec![
            (ReferenceContext::DefaultBackend, 1),
            (ReferenceContext::UseBackend, 2),
            (ReferenceContext::UseBackend, 3),
            (ReferenceContext::DefaultBackend, 6),
        ]
    );
    let is_api = symbols.iter().find(|s| s.name == "is_api").unwrap();
    assert_eq!(
        contexts(is_api),
        vec![(ReferenceContext::AclCondition, 2), (ReferenceContext::AclUnlessCondition, 3)]
    );
    let mut lsp = HaproxyLsp::new();
    lsp.parse_document(URI, text);
    let found = lsp.find_declaration(URI, &Position { line: 4, character: 0 }, text).unwrap();
    let lines: Vec<u32> = found.iter().map(|r| r.range.start.line).collect();
    assert_eq!(lines, vec![1, 2, 3, 6]);
}

#[test]
fn server_references_are_never_produced() {
    let text = "backend api\n  server s1 10.0.0.1:80\n  use-server s1 if is_api\n  acl is_api always_true\n";
    for symbol in parse(URI, text) {
        for reference in &symbol.references {
            assert_ne!(reference.context, ReferenceContext::ServerReference);
        }
    }
}

#[test]
fn add_reference_to_symbol_picks_the_first_match() {
    let lsp = HaproxyLsp::new();
    let mut symbols = parse(URI, "backend a\nbackend b\nacl a x\nbackend a\n");
    let reference = Reference {
        range: range(9, 4),
        uri: "file:///other.cfg".to_string(),
        context: ReferenceContext::ServerReference,
    };
    lsp.add_reference_to_symbol(&mut symbols, "a", SymbolKind::Backend, reference.clone());
    lsp.add_reference_to_symbol(&mut symbols, "a", SymbolKind::Acl, reference.clone());
    lsp.add_reference_to_symbol(&mut symbols, "a", SymbolKind::Server, reference.clone());
    lsp.add_reference_to_symbol(&mut symbols, "c", SymbolKind::Backend, reference.clone());
    let counts: Vec<usize> = symbols.iter().map(|s| s.references.len()).collect();
    assert_eq!(counts, vec![1, 0, 1, 0]);
    assert_eq!(symbols[0].references[0].range, range(9, 4));
    assert_eq!(symbols[0].references[0].uri, "file:///other.cfg");
    assert_eq!(symbols[0].references[0].context, ReferenceContext::ServerReference);
}
