use haproxy_lsp::index::parse;
use haproxy_lsp::model::{clone_references, Position, Range, Reference, ReferenceContext, SymbolKind};
use haproxy_lsp::scanner::{classify_declaration, range_of_line, scan};
use haproxy_lsp::text::{split_lines, to_chars, to_string};

fn declared(line: &str) -> Option<(SymbolKind, String)> {
    let line = to_chars(line);
    classify_declaration(&line).map(|(kind, name)| (kind, to_string(name)))
}

fn some(kind: SymbolKind, name: &str) -> Option<(SymbolKind, String)> {
    Some((kind, name.to_string()))
}

#[test]
fn each_keyword_declares_its_kind() {
    assert_eq!(declared("backend api"), some(SymbolKind::Backend, "api"));
    assert_eq!(declared("frontend web"), some(SymbolKind::Frontend, "web"));
    assert_eq!(declared("listen stats"), some(SymbolKind::Listen, "stats"));
    assert_eq!(declared("acl is_api path_beg /api"), some(SymbolKind::Acl, "is_api"));
    assert_eq!(declared("server s1 10.0.0.1:80 check"), some(SymbolKind::Server, "s1"));
}

#[test]
fn section_names_are_the_rest_of_the_line() {
    assert_eq!(declared("backend   api  v2"), some(SymbolKind::Backend, "api  v2"));
    assert_eq!(declared("frontend web # public"), some(SymbolKind::Frontend, "web # public"));
    assert_eq!(declared("listen \tstats"), some(SymbolKind::Listen, "stats"));
}

#[test]
fn entry_names_are_the_second_token() {
    assert_eq!(declared("acl    is_api"), some(SymbolKind::Acl, "is_api"));
    assert_eq!(declared("acl \t x y z"), some(SymbolKind::Acl, "x"));
    assert_eq!(declared("server \u{a0} s1"), some(SymbolKind::Server, "s1"));
}

#[test]
fn a_keyword_needs_its_space() {
    assert_eq!(declared("backend"), None);
    assert_eq!(declared("backend\tapi"), None);
    assert_eq!(declared("backends api"), None);
    assert_eq!(declared("Backend api"), None);
    assert_eq!(declared("acl"), None);
    assert_eq!(declared("server"), None);
    assert_eq!(declared("servers s1"), None);
    assert_eq!(declared("use_backend api"), None);
    assert_eq!(declared("default_backend api"), None);
    assert_eq!(declared("# backend api"), None);
    assert_eq!(declared(""), None);
}

#[test]
fn empty_names_declare_nothing_at_all() {
    assert_eq!(declared("backend "), None);
    assert_eq!(declared("backend    "), None);
    assert_eq!(declared("frontend \t"), None);
    assert_eq!(declared("listen  "), None);
    assert_eq!(declared("acl  "), None);
    assert_eq!(declared("server   "), None);
}

#[test]
fn server_keyword_may_follow_leading_whitespace() {
    // the scanner trims a line before it classifies it; of the keywords only
    // `server` is also found behind leading whitespace
    assert_eq!(declared("  server s1 1.2.3.4:80"), some(SymbolKind::Server, "s1"));
    assert_eq!(declared("\tserver s1"), some(SymbolKind::Server, "s1"));
    assert_eq!(declared("  backend api"), None);
    assert_eq!(declared("  acl x y"), None);
}

#[test]
fn the_first_keyword_decides() {
    assert_eq!(declared("backend server s1"), some(SymbolKind::Backend, "server s1"));
    assert_eq!(declared("acl server s1"), some(SymbolKind::Acl, "server"));
    assert_eq!(declared("server backend x"), some(SymbolKind::Server, "backend"));
    assert_eq!(declared("listen acl x"), some(SymbolKind::Listen, "acl x"));
}

#[test]
fn scan_numbers_the_lines_from_zero() {
    let text = to_chars("\n\nbackend a\n# comment\n  server s 1.2.3.4\n\nfrontend f");
    let lines = split_lines(&text);
    let symbols = scan(&lines, "file:///x.cfg");
    let found: Vec<(&str, u32, u32)> = symbols
        .iter()
        .map(|s| (s.name.as_str(), s.range.start.line, s.range.end.character))
        .collect();
    assert_eq!(found, vec![("a", 2, 9), ("s", 4, 16), ("f", 6, 10)]);
    for symbol in &symbols {
        assert_eq!(symbol.range.start.character, 0);
        assert_eq!(symbol.range.end.line, symbol.range.start.line);
        assert_eq!(symbol.uri, "file:///x.cfg");
        assert!(symbol.references.is_empty());
    }
}

#[test]
fn line_range_spans_the_line_in_bytes() {
    let line = to_chars("backend caf\u{e9} \u{1f600}");
    let range = range_of_line(7, &line);
    assert_eq!(
        range,
        Range {
            start: Position { line: 7, character: 0 },
            end: Position { line: 7, character: 18 },
        }
    );
    assert_eq!(range_of_line(0, &[]).end, Position { line: 0, character: 0 });
}

#[test]
fn line_numbers_are_kept_in_32_bits() {
    let line = to_chars("x");
    assert_eq!(range_of_line(u32::MAX as usize, &line).start.line, u32::MAX);
    if usize::BITS > 32 {
        let big = (1u64 << 32) as usize;
        assert_eq!(range_of_line(big, &line).start.line, 0);
        assert_eq!(range_of_line(big + 5, &line).start.line, 5);
    }
}

#[test]
fn copies_keep_every_field() {
    let symbols = parse("file:///x.cfg", "backend a\nuse_backend a\ndefault_backend a\n");
    let copy = symbols[0].clone();
    assert_eq!(copy.name, "a");
    assert_eq!(copy.kind, SymbolKind::Backend);
    assert_eq!(copy.range, symbols[0].range);
    assert_eq!(copy.uri, "file:///x.cfg");
    assert_eq!(copy.references.len(), 2);
    let references = clone_references(&symbols[0].references);
    let seen: Vec<(Range, &str, ReferenceContext)> =
        references.iter().map(|r: &Reference| (r.range, r.uri.as_str(), r.context)).collect();
    assert_eq!(
        seen,
        vec![
            (
                Range {
                    start: Position { line: 1, character: 0 },
                    end: Position { line: 1, character: 13 },
                },
                "file:///x.cfg",
                ReferenceContext::UseBackend
            ),
            (
                Range {
                    start: Position { line: 2, character: 0 },
                    end: Position { line: 2, character: 17 },
                },
                "file:///x.cfg",
                ReferenceContext::DefaultBackend
            ),
        ]
    );
}
