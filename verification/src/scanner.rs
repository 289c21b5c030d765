//! First pass over a document: the declarations that its lines make.

use vstd::prelude::*;
use vstd::slice::slice_subrange;
use crate::model::{
    Position, Range, Symbol, SymbolKind, SymbolView, reference_views, symbol_views,
};
use crate::text::{
    byte_len, lemma_second_token, split_first_token, starts_with, to_chars, to_string, tokens,
    trim, trim_start, trimmed, trimmed_start, utf8_len, views,
};

verus! {

/// What a `backend`, `frontend` or `listen` line declares: the trimmed rest
/// of the line after the keyword is the name, unless it is empty.
pub open spec fn section_declaration(kind: SymbolKind, rest: Seq<char>) -> Option<
    (SymbolKind, Seq<char>),
> {
    let name = trimmed(rest);
    if name.len() > 0 {
        Some((kind, name))
    } else {
        None
    }
}

/// What an `acl` or `server` line declares: its second token is the name.
pub open spec fn entry_declaration(kind: SymbolKind, line: Seq<char>) -> Option<
    (SymbolKind, Seq<char>),
> {
    let parts = tokens(line);
    if parts.len() >= 2 {
        Some((kind, parts[1]))
    } else {
        None
    }
}

/// The kind and the name that a trimmed line declares. The first keyword
/// that matches decides; a line that yields an empty name declares nothing.
/// The keyword `server` is looked for after leading whitespace was stripped
/// once more.
pub open spec fn declaration_of(line: Seq<char>) -> Option<(SymbolKind, Seq<char>)> {
    if "backend "@.is_prefix_of(line) {
        section_declaration(SymbolKind::Backend, line.skip("backend "@.len() as int))
    } else if "frontend "@.is_prefix_of(line) {
        section_declaration(SymbolKind::Frontend, line.skip("frontend "@.len() as int))
    } else if "listen "@.is_prefix_of(line) {
        section_declaration(SymbolKind::Listen, line.skip("listen "@.len() as int))
    } else if "acl "@.is_prefix_of(line) {
        entry_declaration(SymbolKind::Acl, line)
    } else if "server "@.is_prefix_of(trimmed_start(line)) {
        entry_declaration(SymbolKind::Server, trimmed_start(line))
    } else {
        None
    }
}

/// The range recorded for line number `index`: the whole trimmed line
/// `line`, from column 0 to its length in bytes.
pub open spec fn line_range(index: int, line: Seq<char>) -> Range {
    Range {
        start: Position { line: index as u32, character: 0 },
        end: Position { line: index as u32, character: utf8_len(line) as u32 },
    }
}

/// The symbols that `lines` declare for the document `uri`, in line order
/// and without references.
pub open spec fn declared_symbols(lines: Seq<Seq<char>>, uri: Seq<char>) -> Seq<SymbolView>
    decreases lines.len(),
{
    if lines.len() == 0 {
        Seq::empty()
    } else {
        let before = declared_symbols(lines.drop_last(), uri);
        let line = trimmed(lines.last());
        match declaration_of(line) {
            Some((kind, name)) => before.push(
                SymbolView {
                    name,
                    kind,
                    range: line_range(lines.len() - 1, line),
                    uri,
                    references: Seq::empty(),
                },
            ),
            None => before,
        }
    }
}

/// The name that a section line declares after `keyword`.
fn section_name<'a>(kind: SymbolKind, line: &'a [char], keyword: &[char]) -> (r: Option<
    (SymbolKind, &'a [char]),
>)
    requires
        keyword@.is_prefix_of(line@),
    ensures
        match r {
            Some((k, name)) => section_declaration(kind, line@.skip(keyword@.len() as int))
                == Some((k, name@)),
            None => section_declaration(kind, line@.skip(keyword@.len() as int)).is_none(),
        },
{
    let name = trim(slice_subrange(line, keyword.len(), line.len()));
    if name.len() > 0 {
        Some((kind, name))
    } else {
        None
    }
}

/// The name that an `acl` or `server` line declares.
fn entry_name<'a>(kind: SymbolKind, line: &'a [char]) -> (r: Option<(SymbolKind, &'a [char])>)
    ensures
        match r {
            Some((k, name)) => entry_declaration(kind, line@) == Some((k, name@)),
            None => entry_declaration(kind, line@).is_none(),
        },
{
    let (_, rest) = split_first_token(line);
    let (name, _) = split_first_token(rest);
    proof {
        lemma_second_token(line@);
    }
    if name.len() > 0 {
        Some((kind, name))
    } else {
        None
    }
}

/// The kind and the name that the trimmed line `line` declares.
pub fn classify_declaration<'a>(line: &'a [char]) -> (r: Option<(SymbolKind, &'a [char])>)
    ensures
        match r {
            Some((kind, name)) => declaration_of(line@) == Some((kind, name@)),
            None => declaration_of(line@).is_none(),
        },
{
    let backend = to_chars("backend ");
    let frontend = to_chars("frontend ");
    let listen = to_chars("listen ");
    let acl = to_chars("acl ");
    let server = to_chars("server ");
    if starts_with(line, backend.as_slice()) {
        section_name(SymbolKind::Backend, line, backend.as_slice())
    } else if starts_with(line, frontend.as_slice()) {
        section_name(SymbolKind::Frontend, line, frontend.as_slice())
    } else if starts_with(line, listen.as_slice()) {
        section_name(SymbolKind::Listen, line, listen.as_slice())
    } else if starts_with(line, acl.as_slice()) {
        entry_name(SymbolKind::Acl, line)
    } else if starts_with(trim_start(line), server.as_slice()) {
        entry_name(SymbolKind::Server, trim_start(line))
    } else {
        None
    }
}

/// The range recorded for line number `index` with trimmed text `line`.
pub fn range_of_line(index: usize, line: &[char]) -> (range: Range)
    ensures
        range == line_range(index as int, line@),
{
    let number: u32 = #[verifier::truncate] (index as u32);
    let length: u32 = #[verifier::truncate] (byte_len(line) as u32);
    Range {
        start: Position { line: number, character: 0 },
        end: Position { line: number, character: length },
    }
}

/// The symbols that the lines of a document declare, in line order and
/// without references.
pub fn scan(lines: &Vec<&[char]>, uri: &str) -> (symbols: Vec<Symbol>)
    ensures
        symbol_views(symbols@) == declared_symbols(views(lines@), uri@),
{
    let mut symbols: Vec<Symbol> = Vec::new();
    let mut i: usize = 0;
    let ghost all = views(lines@);
    assert(all.take(0) =~= Seq::empty());
    assert(symbol_views(symbols@) =~= Seq::empty());
    while i < lines.len()
        invariant
            i <= lines.len(),
            all == views(lines@),
            symbol_views(symbols@) == declared_symbols(all.take(i as int), uri@),
        decreases lines.len() - i,
    {
        let line = trim(lines[i]);
        assert(all.take(i + 1).drop_last() =~= all.take(i as int));
        assert(all.take(i + 1).last() == lines@[i as int]@);
        match classify_declaration(line) {
            Some((kind, name)) => {
                let ghost before = symbols@;
                let symbol = Symbol {
                    name: to_string(name),
                    kind,
                    range: range_of_line(i, line),
                    uri: uri.to_owned(),
                    references: Vec::new(),
                };
                assert(reference_views(symbol.references@) =~= Seq::empty());
                symbols.push(symbol);
                assert(symbol_views(symbols@) =~= symbol_views(before).push(symbol@));
            },
            None => {},
        }
        i += 1;
    }
    assert(all.take(lines.len() as int) =~= all);
    symbols
}

} // verus!
