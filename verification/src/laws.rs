//! Properties of parsing, linking and lookup that hold for every document.

use vstd::prelude::*;
use crate::index::{
    DocumentView, document_index, lemma_stored_is_found, lookup, parsed_symbols,
    parsed_throughout, references_to, stored, symbols_in,
};
use crate::linker::{
    MentionView, attach, attach_all, backend_mentions, condition_mentions, first_match, is_named,
    keyword_target, line_mentions, linked_symbols,
};
use crate::model::{Position, Range, ReferenceContext, ReferenceView, SymbolKind, SymbolView};
use crate::query::declaration_references;
use crate::scanner::{declaration_of, declared_symbols, line_range};
use crate::search::{first_index, lemma_first_index, lemma_first_index_at};
use crate::text::{
    lemma_first_token_occurs, lemma_occurs_in_trimmed, lemma_second_token, lines_of, occurs_in,
    tokens, trimmed,
};

verus! {

/// Parsing one document leaves the symbols of every other document as they
/// are.
pub proof fn lemma_store_keeps_other_documents(
    table: Seq<DocumentView>,
    uri: Seq<char>,
    content: Seq<char>,
    other: Seq<char>,
)
    requires
        other != uri,
    ensures
        symbols_in(stored(table, uri, content), other) == symbols_in(table, other),
{
    let stored_at = |document: DocumentView| document.uri == uri;
    let wanted = |document: DocumentView| document.uri == other;
    let after = stored(table, uri, content);
    lemma_first_index(table, stored_at);
    lemma_first_index(table, wanted);
    match first_index(table, wanted) {
        Some(i) => {
            assert forall|j: int| 0 <= j < i implies !wanted(#[trigger] after[j]) by {
                if first_index(table, stored_at) != Some(j) {
                    assert(after[j] == table[j]);
                }
            }
            assert(after[i] == table[i]);
            lemma_first_index_at(after, wanted, i);
        },
        None => {
            assert forall|j: int| 0 <= j < after.len() implies !wanted(#[trigger] after[j]) by {
                if j < table.len() && first_index(table, stored_at) != Some(j) {
                    assert(after[j] == table[j]);
                }
            }
            lemma_first_index_at(after, wanted, after.len() as int);
        },
    }
}

/// Parsing a document twice from the same text is parsing it once.
pub proof fn lemma_store_twice(table: Seq<DocumentView>, uri: Seq<char>, content: Seq<char>)
    ensures
        stored(stored(table, uri, content), uri, content) == stored(table, uri, content),
{
    let wanted = |document: DocumentView| document.uri == uri;
    lemma_first_index(table, wanted);
    let after = stored(table, uri, content);
    match first_index(table, wanted) {
        Some(i) => {
            assert forall|j: int| 0 <= j < i implies !wanted(#[trigger] after[j]) by {
                assert(after[j] == table[j]);
            }
            lemma_first_index_at(after, wanted, i);
        },
        None => {
            assert forall|j: int| 0 <= j < table.len() implies !wanted(#[trigger] after[j]) by {
                assert(after[j] == table[j]);
            }
            lemma_first_index_at(after, wanted, table.len() as int);
        },
    }
    assert(stored(after, uri, content) =~= after);
}

/// Parsing a document again with the same text changes nothing: the index
/// is the same after the second parse as after the first, and it holds for
/// the document exactly the symbols that the text gives, with their names,
/// kinds, ranges and references.
pub proof fn lemma_reparse_is_idempotent(
    table: Seq<DocumentView>,
    uri: Seq<char>,
    content: Seq<char>,
)
    ensures
        ({
            let once = stored(table, uri, content);
            let twice = stored(once, uri, content);
            &&& twice == once
            &&& symbols_in(once, uri) == Some(parsed_symbols(uri, content))
            &&& symbols_in(twice, uri) == Some(parsed_symbols(uri, content))
        }),
{
    lemma_store_twice(table, uri, content);
    lemma_stored_is_found(table, uri, content);
}

/// `after` holds the symbols of `before`, each with its name, kind, range
/// and document; only references may differ.
pub open spec fn same_declarations(after: Seq<SymbolView>, before: Seq<SymbolView>) -> bool {
    &&& after.len() == before.len()
    &&& forall|j: int|
        0 <= j < after.len() ==> {
            &&& (#[trigger] after[j]).name == before[j].name
            &&& after[j].kind == before[j].kind
            &&& after[j].range == before[j].range
            &&& after[j].uri == before[j].uri
        }
}

/// Symbols that differ in their references only are found under the same
/// names at the same places.
pub proof fn lemma_first_match_same_declarations(
    after: Seq<SymbolView>,
    before: Seq<SymbolView>,
    name: Seq<char>,
    kind: SymbolKind,
)
    requires
        same_declarations(after, before),
    ensures
        first_match(after, name, kind) == first_match(before, name, kind),
{
    let wanted = |symbol: SymbolView| is_named(symbol, name, kind);
    lemma_first_index(before, wanted);
    match first_index(before, wanted) {
        Some(k) => {
            assert forall|j: int| 0 <= j < k implies !wanted(#[trigger] after[j]) by {
                assert(!wanted(before[j]));
            }
            assert(wanted(after[k]));
            lemma_first_index_at(after, wanted, k);
        },
        None => {
            assert forall|j: int| 0 <= j < after.len() implies !wanted(#[trigger] after[j]) by {
                assert(!wanted(before[j]));
            }
            lemma_first_index_at(after, wanted, after.len() as int);
        },
    }
}

/// Attaching a reference adds it at the end of the references of the first
/// symbol with the given name and kind, and changes nothing else.
pub proof fn lemma_attach(
    symbols: Seq<SymbolView>,
    name: Seq<char>,
    kind: SymbolKind,
    reference: ReferenceView,
)
    ensures
        same_declarations(attach(symbols, name, kind, reference), symbols),
        forall|j: int|
            0 <= j < symbols.len() ==> (#[trigger] attach(
                symbols,
                name,
                kind,
                reference,
            )[j]).references == (if first_match(symbols, name, kind) == Some(j) {
                symbols[j].references.push(reference)
            } else {
                symbols[j].references
            }),
{
    lemma_first_index(symbols, |symbol: SymbolView| is_named(symbol, name, kind));
}

/// Attaching the mentions of a line changes no symbol but in its references.
pub proof fn lemma_attach_all_same_declarations(
    symbols: Seq<SymbolView>,
    mentions: Seq<MentionView>,
    range: Range,
    uri: Seq<char>,
)
    ensures
        same_declarations(attach_all(symbols, mentions, range, uri), symbols),
    decreases mentions.len(),
{
    if mentions.len() > 0 {
        let earlier = attach_all(symbols, mentions.drop_last(), range, uri);
        lemma_attach_all_same_declarations(symbols, mentions.drop_last(), range, uri);
        let mention = mentions.last();
        lemma_attach(
            earlier,
            mention.name,
            mention.kind,
            ReferenceView { range, uri, context: mention.context },
        );
    }
}

/// Linking changes no symbol but in its references.
pub proof fn lemma_linked_same_declarations(
    symbols: Seq<SymbolView>,
    lines: Seq<Seq<char>>,
    uri: Seq<char>,
)
    ensures
        same_declarations(linked_symbols(symbols, lines, uri), symbols),
    decreases lines.len(),
{
    if lines.len() > 0 {
        let earlier = linked_symbols(symbols, lines.drop_last(), uri);
        lemma_linked_same_declarations(symbols, lines.drop_last(), uri);
        let line = trimmed(lines.last());
        lemma_attach_all_same_declarations(
            earlier,
            line_mentions(line),
            line_range(lines.len() - 1, line),
            uri,
        );
    }
}

/// The references of `references` stand in the order of their lines.
pub open spec fn in_line_order(references: Seq<ReferenceView>) -> bool {
    forall|a: int, b: int|
        0 <= a <= b < references.len() ==> (#[trigger] references[a]).range.start.line <= (
        #[trigger] references[b]).range.start.line
}

/// Every reference of `references` lies on a line before line `bound`.
pub open spec fn lines_below(references: Seq<ReferenceView>, bound: int) -> bool {
    forall|a: int|
        0 <= a < references.len() ==> (#[trigger] references[a]).range.start.line < bound
}

/// The references of each symbol stand in the order of their lines, on
/// lines before line `bound`.
pub open spec fn ordered_below(symbols: Seq<SymbolView>, bound: int) -> bool {
    forall|k: int|
        0 <= k < symbols.len() ==> in_line_order((#[trigger] symbols[k]).references)
            && lines_below(symbols[k].references, bound)
}

/// Attaching a reference of the last line below `bound` keeps the
/// references in line order below `bound`.
proof fn lemma_attach_ordered(
    symbols: Seq<SymbolView>,
    name: Seq<char>,
    kind: SymbolKind,
    reference: ReferenceView,
    bound: int,
)
    requires
        ordered_below(symbols, bound),
        reference.range.start.line == bound - 1,
    ensures
        ordered_below(attach(symbols, name, kind, reference), bound),
{
    let after = attach(symbols, name, kind, reference);
    lemma_attach(symbols, name, kind, reference);
    assert forall|k: int| 0 <= k < after.len() implies in_line_order(
        (#[trigger] after[k]).references,
    ) && lines_below(after[k].references, bound) by {
        let before = symbols[k].references;
        assert(in_line_order(before) && lines_below(before, bound));
        assert(after[k].references == before || after[k].references == before.push(reference));
    }
}

/// Attaching the mentions of the last line below `bound` keeps the
/// references in line order below `bound`.
proof fn lemma_attach_all_ordered(
    symbols: Seq<SymbolView>,
    mentions: Seq<MentionView>,
    range: Range,
    uri: Seq<char>,
    bound: int,
)
    requires
        ordered_below(symbols, bound),
        range.start.line == bound - 1,
    ensures
        ordered_below(attach_all(symbols, mentions, range, uri), bound),
    decreases mentions.len(),
{
    if mentions.len() > 0 {
        lemma_attach_all_ordered(symbols, mentions.drop_last(), range, uri, bound);
        let mention = mentions.last();
        lemma_attach_ordered(
            attach_all(symbols, mentions.drop_last(), range, uri),
            mention.name,
            mention.kind,
            ReferenceView { range, uri, context: mention.context },
            bound,
        );
    }
}

/// Linking symbols without references leaves the references of each in
/// line order.
proof fn lemma_linked_ordered(symbols: Seq<SymbolView>, lines: Seq<Seq<char>>, uri: Seq<char>)
    requires
        ordered_below(symbols, 0),
        lines.len() <= 0x1_0000_0000,
    ensures
        ordered_below(linked_symbols(symbols, lines, uri), lines.len() as int),
    decreases lines.len(),
{
    if lines.len() > 0 {
        let earlier = linked_symbols(symbols, lines.drop_last(), uri);
        lemma_linked_ordered(symbols, lines.drop_last(), uri);
        assert(ordered_below(earlier, lines.len() as int)) by {
            assert forall|k: int| 0 <= k < earlier.len() implies in_line_order(
                (#[trigger] earlier[k]).references,
            ) && lines_below(earlier[k].references, lines.len() as int) by {
                assert(lines_below(earlier[k].references, lines.len() - 1));
            }
        }
        let line = trimmed(lines.last());
        lemma_attach_all_ordered(
            earlier,
            line_mentions(line),
            line_range(lines.len() - 1, line),
            uri,
            lines.len() as int,
        );
    }
}

/// The symbols that the scanner declares have no references yet.
pub proof fn lemma_declared_without_references(lines: Seq<Seq<char>>, uri: Seq<char>)
    ensures
        forall|k: int|
            0 <= k < declared_symbols(lines, uri).len() ==> (#[trigger] declared_symbols(
                lines,
                uri,
            )[k]).references.len() == 0,
    decreases lines.len(),
{
    if lines.len() > 0 {
        lemma_declared_without_references(lines.drop_last(), uri);
    }
}

/// The references of every symbol of a parsed document stand in the order
/// in which they were linked, which is the order of the lines that make
/// them. Line numbers are kept in 32 bits, so this is stated of documents
/// whose line numbers all fit.
pub proof fn lemma_references_in_line_order(uri: Seq<char>, content: Seq<char>, k: int)
    requires
        lines_of(content).len() <= 0x1_0000_0000,
        0 <= k < parsed_symbols(uri, content).len(),
    ensures
        in_line_order(parsed_symbols(uri, content)[k].references),
{
    let lines = lines_of(content);
    let declared = declared_symbols(lines, uri);
    lemma_declared_without_references(lines, uri);
    assert(ordered_below(declared, 0)) by {
        assert forall|j: int| 0 <= j < declared.len() implies in_line_order(
            (#[trigger] declared[j]).references,
        ) && lines_below(declared[j].references, 0) by {
            assert(declared[j].references.len() == 0);
        }
    }
    lemma_linked_ordered(declared, lines, uri);
}


/// The references that symbol number `j` of `symbols` gets from
/// `mentions`: one for each mention whose name and kind find that symbol
/// first, in the order of the mentions.
pub open spec fn references_of_mentions(
    symbols: Seq<SymbolView>,
    mentions: Seq<MentionView>,
    range: Range,
    uri: Seq<char>,
    j: int,
) -> Seq<ReferenceView>
    decreases mentions.len(),
{
    if mentions.len() == 0 {
        Seq::empty()
    } else {
        let mention = mentions.last();
        let front = references_of_mentions(symbols, mentions.drop_last(), range, uri, j);
        if first_match(symbols, mention.name, mention.kind) == Some(j) {
            front.push(ReferenceView { range, uri, context: mention.context })
        } else {
            front
        }
    }
}

/// The references that symbol number `j` of `symbols` gets from `lines`:
/// those from the mentions of the first line, then those of the second, and
/// so on. Within a line they stand in the order of its mentions:
/// `use_backend`, `default_backend`, the names of the `if` condition, the
/// names of the `unless` condition. Nothing is sorted, grouped or left out.
pub open spec fn references_of_lines(
    symbols: Seq<SymbolView>,
    lines: Seq<Seq<char>>,
    uri: Seq<char>,
    j: int,
) -> Seq<ReferenceView>
    decreases lines.len(),
{
    if lines.len() == 0 {
        Seq::empty()
    } else {
        let line = trimmed(lines.last());
        references_of_lines(symbols, lines.drop_last(), uri, j) + references_of_mentions(
            symbols,
            line_mentions(line),
            line_range(lines.len() - 1, line),
            uri,
            j,
        )
    }
}

/// Symbols that differ in their references only get the same references
/// from the same mentions.
proof fn lemma_references_of_mentions_same_declarations(
    after: Seq<SymbolView>,
    before: Seq<SymbolView>,
    mentions: Seq<MentionView>,
    range: Range,
    uri: Seq<char>,
    j: int,
)
    requires
        same_declarations(after, before),
    ensures
        references_of_mentions(after, mentions, range, uri, j) == references_of_mentions(
            before,
            mentions,
            range,
            uri,
            j,
        ),
    decreases mentions.len(),
{
    if mentions.len() > 0 {
        let mention = mentions.last();
        lemma_references_of_mentions_same_declarations(
            after,
            before,
            mentions.drop_last(),
            range,
            uri,
            j,
        );
        lemma_first_match_same_declarations(after, before, mention.name, mention.kind);
    }
}

/// Attaching mentions gives every symbol, behind the references that it
/// had, exactly those that the mentions make to it, and changes nothing
/// else.
pub proof fn lemma_attach_all_references(
    symbols: Seq<SymbolView>,
    mentions: Seq<MentionView>,
    range: Range,
    uri: Seq<char>,
)
    ensures
        same_declarations(attach_all(symbols, mentions, range, uri), symbols),
        forall|j: int|
            0 <= j < symbols.len() ==> (#[trigger] attach_all(
                symbols,
                mentions,
                range,
                uri,
            )[j]).references == symbols[j].references + references_of_mentions(
                symbols,
                mentions,
                range,
                uri,
                j,
            ),
    decreases mentions.len(),
{
    lemma_attach_all_same_declarations(symbols, mentions, range, uri);
    if mentions.len() == 0 {
        assert forall|j: int| 0 <= j < symbols.len() implies (#[trigger] symbols[j]).references
            == symbols[j].references + Seq::<ReferenceView>::empty() by {
            assert(symbols[j].references + Seq::<ReferenceView>::empty()
                =~= symbols[j].references);
        }
    } else {
        let earlier = attach_all(symbols, mentions.drop_last(), range, uri);
        lemma_attach_all_references(symbols, mentions.drop_last(), range, uri);
        let mention = mentions.last();
        let reference = ReferenceView { range, uri, context: mention.context };
        lemma_attach(earlier, mention.name, mention.kind, reference);
        lemma_first_match_same_declarations(earlier, symbols, mention.name, mention.kind);
        let after = attach(earlier, mention.name, mention.kind, reference);
        assert forall|j: int| 0 <= j < symbols.len() implies (#[trigger] after[j]).references
            == symbols[j].references + references_of_mentions(
            symbols,
            mentions,
            range,
            uri,
            j,
        ) by {
            let front = references_of_mentions(symbols, mentions.drop_last(), range, uri, j);
            assert(earlier[j].references == symbols[j].references + front);
            assert((symbols[j].references + front).push(reference) =~= symbols[j].references
                + front.push(reference));
        }
    }
}

/// Linking gives every symbol, behind the references that it had, exactly
/// those that the lines make to it, in the order of the lines and, within a
/// line, of its mentions.
pub proof fn lemma_linked_references(
    symbols: Seq<SymbolView>,
    lines: Seq<Seq<char>>,
    uri: Seq<char>,
)
    ensures
        same_declarations(linked_symbols(symbols, lines, uri), symbols),
        forall|j: int|
            0 <= j < symbols.len() ==> (#[trigger] linked_symbols(
                symbols,
                lines,
                uri,
            )[j]).references == symbols[j].references + references_of_lines(
                symbols,
                lines,
                uri,
                j,
            ),
    decreases lines.len(),
{
    lemma_linked_same_declarations(symbols, lines, uri);
    if lines.len() == 0 {
        assert forall|j: int| 0 <= j < symbols.len() implies (#[trigger] symbols[j]).references
            == symbols[j].references + Seq::<ReferenceView>::empty() by {
            assert(symbols[j].references + Seq::<ReferenceView>::empty()
                =~= symbols[j].references);
        }
    } else {
        let earlier = linked_symbols(symbols, lines.drop_last(), uri);
        lemma_linked_references(symbols, lines.drop_last(), uri);
        lemma_linked_same_declarations(symbols, lines.drop_last(), uri);
        let line = trimmed(lines.last());
        let mentions = line_mentions(line);
        let range = line_range(lines.len() - 1, line);
        lemma_attach_all_references(earlier, mentions, range, uri);
        let after = attach_all(earlier, mentions, range, uri);
        assert forall|j: int| 0 <= j < symbols.len() implies (#[trigger] after[j]).references
            == symbols[j].references + references_of_lines(symbols, lines, uri, j) by {
            lemma_references_of_mentions_same_declarations(
                earlier,
                symbols,
                mentions,
                range,
                uri,
                j,
            );
            let front = references_of_lines(symbols, lines.drop_last(), uri, j);
            let last = references_of_mentions(symbols, mentions, range, uri, j);
            assert(earlier[j].references == symbols[j].references + front);
            assert((symbols[j].references + front) + last =~= symbols[j].references + (front
                + last));
        }
    }
}

/// The references of every symbol of a parsed document are exactly those
/// that the lines of the document make to it, in the order in which they
/// were linked: line by line, and within a line `use_backend`, then
/// `default_backend`, then the names of the `if` condition, then those of
/// the `unless` condition. A mention goes to the first symbol with its name
/// and kind.
pub proof fn lemma_parsed_references(uri: Seq<char>, content: Seq<char>, j: int)
    requires
        0 <= j < parsed_symbols(uri, content).len(),
    ensures
        parsed_symbols(uri, content).len() == declared_symbols(lines_of(content), uri).len(),
        parsed_symbols(uri, content)[j].references == references_of_lines(
            declared_symbols(lines_of(content), uri),
            lines_of(content),
            uri,
            j,
        ),
{
    let lines = lines_of(content);
    let declared = declared_symbols(lines, uri);
    lemma_declared_without_references(lines, uri);
    lemma_linked_references(declared, lines, uri);
    assert(declared[j].references =~= Seq::<ReferenceView>::empty());
    assert(declared[j].references + references_of_lines(declared, lines, uri, j)
        =~= references_of_lines(declared, lines, uri, j));
}

/// The references of `references` recorded in `context`, in order.
pub open spec fn in_context(
    references: Seq<ReferenceView>,
    context: ReferenceContext,
) -> Seq<ReferenceView>
    decreases references.len(),
{
    if references.len() == 0 {
        Seq::empty()
    } else {
        let front = in_context(references.drop_last(), context);
        if references.last().context == context {
            front.push(references.last())
        } else {
            front
        }
    }
}

/// The references in a context among two lists, one after the other, are
/// those among the first and then those among the second.
proof fn lemma_in_context_concat(
    first: Seq<ReferenceView>,
    second: Seq<ReferenceView>,
    context: ReferenceContext,
)
    ensures
        in_context(first + second, context) == in_context(first, context) + in_context(
            second,
            context,
        ),
    decreases second.len(),
{
    if second.len() == 0 {
        assert(first + second =~= first);
        assert(in_context(first, context) + Seq::<ReferenceView>::empty() =~= in_context(
            first,
            context,
        ));
    } else {
        lemma_in_context_concat(first, second.drop_last(), context);
        assert((first + second).drop_last() =~= first + second.drop_last());
        assert((first + second).last() == second.last());
        let a = in_context(first, context);
        let b = in_context(second.drop_last(), context);
        assert((a + b).push(second.last()) =~= a + b.push(second.last()));
    }
}

/// The references from two lists of mentions, one after the other, are
/// those from the first and then those from the second.
proof fn lemma_references_of_mentions_concat(
    symbols: Seq<SymbolView>,
    first: Seq<MentionView>,
    second: Seq<MentionView>,
    range: Range,
    uri: Seq<char>,
    j: int,
)
    ensures
        references_of_mentions(symbols, first + second, range, uri, j) == references_of_mentions(
            symbols,
            first,
            range,
            uri,
            j,
        ) + references_of_mentions(symbols, second, range, uri, j),
    decreases second.len(),
{
    let a = references_of_mentions(symbols, first, range, uri, j);
    if second.len() == 0 {
        assert(first + second =~= first);
        assert(a + Seq::<ReferenceView>::empty() =~= a);
    } else {
        lemma_references_of_mentions_concat(symbols, first, second.drop_last(), range, uri, j);
        assert((first + second).drop_last() =~= first + second.drop_last());
        assert((first + second).last() == second.last());
        let b = references_of_mentions(symbols, second.drop_last(), range, uri, j);
        let reference = ReferenceView { range, uri, context: second.last().context };
        assert((a + b).push(reference) =~= a + b.push(reference));
    }
}

/// Mentions in other contexts make no reference in `context`.
proof fn lemma_other_contexts_make_none(
    symbols: Seq<SymbolView>,
    mentions: Seq<MentionView>,
    range: Range,
    uri: Seq<char>,
    j: int,
    context: ReferenceContext,
)
    requires
        forall|i: int| 0 <= i < mentions.len() ==> (#[trigger] mentions[i]).context != context,
    ensures
        in_context(references_of_mentions(symbols, mentions, range, uri, j), context)
            == Seq::<ReferenceView>::empty(),
    decreases mentions.len(),
{
    if mentions.len() > 0 {
        assert forall|i: int| 0 <= i < mentions.drop_last().len() implies (
        #[trigger] mentions.drop_last()[i]).context != context by {
            assert(mentions.drop_last()[i] == mentions[i]);
        }
        lemma_other_contexts_make_none(symbols, mentions.drop_last(), range, uri, j, context);
        assert(mentions.last() == mentions[mentions.len() - 1]);
        let front = references_of_mentions(symbols, mentions.drop_last(), range, uri, j);
        let reference = ReferenceView { range, uri, context: mentions.last().context };
        assert(front.push(reference).drop_last() =~= front);
    }
}

/// The `use_backend` reference that symbol number `j` of `symbols` gets
/// from `line`: one, where the first two tokens of the line are
/// `use_backend` and a name, and the first backend of that name is symbol
/// number `j`; none otherwise.
pub open spec fn use_backend_reference(
    symbols: Seq<SymbolView>,
    line: Seq<char>,
    range: Range,
    uri: Seq<char>,
    j: int,
) -> Seq<ReferenceView> {
    match keyword_target(line, "use_backend"@) {
        Some(name) => if first_match(symbols, name, SymbolKind::Backend) == Some(j) {
            seq![ReferenceView { range, uri, context: ReferenceContext::UseBackend }]
        } else {
            Seq::empty()
        },
        None => Seq::empty(),
    }
}

/// The `use_backend` references that symbol number `j` of `symbols` gets
/// from `lines`: one for every line whose first two tokens are
/// `use_backend` and a name of which symbol number `j` is the first
/// backend, each with the range of its line, in the order of the lines.
pub open spec fn use_backend_references(
    symbols: Seq<SymbolView>,
    lines: Seq<Seq<char>>,
    uri: Seq<char>,
    j: int,
) -> Seq<ReferenceView>
    decreases lines.len(),
{
    if lines.len() == 0 {
        Seq::empty()
    } else {
        let line = trimmed(lines.last());
        use_backend_references(symbols, lines.drop_last(), uri, j) + use_backend_reference(
            symbols,
            line,
            line_range(lines.len() - 1, line),
            uri,
            j,
        )
    }
}

/// A line whose first two tokens are a keyword and a name holds the
/// keyword.
proof fn lemma_keyword_occurs(line: Seq<char>, keyword: Seq<char>)
    requires
        keyword_target(line, keyword).is_some(),
    ensures
        occurs_in(line, keyword),
{
    lemma_second_token(trimmed(line));
    lemma_first_token_occurs(trimmed(line));
    lemma_occurs_in_trimmed(line, keyword);
}

/// Of the references that a line makes to a symbol, those in the context
/// `UseBackend` are what `use_backend_reference` says: at most one, and one
/// exactly where the line is a `use_backend` line that names the symbol.
pub proof fn lemma_use_backend_on_line(
    symbols: Seq<SymbolView>,
    line: Seq<char>,
    range: Range,
    uri: Seq<char>,
    j: int,
)
    ensures
        in_context(
            references_of_mentions(symbols, line_mentions(line), range, uri, j),
            ReferenceContext::UseBackend,
        ) == use_backend_reference(symbols, line, range, uri, j),
{
    let keyword = "use_backend"@;
    let context = ReferenceContext::UseBackend;
    let first = backend_mentions(line, keyword, context);
    let others = backend_mentions(line, "default_backend"@, ReferenceContext::DefaultBackend)
        + condition_mentions(line, "if"@, ReferenceContext::AclCondition) + condition_mentions(
        line,
        "unless"@,
        ReferenceContext::AclUnlessCondition,
    );
    assert(line_mentions(line) =~= first + others);
    lemma_references_of_mentions_concat(symbols, first, others, range, uri, j);
    let from_first = references_of_mentions(symbols, first, range, uri, j);
    let from_others = references_of_mentions(symbols, others, range, uri, j);
    lemma_in_context_concat(from_first, from_others, context);
    lemma_other_contexts_make_none(symbols, others, range, uri, j, context);
    assert(in_context(from_first, context) + Seq::<ReferenceView>::empty() =~= in_context(
        from_first,
        context,
    ));
    match keyword_target(line, keyword) {
        Some(name) => {
            lemma_keyword_occurs(line, keyword);
            let mention = MentionView { name, kind: SymbolKind::Backend, context };
            assert(first =~= seq![mention]);
            assert(first.drop_last() =~= Seq::<MentionView>::empty());
            assert(first.last() == mention);
            assert(references_of_mentions(symbols, first.drop_last(), range, uri, j)
                =~= Seq::<ReferenceView>::empty());
            let reference = ReferenceView { range, uri, context };
            if first_match(symbols, name, SymbolKind::Backend) == Some(j) {
                assert(from_first =~= seq![reference]);
                assert(from_first.drop_last() =~= Seq::<ReferenceView>::empty());
                assert(from_first.last() == reference);
                assert(in_context(from_first.drop_last(), context)
                    =~= Seq::<ReferenceView>::empty());
                assert(in_context(from_first, context) =~= seq![reference]);
            } else {
                assert(from_first =~= Seq::<ReferenceView>::empty());
            }
        },
        None => {
            assert(first =~= Seq::<MentionView>::empty());
            assert(from_first =~= Seq::<ReferenceView>::empty());
        },
    }
}

/// A line whose first two tokens are `use_backend` and a name records
/// exactly one reference in the context `UseBackend`: the first backend of
/// that name gains it, behind those that it had, and no other symbol gains
/// any. Where no backend has the name, no symbol gains any.
pub proof fn lemma_use_backend_recorded_once(
    symbols: Seq<SymbolView>,
    line: Seq<char>,
    range: Range,
    uri: Seq<char>,
)
    requires
        tokens(trimmed(line)).len() >= 2,
        tokens(trimmed(line))[0] == "use_backend"@,
    ensures
        ({
            let name = tokens(trimmed(line))[1];
            let context = ReferenceContext::UseBackend;
            let after = attach_all(symbols, line_mentions(line), range, uri);
            &&& after.len() == symbols.len()
            &&& forall|j: int|
                0 <= j < symbols.len() ==> in_context((#[trigger] after[j]).references, context)
                    == in_context(symbols[j].references, context) + if first_match(
                    symbols,
                    name,
                    SymbolKind::Backend,
                ) == Some(j) {
                    seq![ReferenceView { range, uri, context }]
                } else {
                    Seq::empty()
                }
        }),
{
    let context = ReferenceContext::UseBackend;
    let mentions = line_mentions(line);
    let after = attach_all(symbols, mentions, range, uri);
    lemma_attach_all_references(symbols, mentions, range, uri);
    assert forall|j: int| 0 <= j < symbols.len() implies in_context(
        (#[trigger] after[j]).references,
        context,
    ) == in_context(symbols[j].references, context) + use_backend_reference(
        symbols,
        line,
        range,
        uri,
        j,
    ) by {
        lemma_in_context_concat(
            symbols[j].references,
            references_of_mentions(symbols, mentions, range, uri, j),
            context,
        );
        lemma_use_backend_on_line(symbols, line, range, uri, j);
    }
}

/// Of the references that the lines make to a symbol, those in the context
/// `UseBackend` are what `use_backend_references` says.
proof fn lemma_use_backend_on_lines(
    symbols: Seq<SymbolView>,
    lines: Seq<Seq<char>>,
    uri: Seq<char>,
    j: int,
)
    ensures
        in_context(references_of_lines(symbols, lines, uri, j), ReferenceContext::UseBackend)
            == use_backend_references(symbols, lines, uri, j),
    decreases lines.len(),
{
    if lines.len() > 0 {
        let line = trimmed(lines.last());
        let range = line_range(lines.len() - 1, line);
        lemma_use_backend_on_lines(symbols, lines.drop_last(), uri, j);
        lemma_use_backend_on_line(symbols, line, range, uri, j);
        lemma_in_context_concat(
            references_of_lines(symbols, lines.drop_last(), uri, j),
            references_of_mentions(symbols, line_mentions(line), range, uri, j),
            ReferenceContext::UseBackend,
        );
    }
}

/// In a parsed document, the `use_backend` references of a symbol are
/// exactly these: one for every line whose first two tokens are
/// `use_backend` and a name of which the symbol is the first backend. Each
/// lies in the document and spans its trimmed line, and they stand in the
/// order of the lines. So a document with one such line for a declared
/// backend gives that backend one such reference, and a line that names no
/// declared backend gives none to any symbol.
pub proof fn lemma_use_backend_in_document(uri: Seq<char>, content: Seq<char>, j: int)
    requires
        0 <= j < parsed_symbols(uri, content).len(),
    ensures
        in_context(parsed_symbols(uri, content)[j].references, ReferenceContext::UseBackend)
            == use_backend_references(
            declared_symbols(lines_of(content), uri),
            lines_of(content),
            uri,
            j,
        ),
{
    lemma_parsed_references(uri, content, j);
    lemma_use_backend_on_lines(declared_symbols(lines_of(content), uri), lines_of(content), uri, j);
}

/// A line that declares a symbol gives the scanner's list a symbol of that
/// name and kind.
pub proof fn lemma_declaration_is_scanned(
    lines: Seq<Seq<char>>,
    uri: Seq<char>,
    i: int,
    kind: SymbolKind,
    name: Seq<char>,
)
    requires
        0 <= i < lines.len(),
        declaration_of(trimmed(lines[i])) == Some((kind, name)),
    ensures
        first_match(declared_symbols(lines, uri), name, kind).is_some(),
    decreases lines.len(),
{
    let wanted = |symbol: SymbolView| is_named(symbol, name, kind);
    let declared = declared_symbols(lines, uri);
    let earlier = declared_symbols(lines.drop_last(), uri);
    lemma_first_index(declared, wanted);
    if i == lines.len() - 1 {
        assert(wanted(declared[declared.len() - 1]));
    } else {
        assert(lines.drop_last()[i] == lines[i]);
        lemma_declaration_is_scanned(lines.drop_last(), uri, i, kind, name);
        lemma_first_index(earlier, wanted);
        let k = first_index(earlier, wanted)->0;
        assert(declared[k] == earlier[k]);
        assert(wanted(declared[k]));
    }
}

/// Where no document before document `d` has a symbol with the given name
/// and kind and document `d` has one, lookup finds the first such symbol of
/// document `d`.
pub proof fn lemma_lookup_in_document(
    table: Seq<DocumentView>,
    d: int,
    name: Seq<char>,
    kind: SymbolKind,
)
    requires
        0 <= d < table.len(),
        forall|j: int|
            0 <= j < d ==> first_match((#[trigger] table[j]).symbols, name, kind).is_none(),
        first_match(table[d].symbols, name, kind).is_some(),
    ensures
        lookup(table, name, kind) == Some(
            table[d].symbols[first_match(table[d].symbols, name, kind)->0],
        ),
    decreases d,
{
    if d > 0 {
        let rest = table.drop_first();
        assert(first_match(table[0].symbols, name, kind).is_none());
        assert forall|j: int| 0 <= j < d - 1 implies first_match(
            (#[trigger] rest[j]).symbols,
            name,
            kind,
        ).is_none() by {
            assert(rest[j] == table[j + 1]);
        }
        assert(rest[d - 1] == table[d]);
        lemma_lookup_in_document(rest, d - 1, name, kind);
    }
}

/// A declaration query on a line that declares the backend `name` answers
/// with the references recorded for the backend of that name in the same
/// document, in their order, or with nothing where none were recorded;
/// the column of the query does not matter. Lookup goes through the
/// documents in order, so this is stated of an index in which no earlier
/// document declares a backend of that name.
pub proof fn lemma_backend_declaration_query(
    table: Seq<DocumentView>,
    uri: Seq<char>,
    content: Seq<char>,
    position: Position,
    name: Seq<char>,
)
    requires
        symbols_in(table, uri) == Some(parsed_symbols(uri, content)),
        position.line < lines_of(content).len(),
        declaration_of(trimmed(lines_of(content)[position.line as int])) == Some(
            (SymbolKind::Backend, name),
        ),
        forall|j: int|
            0 <= j < document_index(table, uri)->0 ==> first_match(
                (#[trigger] table[j]).symbols,
                name,
                SymbolKind::Backend,
            ).is_none(),
    ensures
        ({
            let symbols = parsed_symbols(uri, content);
            let found = first_match(symbols, name, SymbolKind::Backend);
            &&& found matches Some(k) && 0 <= k < symbols.len() && is_named(
                symbols[k],
                name,
                SymbolKind::Backend,
            )
            &&& declaration_references(table, content, position) == (if symbols[found->0]
                .references.len() == 0 {
                None
            } else {
                Some(symbols[found->0].references)
            })
        }),
{
    let kind = SymbolKind::Backend;
    let lines = lines_of(content);
    let declared = declared_symbols(lines, uri);
    let symbols = parsed_symbols(uri, content);
    lemma_declaration_is_scanned(lines, uri, position.line as int, kind, name);
    lemma_linked_same_declarations(declared, lines, uri);
    lemma_first_match_same_declarations(symbols, declared, name, kind);
    lemma_first_index(symbols, |symbol: SymbolView| is_named(symbol, name, kind));
    lemma_first_index(table, |document: DocumentView| document.uri == uri);
    let d = document_index(table, uri)->0;
    lemma_lookup_in_document(table, d, name, kind);
}


/// Every reference of every symbol belongs to the document `uri` and was
/// recorded for a `use_backend`, a `default_backend`, or a condition.
pub open spec fn references_from(symbols: Seq<SymbolView>, uri: Seq<char>) -> bool {
    forall|k: int, a: int|
        0 <= k < symbols.len() && 0 <= a < symbols[k].references.len() ==> {
            &&& (#[trigger] symbols[k].references[a]).uri == uri
            &&& symbols[k].references[a].context != ReferenceContext::ServerReference
        }
}

/// No line makes a mention in the context `ServerReference`.
pub proof fn lemma_mentions_name_no_server(line: Seq<char>)
    ensures
        forall|i: int|
            0 <= i < line_mentions(line).len() ==> (#[trigger] line_mentions(line)[i]).context
                != ReferenceContext::ServerReference,
{
}

/// Attaching mentions that are no server references gives references of
/// the document only, and no server references.
proof fn lemma_attach_all_from(
    symbols: Seq<SymbolView>,
    mentions: Seq<MentionView>,
    range: Range,
    uri: Seq<char>,
)
    requires
        references_from(symbols, uri),
        forall|i: int|
            0 <= i < mentions.len() ==> (#[trigger] mentions[i]).context
                != ReferenceContext::ServerReference,
    ensures
        references_from(attach_all(symbols, mentions, range, uri), uri),
    decreases mentions.len(),
{
    if mentions.len() > 0 {
        let earlier = attach_all(symbols, mentions.drop_last(), range, uri);
        assert forall|i: int| 0 <= i < mentions.drop_last().len() implies (
        #[trigger] mentions.drop_last()[i]).context != ReferenceContext::ServerReference by {
            assert(mentions.drop_last()[i] == mentions[i]);
        }
        lemma_attach_all_from(symbols, mentions.drop_last(), range, uri);
        let mention = mentions.last();
        assert(mention == mentions[mentions.len() - 1]);
        let reference = ReferenceView { range, uri, context: mention.context };
        lemma_attach(earlier, mention.name, mention.kind, reference);
        let after = attach(earlier, mention.name, mention.kind, reference);
        assert forall|k: int, a: int|
            0 <= k < after.len() && 0 <= a < after[k].references.len() implies (
        #[trigger] after[k].references[a]).uri == uri && after[k].references[a].context
            != ReferenceContext::ServerReference by {
            if a < earlier[k].references.len() {
                assert(after[k].references[a] == earlier[k].references[a]);
            }
        }
    }
}

/// Every reference in a parsed document lies in that document, and none
/// has the context `ServerReference`: the linker never produces it.
pub proof fn lemma_references_come_from_the_document(uri: Seq<char>, content: Seq<char>)
    ensures
        references_from(parsed_symbols(uri, content), uri),
{
    let lines = lines_of(content);
    let declared = declared_symbols(lines, uri);
    lemma_declared_without_references(lines, uri);
    lemma_linked_from(declared, lines, uri);
}

/// Linking gives references of the document only, and no server
/// references.
proof fn lemma_linked_from(symbols: Seq<SymbolView>, lines: Seq<Seq<char>>, uri: Seq<char>)
    requires
        references_from(symbols, uri),
    ensures
        references_from(linked_symbols(symbols, lines, uri), uri),
    decreases lines.len(),
{
    if lines.len() > 0 {
        lemma_linked_from(symbols, lines.drop_last(), uri);
        let line = trimmed(lines.last());
        lemma_mentions_name_no_server(line);
        lemma_attach_all_from(
            linked_symbols(symbols, lines.drop_last(), uri),
            line_mentions(line),
            line_range(lines.len() - 1, line),
            uri,
        );
    }
}

/// The symbols of `symbols` belong to the document `uri`, each spans one
/// line from column 0, and they stand in the order of their lines, all
/// before line `bound`.
pub open spec fn declared_in_order(symbols: Seq<SymbolView>, uri: Seq<char>, bound: int) -> bool {
    &&& forall|k: int|
        0 <= k < symbols.len() ==> {
            &&& (#[trigger] symbols[k]).uri == uri
            &&& symbols[k].range.start.character == 0
            &&& symbols[k].range.end.line == symbols[k].range.start.line
            &&& symbols[k].range.start.line < bound
        }
    &&& forall|j: int, k: int|
        0 <= j < k < symbols.len() ==> (#[trigger] symbols[j]).range.start.line < (
        #[trigger] symbols[k]).range.start.line
}

/// The scanner keeps the symbols in the order of the lines that declare
/// them.
proof fn lemma_declared_in_order(lines: Seq<Seq<char>>, uri: Seq<char>)
    requires
        lines.len() <= 0x1_0000_0000,
    ensures
        declared_in_order(declared_symbols(lines, uri), uri, lines.len() as int),
    decreases lines.len(),
{
    if lines.len() > 0 {
        lemma_declared_in_order(lines.drop_last(), uri);
    }
}

/// The symbols of a parsed document stand in the order of the lines that
/// declare them, one to a line; each belongs to the document and spans its
/// line from column 0. Line numbers are kept in 32 bits, so this is stated
/// of documents whose line numbers all fit.
pub proof fn lemma_symbols_in_line_order(uri: Seq<char>, content: Seq<char>)
    requires
        lines_of(content).len() <= 0x1_0000_0000,
    ensures
        declared_in_order(parsed_symbols(uri, content), uri, lines_of(content).len() as int),
{
    let lines = lines_of(content);
    let declared = declared_symbols(lines, uri);
    let symbols = parsed_symbols(uri, content);
    lemma_declared_in_order(lines, uri);
    lemma_linked_same_declarations(declared, lines, uri);
    assert forall|k: int| 0 <= k < symbols.len() implies (#[trigger] symbols[k]).uri == uri
        && symbols[k].range == declared[k].range by {}
    assert forall|j: int, k: int| 0 <= j < k < symbols.len() implies (
    #[trigger] symbols[j]).range.start.line < (#[trigger] symbols[k]).range.start.line by {
        assert(declared[j].range.start.line < declared[k].range.start.line);
    }
}


/// Where lookup finds the first symbol with the given name and kind: the
/// number of its document in `table` and its number among the symbols of
/// that document.
pub open spec fn location_of(table: Seq<DocumentView>, name: Seq<char>, kind: SymbolKind) -> Option<
    (int, int),
>
    decreases table.len(),
{
    if table.len() == 0 {
        None
    } else {
        match first_match(table[0].symbols, name, kind) {
            Some(k) => Some((0int, k)),
            None => match location_of(table.drop_first(), name, kind) {
                Some((d, k)) => Some((d + 1, k)),
                None => None,
            },
        }
    }
}

/// Lookup gives the symbol at the place that `location_of` names: the first
/// match of the first document that has one.
pub proof fn lemma_lookup_location(table: Seq<DocumentView>, name: Seq<char>, kind: SymbolKind)
    ensures
        match location_of(table, name, kind) {
            Some((d, k)) => {
                &&& 0 <= d < table.len()
                &&& 0 <= k < table[d].symbols.len()
                &&& first_match(table[d].symbols, name, kind) == Some(k)
                &&& is_named(table[d].symbols[k], name, kind)
                &&& lookup(table, name, kind) == Some(table[d].symbols[k])
                &&& forall|j: int|
                    0 <= j < d ==> first_match((#[trigger] table[j]).symbols, name, kind).is_none()
            },
            None => lookup(table, name, kind).is_none(),
        },
    decreases table.len(),
{
    if table.len() > 0 {
        lemma_first_index(table[0].symbols, |symbol: SymbolView| is_named(symbol, name, kind));
        if first_match(table[0].symbols, name, kind).is_none() {
            let rest = table.drop_first();
            lemma_lookup_location(rest, name, kind);
            match location_of(rest, name, kind) {
                Some((d, k)) => {
                    assert(rest[d] == table[d + 1]);
                    assert forall|j: int| 0 <= j < d + 1 implies first_match(
                        (#[trigger] table[j]).symbols,
                        name,
                        kind,
                    ).is_none() by {
                        if j > 0 {
                            assert(table[j] == rest[j - 1]);
                        }
                    }
                },
                None => {},
            }
        }
    }
}

/// What lookup finds in an index is a symbol of a parse: the index holds
/// for each document the symbols that parsing its text gives, so the symbol
/// found is one of these, and its references are exactly those that the
/// lines of that document make to it, in the order in which they were
/// linked.
pub proof fn lemma_found_symbol_is_parsed(
    table: Seq<DocumentView>,
    name: Seq<char>,
    kind: SymbolKind,
)
    requires
        parsed_throughout(table),
    ensures
        match location_of(table, name, kind) {
            Some((d, k)) => {
                let uri = table[d].uri;
                let lines = lines_of(table[d].content);
                let symbols = parsed_symbols(uri, table[d].content);
                &&& 0 <= d < table.len()
                &&& 0 <= k < symbols.len()
                &&& lookup(table, name, kind) == Some(symbols[k])
                &&& symbols[k].references == references_of_lines(
                    declared_symbols(lines, uri),
                    lines,
                    uri,
                    k,
                )
            },
            None => lookup(table, name, kind).is_none(),
        },
{
    lemma_lookup_location(table, name, kind);
    match location_of(table, name, kind) {
        Some((d, k)) => {
            assert(table[d].symbols == parsed_symbols(table[d].uri, table[d].content));
            lemma_parsed_references(table[d].uri, table[d].content, k);
        },
        None => {},
    }
}

/// Every document of `table` has so few lines that their numbers fit in 32
/// bits.
pub open spec fn line_numbers_fit(table: Seq<DocumentView>) -> bool {
    forall|d: int|
        0 <= d < table.len() ==> lines_of((#[trigger] table[d]).content).len() <= 0x1_0000_0000
}

/// The references that a lookup in any index gives stand in the order of
/// the lines that make them. Line numbers are kept in 32 bits, so this is
/// stated of indexes whose documents have line numbers that all fit.
pub proof fn lemma_found_references_in_line_order(
    table: Seq<DocumentView>,
    name: Seq<char>,
    kind: SymbolKind,
)
    requires
        parsed_throughout(table),
        line_numbers_fit(table),
    ensures
        references_to(table, name, kind) matches Some(references) ==> in_line_order(references),
{
    lemma_found_symbol_is_parsed(table, name, kind);
    match location_of(table, name, kind) {
        Some((d, k)) => {
            assert(lines_of(table[d].content).len() <= 0x1_0000_0000);
            lemma_references_in_line_order(table[d].uri, table[d].content, k);
        },
        None => {},
    }
}

/// The references that a declaration query gives, asked of any index and
/// at any position of any text, stand in the order in which they were
/// linked, which is the order of the referencing lines. Line numbers are
/// kept in 32 bits, so this is stated of indexes whose documents have line
/// numbers that all fit.
pub proof fn lemma_declaration_query_in_line_order(
    table: Seq<DocumentView>,
    content: Seq<char>,
    position: Position,
)
    requires
        parsed_throughout(table),
        line_numbers_fit(table),
    ensures
        declaration_references(table, content, position) matches Some(references)
            ==> in_line_order(references),
{
    let lines = lines_of(content);
    if position.line < lines.len() {
        match declaration_of(trimmed(lines[position.line as int])) {
            Some((kind, name)) => {
                lemma_found_references_in_line_order(table, name, kind);
            },
            None => {},
        }
    }
}

/// A document with one `use_backend` line for a backend, line number `n`,
/// gives the first backend of that name exactly one `use_backend`
/// reference: that of line `n`, in this document, over the whole trimmed
/// line.
pub proof fn lemma_single_use_backend_line(
    uri: Seq<char>,
    content: Seq<char>,
    n: int,
    name: Seq<char>,
    j: int,
)
    requires
        0 <= n < lines_of(content).len(),
        keyword_target(trimmed(lines_of(content)[n]), "use_backend"@) == Some(name),
        forall|i: int|
            0 <= i < lines_of(content).len() && i != n ==> keyword_target(
                trimmed(#[trigger] lines_of(content)[i]),
                "use_backend"@,
            ) != Some(name),
        first_match(declared_symbols(lines_of(content), uri), name, SymbolKind::Backend) == Some(
            j,
        ),
    ensures
        0 <= j < parsed_symbols(uri, content).len(),
        in_context(parsed_symbols(uri, content)[j].references, ReferenceContext::UseBackend)
            == seq![
            ReferenceView {
                range: line_range(n, trimmed(lines_of(content)[n])),
                uri,
                context: ReferenceContext::UseBackend,
            },
        ],
{
    let lines = lines_of(content);
    let declared = declared_symbols(lines, uri);
    lemma_first_index(declared, |symbol: SymbolView| is_named(symbol, name, SymbolKind::Backend));
    lemma_linked_same_declarations(declared, lines, uri);
    lemma_use_backend_in_document(uri, content, j);
    lemma_single_use_backend_prefix(declared, lines, uri, n, name, j, lines.len() as int);
    assert(lines.take(lines.len() as int) =~= lines);
}

/// Of the first `m` lines, only line `n` gives symbol number `j` a
/// `use_backend` reference.
proof fn lemma_single_use_backend_prefix(
    symbols: Seq<SymbolView>,
    lines: Seq<Seq<char>>,
    uri: Seq<char>,
    n: int,
    name: Seq<char>,
    j: int,
    m: int,
)
    requires
        0 <= n < lines.len(),
        0 <= m <= lines.len(),
        0 <= j < symbols.len(),
        symbols[j].name == name,
        keyword_target(trimmed(lines[n]), "use_backend"@) == Some(name),
        forall|i: int|
            0 <= i < lines.len() && i != n ==> keyword_target(
                trimmed(#[trigger] lines[i]),
                "use_backend"@,
            ) != Some(name),
        first_match(symbols, name, SymbolKind::Backend) == Some(j),
    ensures
        use_backend_references(symbols, lines.take(m), uri, j) == (if m > n {
            seq![
                ReferenceView {
                    range: line_range(n, trimmed(lines[n])),
                    uri,
                    context: ReferenceContext::UseBackend,
                },
            ]
        } else {
            Seq::empty()
        }),
    decreases m,
{
    if m > 0 {
        let prefix = lines.take(m);
        lemma_single_use_backend_prefix(symbols, lines, uri, n, name, j, m - 1);
        assert(prefix.drop_last() =~= lines.take(m - 1));
        assert(prefix.last() == lines[m - 1]);
        let line = trimmed(lines[m - 1]);
        let front = use_backend_references(symbols, lines.take(m - 1), uri, j);
        let last = use_backend_reference(symbols, line, line_range(m - 1, line), uri, j);
        if m - 1 == n {
            assert(front + last =~= last);
        } else {
            match keyword_target(line, "use_backend"@) {
                Some(other) => {
                    lemma_first_index(
                        symbols,
                        |symbol: SymbolView| is_named(symbol, other, SymbolKind::Backend),
                    );
                    assert(first_match(symbols, other, SymbolKind::Backend) != Some(j));
                },
                None => {},
            }
            assert(front + last =~= front);
        }
    }
}

} // verus!
