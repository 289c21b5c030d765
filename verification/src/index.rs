//! The symbol table: for each document its symbols, in the order in which
//! the documents were first parsed.

use vstd::prelude::*;
use crate::linker::{first_match, link, linked_symbols, position_of};
use crate::model::{
    Reference, ReferenceView, Symbol, SymbolKind, SymbolView, clone_references, reference_views,
    symbol_views,
};
use crate::scanner::{declared_symbols, scan};
use crate::search::{first_index, lemma_first_index, lemma_first_index_at};
use crate::text::{lines_of, split_lines, to_chars};

verus! {

/// The symbols of one document, and, for proofs only, the text that they
/// were parsed from.
struct Document {
    uri: String,
    symbols: Vec<Symbol>,
    content: Ghost<Seq<char>>,
}

/// The mathematical content of a `Document`: its URI, the text that it was
/// last parsed from, and its symbols.
pub struct DocumentView {
    pub uri: Seq<char>,
    pub content: Seq<char>,
    pub symbols: Seq<SymbolView>,
}

impl View for Document {
    type V = DocumentView;

    closed spec fn view(&self) -> DocumentView {
        DocumentView {
            uri: self.uri@,
            content: self.content@,
            symbols: symbol_views(self.symbols@),
        }
    }
}

/// The contents of a list of documents.
spec fn document_views(documents: Seq<Document>) -> Seq<DocumentView> {
    documents.map_values(|document: Document| document@)
}

/// The symbols that parsing `content` as the document `uri` gives: those
/// that its lines declare, each with the references that its lines make to
/// it.
pub open spec fn parsed_symbols(uri: Seq<char>, content: Seq<char>) -> Seq<SymbolView> {
    let lines = lines_of(content);
    linked_symbols(declared_symbols(lines, uri), lines, uri)
}

/// The place of the document `uri` in `table`.
pub open spec fn document_index(table: Seq<DocumentView>, uri: Seq<char>) -> Option<int> {
    first_index(table, |document: DocumentView| document.uri == uri)
}

/// The document `uri` as parsing `content` gives it.
pub open spec fn parsed_document(uri: Seq<char>, content: Seq<char>) -> DocumentView {
    DocumentView { uri, content, symbols: parsed_symbols(uri, content) }
}

/// `table` after the document `uri` was parsed from `content`: what the
/// parse gives replaces what the table held for the document, or the
/// document joins the table as its last one.
pub open spec fn stored(
    table: Seq<DocumentView>,
    uri: Seq<char>,
    content: Seq<char>,
) -> Seq<DocumentView> {
    match document_index(table, uri) {
        Some(i) => table.update(i, parsed_document(uri, content)),
        None => table.push(parsed_document(uri, content)),
    }
}

/// No two documents of `table` have the same URI.
pub open spec fn distinct_uris(table: Seq<DocumentView>) -> bool {
    forall|i: int, j: int|
        0 <= i < j < table.len() ==> (#[trigger] table[i]).uri != (#[trigger] table[j]).uri
}

/// The first symbol with the given name and kind, going through the
/// documents of `table` in order and through the symbols of each in order.
pub open spec fn lookup(table: Seq<DocumentView>, name: Seq<char>, kind: SymbolKind) -> Option<
    SymbolView,
>
    decreases table.len(),
{
    if table.len() == 0 {
        None
    } else {
        match first_match(table[0].symbols, name, kind) {
            Some(k) => Some(table[0].symbols[k]),
            None => lookup(table.drop_first(), name, kind),
        }
    }
}

/// The references of the first symbol with the given name and kind; nothing
/// where there is no such symbol, and nothing where it has no references.
pub open spec fn references_to(
    table: Seq<DocumentView>,
    name: Seq<char>,
    kind: SymbolKind,
) -> Option<Seq<ReferenceView>> {
    match lookup(table, name, kind) {
        Some(symbol) => if symbol.references.len() == 0 {
            None
        } else {
            Some(symbol.references)
        },
        None => None,
    }
}

/// Every document of `table` holds exactly the symbols that parsing its
/// text gives: nothing stale, nothing from elsewhere.
pub open spec fn parsed_throughout(table: Seq<DocumentView>) -> bool {
    forall|i: int|
        0 <= i < table.len() ==> (#[trigger] table[i]).symbols == parsed_symbols(
            table[i].uri,
            table[i].content,
        )
}

/// What holds of every index: no URI occurs twice, and every document
/// holds the symbols of the latest parse of its text.
pub open spec fn valid_index(table: Seq<DocumentView>) -> bool {
    distinct_uris(table) && parsed_throughout(table)
}

/// Parsing a document keeps an index valid.
pub proof fn lemma_stored_valid(table: Seq<DocumentView>, uri: Seq<char>, content: Seq<char>)
    requires
        valid_index(table),
    ensures
        valid_index(stored(table, uri, content)),
{
    lemma_first_index(table, |document: DocumentView| document.uri == uri);
}

/// The symbols of `table`'s document `uri`, if the table has it.
pub open spec fn symbols_in(table: Seq<DocumentView>, uri: Seq<char>) -> Option<Seq<SymbolView>> {
    match document_index(table, uri) {
        Some(i) => Some(table[i].symbols),
        None => None,
    }
}

/// After a document was parsed, the table holds for it exactly the symbols
/// that its text gives.
pub proof fn lemma_stored_is_found(table: Seq<DocumentView>, uri: Seq<char>, content: Seq<char>)
    ensures
        symbols_in(stored(table, uri, content), uri) == Some(parsed_symbols(uri, content)),
{
    let wanted = |document: DocumentView| document.uri == uri;
    lemma_first_index(table, wanted);
    let after = stored(table, uri, content);
    match first_index(table, wanted) {
        Some(i) => {
            assert forall|j: int| 0 <= j < i implies !wanted(#[trigger] after[j]) by {
                assert(after[j] == table[j]);
            }
            lemma_first_index_at(after, wanted, i);
        },
        None => {
            assert forall|j: int| 0 <= j < table.len() implies !wanted(#[trigger] after[j]) by {
                assert(after[j] == table[j]);
            }
            lemma_first_index_at(after, wanted, table.len() as int);
        },
    }
}

/// A copy of `symbols`, element by element.
pub fn clone_symbols(symbols: &Vec<Symbol>) -> (copy: Vec<Symbol>)
    ensures
        symbol_views(copy@) == symbol_views(symbols@),
{
    let mut copy: Vec<Symbol> = Vec::new();
    let mut i: usize = 0;
    assert(symbol_views(copy@) =~= symbol_views(symbols@.take(0)));
    while i < symbols.len()
        invariant
            i <= symbols.len(),
            symbol_views(copy@) == symbol_views(symbols@.take(i as int)),
        decreases symbols.len() - i,
    {
        let ghost before = copy@;
        let symbol = symbols[i].clone();
        copy.push(symbol);
        assert(symbol_views(copy@) =~= symbol_views(before).push(symbol@));
        assert(symbol_views(symbols@.take(i + 1)) =~= symbol_views(symbols@.take(i as int)).push(
            symbols@[i as int]@,
        ));
        i += 1;
    }
    assert(symbols@.take(symbols.len() as int) =~= symbols@);
    copy
}

/// Parses `content` as the document `uri`: scans its lines for
/// declarations, then links the references that its lines make.
pub fn parse(uri: &str, content: &str) -> (symbols: Vec<Symbol>)
    ensures
        symbol_views(symbols@) == parsed_symbols(uri@, content@),
{
    let chars = to_chars(content);
    let lines = split_lines(chars.as_slice());
    let mut symbols = scan(&lines, uri);
    link(&mut symbols, &lines, uri);
    symbols
}

/// The symbol index of a language server: the documents that were parsed,
/// each with its symbols.
pub struct HaproxyLsp {
    documents: Vec<Document>,
}

impl View for HaproxyLsp {
    type V = Seq<DocumentView>;

    closed spec fn view(&self) -> Seq<DocumentView> {
        document_views(self.documents@)
    }
}

impl HaproxyLsp {
    /// What holds of every index at all times.
    #[verifier::type_invariant]
    pub open spec fn well_formed(self) -> bool {
        valid_index(self@)
    }

    /// An index without documents.
    pub fn new() -> (lsp: Self)
        ensures
            lsp@ == Seq::<DocumentView>::empty(),
    {
        let lsp = HaproxyLsp { documents: Vec::new() };
        assert(lsp@ =~= Seq::<DocumentView>::empty());
        lsp
    }

    /// Parses `content` and makes the result the symbols of the document
    /// `uri`, in place of whatever the index held for it.
    pub fn parse_document(&mut self, uri: &str, content: &str)
        ensures
            final(self)@ == stored(old(self)@, uri@, content@),
            symbols_in(final(self)@, uri@) == Some(parsed_symbols(uri@, content@)),
            valid_index(old(self)@),
            valid_index(final(self)@),
    {
        let symbols = parse(uri, content);
        let key = uri.to_owned();
        proof {
            use_type_invariant(&*self);
        }
        let mut documents: Vec<Document> = Vec::new();
        std::mem::swap(&mut documents, &mut self.documents);
        let ghost table = document_views(documents@);
        let document = Document { uri: key, symbols, content: Ghost(content@) };
        let mut i: usize = 0;
        while i < documents.len() && documents[i].uri != document.uri
            invariant
                i <= documents.len(),
                table == document_views(documents@),
                document.uri@ == uri@,
                forall|j: int| 0 <= j < i ==> (#[trigger] table[j]).uri != uri@,
            decreases documents.len() - i,
        {
            i += 1;
        }
        proof {
            lemma_first_index_at(table, |document: DocumentView| document.uri == uri@, i as int);
            lemma_stored_valid(table, uri@, content@);
            lemma_stored_is_found(table, uri@, content@);
        }
        if i < documents.len() {
            documents.set(i, document);
        } else {
            documents.push(document);
        }
        assert(document_views(documents@) =~= stored(table, uri@, content@));
        self.documents = documents;
    }

    /// The symbols that the index holds for the document `uri`.
    pub fn symbols_of(&self, uri: &str) -> (r: Option<Vec<Symbol>>)
        ensures
            valid_index(self@),
            match r {
                Some(symbols) => symbols_in(self@, uri@) == Some(symbol_views(symbols@)),
                None => symbols_in(self@, uri@).is_none(),
            },
    {
        proof {
            use_type_invariant(self);
        }
        let key = uri.to_owned();
        let ghost table = self@;
        let mut i: usize = 0;
        while i < self.documents.len() && self.documents[i].uri != key
            invariant
                i <= self.documents.len(),
                table == self@,
                key@ == uri@,
                forall|j: int| 0 <= j < i ==> (#[trigger] table[j]).uri != uri@,
            decreases self.documents.len() - i,
        {
            i += 1;
        }
        proof {
            lemma_first_index_at(table, |document: DocumentView| document.uri == uri@, i as int);
        }
        if i < self.documents.len() {
            Some(clone_symbols(&self.documents[i].symbols))
        } else {
            None
        }
    }

    /// The number of documents in the index.
    pub fn document_count(&self) -> (n: usize)
        ensures
            n == self@.len(),
    {
        self.documents.len()
    }

    /// The first symbol with the given name and kind.
    pub fn find_symbol_by_name(&self, name: &str, kind: SymbolKind) -> (r: Option<Symbol>)
        ensures
            valid_index(self@),
            match r {
                Some(symbol) => lookup(self@, name@, kind) == Some(symbol@),
                None => lookup(self@, name@, kind).is_none(),
            },
    {
        proof {
            use_type_invariant(self);
        }
        let key = name.to_owned();
        match self.locate(&key, kind) {
            Some((i, k)) => Some(self.documents[i].symbols[k].clone()),
            None => None,
        }
    }

    /// The references of the first symbol with the given name and kind;
    /// nothing where it has none.
    pub fn find_references_to_symbol(&self, name: &str, kind: SymbolKind) -> (r: Option<
        Vec<Reference>,
    >)
        ensures
            valid_index(self@),
            match r {
                Some(references) => references_to(self@, name@, kind) == Some(
                    reference_views(references@),
                ),
                None => references_to(self@, name@, kind).is_none(),
            },
    {
        proof {
            use_type_invariant(self);
        }
        let key = name.to_owned();
        match self.locate(&key, kind) {
            Some((i, k)) => {
                let symbol = &self.documents[i].symbols[k];
                if symbol.references.len() == 0 {
                    None
                } else {
                    Some(clone_references(&symbol.references))
                }
            },
            None => None,
        }
    }

    /// Where the first symbol with the given name and kind stands: the
    /// number of its document and its number among the document's symbols.
    fn locate(&self, name: &String, kind: SymbolKind) -> (r: Option<(usize, usize)>)
        ensures
            match r {
                Some((i, k)) => {
                    &&& i < self.documents.len()
                    &&& k < self.documents[i as int].symbols.len()
                    &&& lookup(self@, name@, kind) == Some(
                        self.documents[i as int].symbols[k as int]@,
                    )
                },
                None => lookup(self@, name@, kind).is_none(),
            },
    {
        let ghost table = self@;
        let mut i: usize = 0;
        assert(table.skip(0) =~= table);
        while i < self.documents.len()
            invariant
                i <= self.documents.len(),
                table == self@,
                lookup(table, name@, kind) == lookup(table.skip(i as int), name@, kind),
            decreases self.documents.len() - i,
        {
            assert(table.skip(i as int).drop_first() =~= table.skip(i + 1));
            assert(table.skip(i as int)[0] == self.documents@[i as int]@);
            match position_of(&self.documents[i].symbols, name, kind) {
                Some(k) => {
                    return Some((i, k));
                },
                None => {},
            }
            i += 1;
        }
        None
    }
}

} // verus!
