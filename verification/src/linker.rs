//! Second pass over a document: the references that its lines make, and the
//! symbols that receive them.

use vstd::prelude::*;
use vstd::slice::slice_subrange;
use crate::index::HaproxyLsp;
use crate::model::{
    Range, Reference, ReferenceContext, ReferenceView, Symbol, SymbolKind, SymbolView,
    reference_views, symbol_views,
};
use crate::scanner::{line_range, range_of_line};
use crate::search::{first_index, lemma_first_index_at};
use crate::text::{
    all_name_chars, contains, contains_char, find, first_occurrence, is_name, lemma_second_token,
    lemma_token_bounds, occurs_at, occurs_in, same_chars, split_first_token, string_views,
    to_chars, to_string, tokens, trim, trimmed, views,
};

verus! {

/// The name that follows `keyword` on `line`: the second token, where the
/// first one is the keyword.
pub open spec fn keyword_target(line: Seq<char>, keyword: Seq<char>) -> Option<Seq<char>> {
    let parts = tokens(trimmed(line));
    if parts.len() >= 2 && parts[0] == keyword {
        Some(parts[1])
    } else {
        None
    }
}

/// The name that one token of a condition stands for, if any. The operators
/// `||` and `&&` stand for none. One leading `!` is set aside; what remains
/// is a name when it is not empty and made of name characters only.
pub open spec fn condition_candidate(token: Seq<char>) -> Option<Seq<char>> {
    if token == "||"@ || token == "&&"@ {
        None
    } else {
        let name = if token.len() > 0 && token[0] == '!' {
            token.drop_first()
        } else {
            token
        };
        if name.len() > 0 && all_name_chars(name) {
            Some(name)
        } else {
            None
        }
    }
}

/// The names that the tokens of a condition refer to, in order. The first
/// token that holds `{` ends the condition.
pub open spec fn condition_names(parts: Seq<Seq<char>>) -> Seq<Seq<char>>
    decreases parts.len(),
{
    if parts.len() == 0 || parts[0].contains('{') {
        Seq::empty()
    } else {
        let rest = condition_names(parts.drop_first());
        match condition_candidate(parts[0]) {
            Some(name) => seq![name] + rest,
            None => rest,
        }
    }
}

/// The keyword of a condition as it stands inside a line: between two spaces.
pub open spec fn spaced(keyword: Seq<char>) -> Seq<char> {
    seq![' '] + keyword + seq![' ']
}

/// The names that the condition of `line` introduced by `keyword` refers
/// to: those in what follows the first occurrence of the keyword between
/// two spaces. Empty where the keyword does not occur.
pub open spec fn acl_names(line: Seq<char>, keyword: Seq<char>) -> Seq<Seq<char>> {
    match first_occurrence(line, spaced(keyword)) {
        Some(at) => condition_names(tokens(line.skip(at + spaced(keyword).len()))),
        None => Seq::empty(),
    }
}

/// A name used on a line, with the kind of symbol meant and the context of
/// the use.
pub struct MentionView {
    pub name: Seq<char>,
    pub kind: SymbolKind,
    pub context: ReferenceContext,
}

/// The mention that a `use_backend` or `default_backend` keyword makes on
/// `line`, if any.
pub open spec fn backend_mentions(
    line: Seq<char>,
    keyword: Seq<char>,
    context: ReferenceContext,
) -> Seq<MentionView> {
    if occurs_in(line, keyword) {
        match keyword_target(line, keyword) {
            Some(name) => seq![MentionView { name, kind: SymbolKind::Backend, context }],
            None => Seq::empty(),
        }
    } else {
        Seq::empty()
    }
}

/// The mentions that the `if` or `unless` condition of `line` makes.
pub open spec fn condition_mentions(
    line: Seq<char>,
    keyword: Seq<char>,
    context: ReferenceContext,
) -> Seq<MentionView> {
    acl_names(line, keyword).map_values(
        |name: Seq<char>| MentionView { name, kind: SymbolKind::Acl, context },
    )
}

/// All mentions that a trimmed line makes, in the order in which they are
/// linked: `use_backend`, `default_backend`, the `if` condition, the
/// `unless` condition.
pub open spec fn line_mentions(line: Seq<char>) -> Seq<MentionView> {
    backend_mentions(line, "use_backend"@, ReferenceContext::UseBackend) + backend_mentions(
        line,
        "default_backend"@,
        ReferenceContext::DefaultBackend,
    ) + condition_mentions(line, "if"@, ReferenceContext::AclCondition) + condition_mentions(
        line,
        "unless"@,
        ReferenceContext::AclUnlessCondition,
    )
}

/// Whether `symbol` is a symbol of kind `kind` named `name`.
pub open spec fn is_named(symbol: SymbolView, name: Seq<char>, kind: SymbolKind) -> bool {
    symbol.name == name && symbol.kind == kind
}

/// The index of the first symbol of `symbols` with the given name and kind.
pub open spec fn first_match(symbols: Seq<SymbolView>, name: Seq<char>, kind: SymbolKind) -> Option<
    int,
> {
    first_index(symbols, |symbol: SymbolView| is_named(symbol, name, kind))
}

/// `symbol` with `reference` added at the end of its references.
pub open spec fn with_reference(symbol: SymbolView, reference: ReferenceView) -> SymbolView {
    SymbolView {
        name: symbol.name,
        kind: symbol.kind,
        range: symbol.range,
        uri: symbol.uri,
        references: symbol.references.push(reference),
    }
}

/// `symbols` after `reference` went to the first symbol with the given name
/// and kind. Where no symbol has them, the reference is dropped.
pub open spec fn attach(
    symbols: Seq<SymbolView>,
    name: Seq<char>,
    kind: SymbolKind,
    reference: ReferenceView,
) -> Seq<SymbolView> {
    match first_match(symbols, name, kind) {
        Some(k) => symbols.update(k, with_reference(symbols[k], reference)),
        None => symbols,
    }
}

/// The index of the first symbol of `symbols` with the given name and kind.
pub fn position_of(symbols: &Vec<Symbol>, name: &String, kind: SymbolKind) -> (r: Option<usize>)
    ensures
        match r {
            Some(k) => first_match(symbol_views(symbols@), name@, kind) == Some(k as int) && k
                < symbols.len(),
            None => first_match(symbol_views(symbols@), name@, kind).is_none(),
        },
{
    let ghost all = symbol_views(symbols@);
    let mut i: usize = 0;
    while i < symbols.len()
        invariant
            i <= symbols.len(),
            all == symbol_views(symbols@),
            forall|j: int| 0 <= j < i ==> !is_named(#[trigger] all[j], name@, kind),
        decreases symbols.len() - i,
    {
        if symbols[i].name == *name && symbols[i].kind == kind {
            proof {
                lemma_first_index_at(
                    all,
                    |symbol: SymbolView| is_named(symbol, name@, kind),
                    i as int,
                );
            }
            return Some(i);
        }
        i += 1;
    }
    proof {
        lemma_first_index_at(
            all,
            |symbol: SymbolView| is_named(symbol, name@, kind),
            symbols.len() as int,
        );
    }
    None
}

/// Gives `reference` to the first symbol of `symbols` with the given name
/// and kind; drops it where there is none.
pub fn add_reference(
    symbols: &mut Vec<Symbol>,
    name: &String,
    kind: SymbolKind,
    reference: Reference,
)
    ensures
        symbol_views(final(symbols)@) == attach(
            symbol_views(old(symbols)@),
            name@,
            kind,
            reference@,
        ),
{
    let ghost before = symbol_views(symbols@);
    match position_of(symbols, name, kind) {
        Some(k) => {
            let ghost earlier = symbols[k as int].references@;
            symbols[k].references.push(reference);
            assert(reference_views(symbols[k as int].references@) =~= reference_views(
                earlier,
            ).push(reference@));
            assert(symbol_views(symbols@) =~= before.update(
                k as int,
                with_reference(before[k as int], reference@),
            ));
        },
        None => {},
    }
}

/// `symbols` after every mention of `mentions` was attached in turn, each
/// as a reference with the given range and document.
pub open spec fn attach_all(
    symbols: Seq<SymbolView>,
    mentions: Seq<MentionView>,
    range: Range,
    uri: Seq<char>,
) -> Seq<SymbolView>
    decreases mentions.len(),
{
    if mentions.len() == 0 {
        symbols
    } else {
        let mention = mentions.last();
        attach(
            attach_all(symbols, mentions.drop_last(), range, uri),
            mention.name,
            mention.kind,
            ReferenceView { range, uri, context: mention.context },
        )
    }
}

/// `symbols` after the mentions of every line of `lines` were attached,
/// line by line from the first. A reference carries the range of the whole
/// trimmed line that makes it.
pub open spec fn linked_symbols(
    symbols: Seq<SymbolView>,
    lines: Seq<Seq<char>>,
    uri: Seq<char>,
) -> Seq<SymbolView>
    decreases lines.len(),
{
    if lines.len() == 0 {
        symbols
    } else {
        let line = trimmed(lines.last());
        attach_all(
            linked_symbols(symbols, lines.drop_last(), uri),
            line_mentions(line),
            line_range(lines.len() - 1, line),
            uri,
        )
    }
}

/// The name that follows `keyword` on `line`.
pub fn target_of_keyword<'a>(line: &'a [char], keyword: &[char]) -> (r: Option<&'a [char]>)
    ensures
        match r {
            Some(name) => keyword_target(line@, keyword@) == Some(name@),
            None => keyword_target(line@, keyword@).is_none(),
        },
{
    let line = trim(line);
    let (first, rest) = split_first_token(line);
    let (second, _) = split_first_token(rest);
    proof {
        lemma_second_token(line@);
    }
    if second.len() > 0 && same_chars(first, keyword) {
        Some(second)
    } else {
        None
    }
}

/// The name that one token of a condition stands for, if any.
pub fn candidate_of<'a>(token: &'a [char]) -> (r: Option<&'a [char]>)
    ensures
        match r {
            Some(name) => condition_candidate(token@) == Some(name@),
            None => condition_candidate(token@).is_none(),
        },
{
    let or = to_chars("||");
    let and = to_chars("&&");
    if same_chars(token, or.as_slice()) || same_chars(token, and.as_slice()) {
        return None;
    }
    let name = if token.len() > 0 && token[0] == '!' {
        slice_subrange(token, 1, token.len())
    } else {
        token
    };
    if name.len() > 0 && is_name(name) {
        Some(name)
    } else {
        None
    }
}

/// The names that the condition of `line` introduced by `keyword` refers to.
pub fn names_in_condition<'a>(line: &'a [char], keyword: &[char]) -> (names: Vec<&'a [char]>)
    ensures
        views(names@) == acl_names(line@, keyword@),
{
    let mut pattern: Vec<char> = Vec::new();
    pattern.push(' ');
    let mut k: usize = 0;
    while k < keyword.len()
        invariant
            k <= keyword.len(),
            pattern@ == seq![' '] + keyword@.take(k as int),
        decreases keyword.len() - k,
    {
        pattern.push(keyword[k]);
        assert(pattern@ =~= seq![' '] + keyword@.take(k + 1));
        k += 1;
    }
    pattern.push(' ');
    assert(pattern@ =~= spaced(keyword@)) by {
        assert(keyword@.take(keyword.len() as int) =~= keyword@);
    }
    let mut names: Vec<&'a [char]> = Vec::new();
    assert(views(names@) =~= Seq::empty());
    match find(line, pattern.as_slice()) {
        None => names,
        Some(at) => {
            assert(occurs_at(line@, pattern@, at as int));
            assert(line@.len() == line.len());
            let clause = slice_subrange(line, at + pattern.len(), line.len());
            let mut rest = clause;
            loop
                invariant
                    condition_names(tokens(clause@)) == views(names@) + condition_names(
                        tokens(rest@),
                    ),
                ensures
                    condition_names(tokens(clause@)) == views(names@),
                decreases rest@.len(),
            {
                let (token, after) = split_first_token(rest);
                proof {
                    lemma_token_bounds(rest@);
                }
                if token.len() == 0 {
                    assert(tokens(rest@) =~= Seq::empty());
                    break ;
                }
                assert(tokens(rest@) =~= seq![token@] + tokens(after@));
                assert(tokens(rest@).drop_first() =~= tokens(after@));
                if contains_char(token, '{') {
                    break ;
                }
                let ghost before = views(names@);
                match candidate_of(token) {
                    Some(name) => {
                        names.push(name);
                        assert(views(names@) =~= before + seq![name@]);
                    },
                    None => {},
                }
                rest = after;
            }
            names
        },
    }
}

/// A name used on a line, with the kind of symbol meant and the context of
/// the use.
#[derive(Debug)]
pub struct Mention {
    pub name: String,
    pub kind: SymbolKind,
    pub context: ReferenceContext,
}

impl View for Mention {
    type V = MentionView;

    open spec fn view(&self) -> MentionView {
        MentionView { name: self.name@, kind: self.kind, context: self.context }
    }
}

/// The contents of a list of mentions.
pub open spec fn mention_views(mentions: Seq<Mention>) -> Seq<MentionView> {
    mentions.map_values(|mention: Mention| mention@)
}

/// Adds to `mentions` the mention that `keyword` makes on `line`, if any.
fn push_backend_mention(
    mentions: &mut Vec<Mention>,
    line: &[char],
    keyword: &str,
    context: ReferenceContext,
)
    ensures
        mention_views(final(mentions)@) == mention_views(old(mentions)@) + backend_mentions(
            line@,
            keyword@,
            context,
        ),
{
    let keyword = to_chars(keyword);
    let ghost before = mention_views(mentions@);
    if contains(line, keyword.as_slice()) {
        match target_of_keyword(line, keyword.as_slice()) {
            Some(name) => {
                let mention = Mention { name: to_string(name), kind: SymbolKind::Backend, context };
                mentions.push(mention);
                assert(mention_views(mentions@) =~= before + seq![mention@]);
                return ;
            },
            None => {},
        }
    }
    assert(mention_views(mentions@) =~= before + Seq::empty());
}

/// Adds to `mentions` those that the condition of `line` introduced by
/// `keyword` makes.
fn push_condition_mentions(
    mentions: &mut Vec<Mention>,
    line: &[char],
    keyword: &str,
    context: ReferenceContext,
)
    ensures
        mention_views(final(mentions)@) == mention_views(old(mentions)@) + condition_mentions(
            line@,
            keyword@,
            context,
        ),
{
    let keyword = to_chars(keyword);
    let names = names_in_condition(line, keyword.as_slice());
    let ghost before = mention_views(mentions@);
    let ghost wanted = condition_mentions(line@, keyword@, context);
    let mut i: usize = 0;
    assert(mention_views(mentions@) =~= before + wanted.take(0));
    while i < names.len()
        invariant
            i <= names.len(),
            views(names@) == acl_names(line@, keyword@),
            wanted == condition_mentions(line@, keyword@, context),
            mention_views(mentions@) == before + wanted.take(i as int),
        decreases names.len() - i,
    {
        let ghost earlier = mention_views(mentions@);
        let mention = Mention { name: to_string(names[i]), kind: SymbolKind::Acl, context };
        assert(mention@ == wanted[i as int]) by {
            assert(views(names@)[i as int] == names@[i as int]@);
        }
        mentions.push(mention);
        assert(mention_views(mentions@) =~= earlier.push(mention@));
        assert(before + wanted.take(i + 1) =~= (before + wanted.take(i as int)).push(
            wanted[i as int],
        ));
        i += 1;
    }
    assert(wanted.take(names.len() as int) =~= wanted);
}

/// All mentions that the trimmed line `line` makes, in linking order.
pub fn mentions_of(line: &[char]) -> (mentions: Vec<Mention>)
    ensures
        mention_views(mentions@) == line_mentions(line@),
{
    let mut mentions: Vec<Mention> = Vec::new();
    assert(mention_views(mentions@) =~= Seq::empty());
    push_backend_mention(&mut mentions, line, "use_backend", ReferenceContext::UseBackend);
    push_backend_mention(&mut mentions, line, "default_backend", ReferenceContext::DefaultBackend);
    push_condition_mentions(&mut mentions, line, "if", ReferenceContext::AclCondition);
    push_condition_mentions(&mut mentions, line, "unless", ReferenceContext::AclUnlessCondition);
    assert(mention_views(mentions@) =~= line_mentions(line@));
    mentions
}

/// Attaches the references that the lines of a document make to the symbols
/// that they name.
pub fn link(symbols: &mut Vec<Symbol>, lines: &Vec<&[char]>, uri: &str)
    ensures
        symbol_views(final(symbols)@) == linked_symbols(
            symbol_views(old(symbols)@),
            views(lines@),
            uri@,
        ),
{
    let ghost all = views(lines@);
    let ghost declared = symbol_views(symbols@);
    let mut i: usize = 0;
    assert(all.take(0) =~= Seq::empty());
    while i < lines.len()
        invariant
            i <= lines.len(),
            all == views(lines@),
            declared == symbol_views(old(symbols)@),
            symbol_views(symbols@) == linked_symbols(declared, all.take(i as int), uri@),
        decreases lines.len() - i,
    {
        let line = trim(lines[i]);
        let range = range_of_line(i, line);
        let mentions = mentions_of(line);
        let ghost before = symbol_views(symbols@);
        let ghost wanted = mention_views(mentions@);
        assert(all.take(i + 1).drop_last() =~= all.take(i as int));
        assert(all.take(i + 1).last() == lines@[i as int]@);
        let mut j: usize = 0;
        assert(wanted.take(0) =~= Seq::empty());
        while j < mentions.len()
            invariant
                j <= mentions.len(),
                wanted == mention_views(mentions@),
                symbol_views(symbols@) == attach_all(before, wanted.take(j as int), range, uri@),
            decreases mentions.len() - j,
        {
            let mention = &mentions[j];
            let reference = Reference { range, uri: uri.to_owned(), context: mention.context };
            assert(wanted.take(j + 1).drop_last() =~= wanted.take(j as int));
            assert(wanted.take(j + 1).last() == mention@);
            add_reference(symbols, &mention.name, mention.kind, reference);
            j += 1;
        }
        assert(wanted.take(mentions.len() as int) =~= wanted);
        i += 1;
    }
    assert(all.take(lines.len() as int) =~= all);
}


impl HaproxyLsp {
    /// The backend that a `use_backend` line names.
    pub fn extract_backend_from_use_backend(&self, line: &str) -> (r: Option<String>)
        ensures
            match r {
                Some(name) => keyword_target(line@, "use_backend"@) == Some(name@),
                None => keyword_target(line@, "use_backend"@).is_none(),
            },
    {
        let chars = to_chars(line);
        let keyword = to_chars("use_backend");
        match target_of_keyword(chars.as_slice(), keyword.as_slice()) {
            Some(name) => Some(to_string(name)),
            None => None,
        }
    }

    /// The backend that a `default_backend` line names.
    pub fn extract_backend_from_default_backend(&self, line: &str) -> (r: Option<String>)
        ensures
            match r {
                Some(name) => keyword_target(line@, "default_backend"@) == Some(name@),
                None => keyword_target(line@, "default_backend"@).is_none(),
            },
    {
        let chars = to_chars(line);
        let keyword = to_chars("default_backend");
        match target_of_keyword(chars.as_slice(), keyword.as_slice()) {
            Some(name) => Some(to_string(name)),
            None => None,
        }
    }

    /// The ACL names in the condition of `line` that `condition_type`
    /// (`if` or `unless`) introduces; nothing where there is none.
    pub fn extract_acl_names_from_condition(&self, line: &str, condition_type: &str) -> (r: Option<
        Vec<String>,
    >)
        ensures
            match r {
                Some(names) => names@.len() > 0 && string_views(names@) == acl_names(
                    line@,
                    condition_type@,
                ),
                None => acl_names(line@, condition_type@).len() == 0,
            },
    {
        let chars = to_chars(line);
        let keyword = to_chars(condition_type);
        let found = names_in_condition(chars.as_slice(), keyword.as_slice());
        if found.len() == 0 {
            return None;
        }
        let mut names: Vec<String> = Vec::new();
        let mut i: usize = 0;
        assert(string_views(names@) =~= views(found@).take(0));
        while i < found.len()
            invariant
                i <= found.len(),
                string_views(names@) == views(found@).take(i as int),
            decreases found.len() - i,
        {
            let ghost before = string_views(names@);
            let name = to_string(found[i]);
            names.push(name);
            assert(string_views(names@) =~= before.push(name@));
            assert(views(found@).take(i + 1) =~= views(found@).take(i as int).push(
                found@[i as int]@,
            ));
            i += 1;
        }
        assert(views(found@).take(found.len() as int) =~= views(found@));
        Some(names)
    }

    /// Gives `reference` to the first symbol of `symbols` that has the
    /// given name and kind; drops it where there is none.
    pub fn add_reference_to_symbol(
        &self,
        symbols: &mut Vec<Symbol>,
        symbol_name: &str,
        symbol_kind: SymbolKind,
        reference: Reference,
    )
        ensures
            symbol_views(final(symbols)@) == attach(
                symbol_views(old(symbols)@),
                symbol_name@,
                symbol_kind,
                reference@,
            ),
    {
        let name = symbol_name.to_owned();
        add_reference(symbols, &name, symbol_kind, reference);
    }
}

} // verus!
