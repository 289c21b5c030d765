//! Answers to questions about a position in a document.

use vstd::prelude::*;
use vstd::slice::slice_subrange;
use crate::index::{DocumentView, HaproxyLsp, lookup, references_to, valid_index};
use crate::linker::{keyword_target, target_of_keyword};
use crate::model::{
    Position, Reference, ReferenceView, Symbol, SymbolKind, SymbolView, reference_views,
};
use crate::scanner::{classify_declaration, declaration_of};
use crate::text::{
    all_name_chars, byte_len, char_is_name_char, char_is_whitespace, contains, is_name_char,
    lines_of, occurs_at, occurs_in, split_lines, to_chars, to_string, trim, trimmed,
    unicode_whitespace, utf8_len, views,
};

verus! {

/// The first index from `from` on at which `s` holds no whitespace.
pub open spec fn after_whitespace(s: Seq<char>, from: int) -> int
    decreases s.len() - from,
{
    if 0 <= from < s.len() && unicode_whitespace(s[from]) {
        after_whitespace(s, from + 1)
    } else {
        from
    }
}

/// The start of the run of name characters that ends before index `at`.
pub open spec fn word_start(s: Seq<char>, at: int) -> int
    decreases at,
{
    if 0 < at <= s.len() && is_name_char(s[at - 1]) {
        word_start(s, at - 1)
    } else {
        at
    }
}

/// The end of the run of name characters that starts at index `at`.
pub open spec fn word_end(s: Seq<char>, at: int) -> int
    decreases s.len() - at,
{
    if 0 <= at < s.len() && is_name_char(s[at]) {
        word_end(s, at + 1)
    } else {
        at
    }
}

/// The word at column `character` of `line`. A column at or past the
/// length of the line in bytes has no word. From a column on whitespace the
/// search moves on to the next character that is none. The word is the
/// longest run of name characters around the place reached; there is none
/// where the run is empty or the line ended first. A word is never empty.
pub open spec fn word_at(line: Seq<char>, character: int) -> Option<Seq<char>> {
    if character >= utf8_len(line) {
        None
    } else {
        let at = after_whitespace(line, character);
        if at >= line.len() {
            None
        } else if word_start(line, at) < word_end(line, at) {
            Some(line.subrange(word_start(line, at), word_end(line, at)))
        } else {
            None
        }
    }
}

/// The name and kind of the symbol that a definition query at column
/// `character` of `line` asks for. A line that holds `use_backend` asks for
/// the backend named after that keyword, whatever the cursor is on;
/// otherwise one that holds `default_backend` asks for the backend named
/// after that one; otherwise one that holds ` if ` asks for the ACL named by
/// the word under the cursor, where there is a word. Every other line asks
/// for nothing.
pub open spec fn definition_target(line: Seq<char>, character: int) -> Option<
    (Seq<char>, SymbolKind),
> {
    if occurs_in(line, "use_backend"@) {
        match keyword_target(line, "use_backend"@) {
            Some(name) => Some((name, SymbolKind::Backend)),
            None => None,
        }
    } else if occurs_in(line, "default_backend"@) {
        match keyword_target(line, "default_backend"@) {
            Some(name) => Some((name, SymbolKind::Backend)),
            None => None,
        }
    } else if occurs_in(line, " if "@) {
        match word_at(line, character) {
            Some(word) => Some((word, SymbolKind::Acl)),
            None => None,
        }
    } else {
        None
    }
}

/// The answer to a definition query at `position` of the document with
/// text `content`: the symbol that the line at that position asks for,
/// looked up in `table`. A line number past the last line has no answer.
pub open spec fn definition(
    table: Seq<DocumentView>,
    content: Seq<char>,
    position: Position,
) -> Option<SymbolView> {
    let lines = lines_of(content);
    if position.line >= lines.len() {
        None
    } else {
        match definition_target(lines[position.line as int], position.character as int) {
            Some((name, kind)) => lookup(table, name, kind),
            None => None,
        }
    }
}

/// The answer to a declaration query at `position` of the document with
/// text `content`: the references of the symbol that the line at that
/// position declares, looked up in `table` by name and kind. There is none
/// where the line number is past the last line, where the line declares
/// nothing, where no symbol has that name and kind, and where the symbol
/// has no references.
pub open spec fn declaration_references(
    table: Seq<DocumentView>,
    content: Seq<char>,
    position: Position,
) -> Option<Seq<ReferenceView>> {
    let lines = lines_of(content);
    if position.line >= lines.len() {
        None
    } else {
        match declaration_of(trimmed(lines[position.line as int])) {
            Some((kind, name)) => references_to(table, name, kind),
            None => None,
        }
    }
}

/// The word around index `at` is the longest run of name characters that
/// touches `at`: it holds name characters only, and it cannot be made
/// longer at either end.
pub proof fn lemma_word_is_maximal(line: Seq<char>, at: int)
    requires
        0 <= at <= line.len(),
    ensures
        ({
            let start = word_start(line, at);
            let end = word_end(line, at);
            &&& 0 <= start <= at <= end <= line.len()
            &&& forall|i: int| start <= i < end ==> is_name_char(#[trigger] line[i])
            &&& start > 0 ==> !is_name_char(line[start - 1])
            &&& end < line.len() ==> !is_name_char(line[end])
        }),
{
    lemma_word_start(line, at);
    lemma_word_end(line, at);
}

/// The search for a word moves on over whitespace only, and stops at the
/// end of the line or at a character that is no whitespace.
pub proof fn lemma_after_whitespace(line: Seq<char>, from: int)
    requires
        0 <= from,
    ensures
        from <= after_whitespace(line, from),
        forall|i: int|
            from <= i < after_whitespace(line, from) ==> unicode_whitespace(#[trigger] line[i]),
        after_whitespace(line, from) < line.len() ==> !unicode_whitespace(
            line[after_whitespace(line, from)],
        ),
    decreases line.len() - from,
{
    if from < line.len() && unicode_whitespace(line[from]) {
        lemma_after_whitespace(line, from + 1);
    }
}

/// A word is a non-empty run of name characters of its line.
pub proof fn lemma_word_is_a_name(line: Seq<char>, character: int)
    requires
        0 <= character,
    ensures
        word_at(line, character) matches Some(word) ==> word.len() > 0 && all_name_chars(word)
            && occurs_in(line, word),
{
    match word_at(line, character) {
        Some(word) => {
            let at = after_whitespace(line, character);
            lemma_after_whitespace(line, character);
            lemma_word_is_maximal(line, at);
            let start = word_start(line, at);
            assert(occurs_at(line, word, start));
            assert forall|i: int| 0 <= i < word.len() implies is_name_char(#[trigger] word[i]) by {
                assert(word[i] == line[start + i]);
            }
        },
        None => {},
    }
}

/// The run before `at` holds name characters only and cannot start
/// earlier.
proof fn lemma_word_start(line: Seq<char>, at: int)
    requires
        0 <= at <= line.len(),
    ensures
        0 <= word_start(line, at) <= at,
        forall|i: int| word_start(line, at) <= i < at ==> is_name_char(#[trigger] line[i]),
        word_start(line, at) > 0 ==> !is_name_char(line[word_start(line, at) - 1]),
    decreases at,
{
    if 0 < at && is_name_char(line[at - 1]) {
        lemma_word_start(line, at - 1);
    }
}

/// The run from `at` on holds name characters only and cannot end later.
proof fn lemma_word_end(line: Seq<char>, at: int)
    requires
        0 <= at <= line.len(),
    ensures
        at <= word_end(line, at) <= line.len(),
        forall|i: int| at <= i < word_end(line, at) ==> is_name_char(#[trigger] line[i]),
        word_end(line, at) < line.len() ==> !is_name_char(line[word_end(line, at)]),
    decreases line.len() - at,
{
    if at < line.len() && is_name_char(line[at]) {
        lemma_word_end(line, at + 1);
    }
}

/// The word at column `character` of `line`.
pub fn word_at_position<'a>(line: &'a [char], character: usize) -> (r: Option<&'a [char]>)
    ensures
        match r {
            Some(word) => word_at(line@, character as int) == Some(word@),
            None => word_at(line@, character as int).is_none(),
        },
{
    if character as u128 >= byte_len(line) {
        return None;
    }
    let mut at: usize = character;
    while at < line.len() && char_is_whitespace(line[at])
        invariant
            character <= at,
            after_whitespace(line@, character as int) == after_whitespace(line@, at as int),
        decreases line.len() - at,
    {
        at += 1;
    }
    if at >= line.len() {
        return None;
    }
    let mut start: usize = at;
    while start > 0 && char_is_name_char(line[start - 1])
        invariant
            start <= at < line.len(),
            word_start(line@, at as int) == word_start(line@, start as int),
        decreases start,
    {
        start -= 1;
    }
    let mut end: usize = at;
    while end < line.len() && char_is_name_char(line[end])
        invariant
            at <= end <= line.len(),
            word_end(line@, at as int) == word_end(line@, end as int),
        decreases line.len() - end,
    {
        end += 1;
    }
    if start < end {
        Some(slice_subrange(line, start, end))
    } else {
        None
    }
}

/// The name and kind of the symbol that a definition query at column
/// `character` of `line` asks for.
pub fn target_of_definition<'a>(line: &'a [char], character: usize) -> (r: Option<
    (&'a [char], SymbolKind),
>)
    ensures
        match r {
            Some((name, kind)) => definition_target(line@, character as int) == Some(
                (name@, kind),
            ),
            None => definition_target(line@, character as int).is_none(),
        },
{
    let use_backend = to_chars("use_backend");
    let default_backend = to_chars("default_backend");
    let condition = to_chars(" if ");
    if contains(line, use_backend.as_slice()) {
        match target_of_keyword(line, use_backend.as_slice()) {
            Some(name) => Some((name, SymbolKind::Backend)),
            None => None,
        }
    } else if contains(line, default_backend.as_slice()) {
        match target_of_keyword(line, default_backend.as_slice()) {
            Some(name) => Some((name, SymbolKind::Backend)),
            None => None,
        }
    } else if contains(line, condition.as_slice()) {
        match word_at_position(line, character) {
            Some(word) => Some((word, SymbolKind::Acl)),
            None => None,
        }
    } else {
        None
    }
}

impl HaproxyLsp {
    /// The word at column `char_pos` of `line`.
    pub fn get_word_at_position(&self, line: &str, char_pos: usize) -> (r: Option<String>)
        ensures
            match r {
                Some(word) => word_at(line@, char_pos as int) == Some(word@),
                None => word_at(line@, char_pos as int).is_none(),
            },
    {
        let chars = to_chars(line);
        match word_at_position(chars.as_slice(), char_pos) {
            Some(word) => Some(to_string(word)),
            None => None,
        }
    }

    /// The symbol that the line at `position` of the document with text
    /// `content` refers to.
    pub fn find_definition(&self, _uri: &str, position: &Position, content: &str) -> (r: Option<
        Symbol,
    >)
        ensures
            valid_index(self@),
            match r {
                Some(symbol) => definition(self@, content@, *position) == Some(symbol@),
                None => definition(self@, content@, *position).is_none(),
            },
    {
        proof {
            use_type_invariant(self);
        }
        let chars = to_chars(content);
        let lines = split_lines(chars.as_slice());
        let number: usize = position.line as usize;
        if number >= lines.len() {
            return None;
        }
        assert(views(lines@)[number as int] == lines@[number as int]@);
        match target_of_definition(lines[number], position.character as usize) {
            Some((name, kind)) => {
                let name = to_string(name);
                self.find_symbol_by_name(name.as_str(), kind)
            },
            None => None,
        }
    }

    /// The references to the symbol that the line at `position` of the
    /// document with text `content` declares.
    pub fn find_declaration(&self, _uri: &str, position: &Position, content: &str) -> (r: Option<
        Vec<Reference>,
    >)
        ensures
            valid_index(self@),
            match r {
                Some(references) => declaration_references(self@, content@, *position) == Some(
                    reference_views(references@),
                ),
                None => declaration_references(self@, content@, *position).is_none(),
            },
    {
        proof {
            use_type_invariant(self);
        }
        let chars = to_chars(content);
        let lines = split_lines(chars.as_slice());
        let number: usize = position.line as usize;
        if number >= lines.len() {
            return None;
        }
        assert(views(lines@)[number as int] == lines@[number as int]@);
        match classify_declaration(trim(lines[number])) {
            Some((kind, name)) => {
                let name = to_string(name);
                self.find_references_to_symbol(name.as_str(), kind)
            },
            None => None,
        }
    }
}

} // verus!
