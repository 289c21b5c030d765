//! Line-oriented text primitives over sequences of characters.
//!
//! Every function here has a mathematical counterpart on `Seq<char>`; the
//! executable versions work on character slices and return sub-slices.

use vstd::prelude::*;
use vstd::slice::slice_subrange;

verus! {

/// Whether `c` is whitespace: a character with the Unicode property
/// `White_Space`. These are U+0009 to U+000D, U+0020, U+0085, U+00A0,
/// U+1680, U+2000 to U+200A, U+2028, U+2029, U+202F, U+205F and U+3000.
pub open spec fn unicode_whitespace(c: char) -> bool {
    let code = c as u32;
    ||| 0x09 <= code <= 0x0D
    ||| code == 0x20
    ||| code == 0x85
    ||| code == 0xA0
    ||| code == 0x1680
    ||| 0x2000 <= code <= 0x200A
    ||| code == 0x2028
    ||| code == 0x2029
    ||| code == 0x202F
    ||| code == 0x205F
    ||| code == 0x3000
}

/// Whether `c` is whitespace.
pub fn char_is_whitespace(c: char) -> (r: bool)
    ensures
        r == unicode_whitespace(c),
{
    let code: u32 = c as u32;
    (0x09 <= code && code <= 0x0D) || code == 0x20 || code == 0x85 || code == 0xA0 || code
        == 0x1680 || (0x2000 <= code && code <= 0x200A) || code == 0x2028 || code == 0x2029
        || code == 0x202F || code == 0x205F || code == 0x3000
}

/// What `char::is_alphanumeric` of the standard library answers for `c`:
/// whether `c` is a Unicode letter or number.
pub uninterp spec fn unicode_alphanumeric(c: char) -> bool;

/// `char::is_alphanumeric` of the standard library decides membership in
/// fixed Unicode tables; its answer depends on the character alone and is
/// what `unicode_alphanumeric` stands for.
pub assume_specification[ char::is_alphanumeric ](c: char) -> (r: bool)
    ensures
        r == unicode_alphanumeric(c),
;

/// Whether `c` is a letter or a digit. Of the ASCII characters these are
/// `a` to `z`, `A` to `Z` and `0` to `9`; of all others, those that the
/// standard library takes for alphanumeric.
pub open spec fn is_alphanumeric_char(c: char) -> bool {
    if (c as u32) < 0x80 {
        'a' <= c <= 'z' || 'A' <= c <= 'Z' || '0' <= c <= '9'
    } else {
        unicode_alphanumeric(c)
    }
}

/// `String::push` of the standard library appends one character to the end
/// of the string.
pub assume_specification[ String::push ](s: &mut String, c: char)
    ensures
        final(s)@ == old(s)@.push(c),
;

/// A character that may occur in a symbol name.
pub open spec fn is_name_char(c: char) -> bool {
    is_alphanumeric_char(c) || c == '_' || c == '-'
}

/// Whether `c` may occur in a symbol name.
pub fn char_is_name_char(c: char) -> (r: bool)
    ensures
        r == is_name_char(c),
{
    if (c as u32) < 0x80 {
        ('a' <= c && c <= 'z') || ('A' <= c && c <= 'Z') || ('0' <= c && c <= '9') || c == '_'
            || c == '-'
    } else {
        c.is_alphanumeric()
    }
}

/// Whether every character of `s` may occur in a symbol name.
pub open spec fn all_name_chars(s: Seq<char>) -> bool {
    forall|i: int| 0 <= i < s.len() ==> is_name_char(#[trigger] s[i])
}

/// Whether every character of `s` may occur in a symbol name.
pub fn is_name(s: &[char]) -> (r: bool)
    ensures
        r == all_name_chars(s@),
{
    let mut i: usize = 0;
    while i < s.len()
        invariant
            i <= s.len(),
            forall|j: int| 0 <= j < i ==> is_name_char(#[trigger] s@[j]),
        decreases s.len() - i,
    {
        if !char_is_name_char(s[i]) {
            return false;
        }
        i += 1;
    }
    true
}

/// The characters of `s`, in order.
pub fn to_chars(s: &str) -> (chars: Vec<char>)
    ensures
        chars@ == s@,
{
    broadcast use vstd::string::group_string_axioms;

    let mut chars: Vec<char> = Vec::new();
    for c in it: s.chars()
        invariant
            it.seq() == s@,
            chars@ == s@.take(it.index()),
    {
        chars.push(c);
    }
    chars
}

/// A string made of the characters of `chars`, in order.
pub fn to_string(chars: &[char]) -> (s: String)
    ensures
        s@ == chars@,
{
    let mut s = String::new();
    let mut i: usize = 0;
    while i < chars.len()
        invariant
            i <= chars.len(),
            s@ == chars@.take(i as int),
        decreases chars.len() - i,
    {
        s.push(chars[i]);
        i += 1;
    }
    s
}

/// The character sequences that the slices of `parts` hold.
pub open spec fn views(parts: Seq<&[char]>) -> Seq<Seq<char>> {
    parts.map_values(|part: &[char]| part@)
}

/// The character sequences that the strings of `parts` hold.
pub open spec fn string_views(parts: Seq<String>) -> Seq<Seq<char>> {
    parts.map_values(|part: String| part@)
}

/// `s` without its leading whitespace.
pub open spec fn trimmed_start(s: Seq<char>) -> Seq<char>
    decreases s.len(),
{
    if s.len() > 0 && unicode_whitespace(s[0]) {
        trimmed_start(s.drop_first())
    } else {
        s
    }
}

/// `s` without its trailing whitespace.
pub open spec fn trimmed_end(s: Seq<char>) -> Seq<char>
    decreases s.len(),
{
    if s.len() > 0 && unicode_whitespace(s.last()) {
        trimmed_end(s.drop_last())
    } else {
        s
    }
}

/// `s` without leading and trailing whitespace.
pub open spec fn trimmed(s: Seq<char>) -> Seq<char> {
    trimmed_end(trimmed_start(s))
}

/// Trimming the start of a sequence only removes characters.
pub proof fn lemma_trimmed_start_len(s: Seq<char>)
    ensures
        trimmed_start(s).len() <= s.len(),
    decreases s.len(),
{
    if s.len() > 0 && unicode_whitespace(s[0]) {
        lemma_trimmed_start_len(s.drop_first());
    }
}

/// Trimming the start twice is trimming it once.
pub proof fn lemma_trimmed_start_twice(s: Seq<char>)
    ensures
        trimmed_start(trimmed_start(s)) == trimmed_start(s),
    decreases s.len(),
{
    if s.len() > 0 && unicode_whitespace(s[0]) {
        lemma_trimmed_start_twice(s.drop_first());
    }
}

/// Trimming the start of a sequence leaves a suffix of it.
pub proof fn lemma_trimmed_start_is_suffix(s: Seq<char>)
    ensures
        trimmed_start(s).len() <= s.len(),
        trimmed_start(s) == s.skip(s.len() - trimmed_start(s).len()),
    decreases s.len(),
{
    if s.len() > 0 && unicode_whitespace(s[0]) {
        let rest = s.drop_first();
        lemma_trimmed_start_is_suffix(rest);
        assert(rest.skip(rest.len() - trimmed_start(rest).len()) =~= s.skip(
            s.len() - trimmed_start(s).len(),
        ));
    } else {
        assert(s.skip(0) =~= s);
    }
}

/// Trimming the end of a sequence leaves a prefix of it.
pub proof fn lemma_trimmed_end_is_prefix(s: Seq<char>)
    ensures
        trimmed_end(s).len() <= s.len(),
        trimmed_end(s) == s.take(trimmed_end(s).len() as int),
    decreases s.len(),
{
    if s.len() > 0 && unicode_whitespace(s.last()) {
        let rest = s.drop_last();
        lemma_trimmed_end_is_prefix(rest);
        assert(rest.take(trimmed_end(rest).len() as int) =~= s.take(trimmed_end(s).len() as int));
    } else {
        assert(s.take(s.len() as int) =~= s);
    }
}

/// What trimming the start removes is whitespace, and what it leaves does
/// not start with whitespace.
pub proof fn lemma_trimmed_start_is_tight(s: Seq<char>)
    ensures
        forall|i: int|
            0 <= i < s.len() - trimmed_start(s).len() ==> unicode_whitespace(#[trigger] s[i]),
        trimmed_start(s).len() > 0 ==> !unicode_whitespace(trimmed_start(s)[0]),
    decreases s.len(),
{
    lemma_trimmed_start_len(s);
    if s.len() > 0 && unicode_whitespace(s[0]) {
        let rest = s.drop_first();
        lemma_trimmed_start_is_tight(rest);
        lemma_trimmed_start_len(rest);
        assert forall|i: int| 0 <= i < s.len() - trimmed_start(s).len() implies unicode_whitespace(
            #[trigger] s[i],
        ) by {
            if i > 0 {
                assert(s[i] == rest[i - 1]);
            }
        }
    }
}

/// What trimming the end removes is whitespace, and what it leaves does not
/// end with whitespace.
pub proof fn lemma_trimmed_end_is_tight(s: Seq<char>)
    ensures
        forall|i: int| trimmed_end(s).len() <= i < s.len() ==> unicode_whitespace(#[trigger] s[i]),
        trimmed_end(s).len() > 0 ==> !unicode_whitespace(trimmed_end(s).last()),
    decreases s.len(),
{
    lemma_trimmed_end_is_prefix(s);
    if s.len() > 0 && unicode_whitespace(s.last()) {
        let rest = s.drop_last();
        lemma_trimmed_end_is_tight(rest);
        lemma_trimmed_end_is_prefix(rest);
        assert forall|i: int| trimmed_end(s).len() <= i < s.len() implies unicode_whitespace(
            #[trigger] s[i],
        ) by {
            if i < s.len() - 1 {
                assert(s[i] == rest[i]);
            }
        }
    }
}

/// A trimmed sequence is the part of the sequence between its leading and
/// its trailing whitespace: everything before it and after it is
/// whitespace, and it neither starts nor ends with whitespace.
pub proof fn lemma_trimmed_is_tight(s: Seq<char>)
    ensures
        ({
            let from = s.len() - trimmed_start(s).len();
            let to = from + trimmed(s).len();
            &&& 0 <= from <= to <= s.len()
            &&& trimmed(s) == s.subrange(from, to)
            &&& forall|i: int| 0 <= i < from ==> unicode_whitespace(#[trigger] s[i])
            &&& forall|i: int| to <= i < s.len() ==> unicode_whitespace(#[trigger] s[i])
            &&& trimmed(s).len() > 0 ==> !unicode_whitespace(trimmed(s)[0]) && !unicode_whitespace(
                trimmed(s).last(),
            )
        }),
{
    let t = trimmed_start(s);
    let from = s.len() - t.len();
    let to = from + trimmed(s).len();
    lemma_trimmed_start_is_suffix(s);
    lemma_trimmed_start_is_tight(s);
    lemma_trimmed_end_is_prefix(t);
    lemma_trimmed_end_is_tight(t);
    assert(trimmed(s) =~= s.subrange(from, to));
    assert forall|i: int| to <= i < s.len() implies unicode_whitespace(#[trigger] s[i]) by {
        assert(s[i] == t[i - from]);
    }
    if trimmed(s).len() > 0 {
        assert(trimmed(s)[0] == t[0]);
    }
}

/// Strips leading whitespace.
pub fn trim_start<'a>(s: &'a [char]) -> (r: &'a [char])
    ensures
        r@ == trimmed_start(s@),
{
    let mut a: usize = 0;
    assert(s@.skip(0) =~= s@);
    while a < s.len() && char_is_whitespace(s[a])
        invariant
            a <= s.len(),
            trimmed_start(s@) == trimmed_start(s@.skip(a as int)),
        decreases s.len() - a,
    {
        assert(s@.skip(a as int).drop_first() =~= s@.skip(a + 1));
        a += 1;
    }
    assert(s@.skip(a as int) =~= s@.subrange(a as int, s.len() as int));
    slice_subrange(s, a, s.len())
}

/// Strips trailing whitespace.
pub fn trim_end<'a>(s: &'a [char]) -> (r: &'a [char])
    ensures
        r@ == trimmed_end(s@),
{
    let mut b: usize = s.len();
    assert(s@.take(s.len() as int) =~= s@);
    while b > 0 && char_is_whitespace(s[b - 1])
        invariant
            b <= s.len(),
            trimmed_end(s@) == trimmed_end(s@.take(b as int)),
        decreases b,
    {
        assert(s@.take(b as int).drop_last() =~= s@.take(b - 1));
        b -= 1;
    }
    slice_subrange(s, 0, b)
}

/// Strips leading and trailing whitespace.
pub fn trim<'a>(s: &'a [char]) -> (r: &'a [char])
    ensures
        r@ == trimmed(s@),
{
    trim_end(trim_start(s))
}

/// Whether `prefix` stands at the start of `s`.
pub fn starts_with(s: &[char], prefix: &[char]) -> (r: bool)
    ensures
        r == prefix@.is_prefix_of(s@),
{
    if prefix.len() > s.len() {
        return false;
    }
    let mut i: usize = 0;
    while i < prefix.len()
        invariant
            i <= prefix.len() <= s.len(),
            forall|j: int| 0 <= j < i ==> s@[j] == prefix@[j],
        decreases prefix.len() - i,
    {
        if s[i] != prefix[i] {
            return false;
        }
        i += 1;
    }
    assert(s@.subrange(0, prefix@.len() as int) =~= prefix@);
    true
}

/// Whether `a` and `b` hold the same characters.
pub fn same_chars(a: &[char], b: &[char]) -> (r: bool)
    ensures
        r == (a@ == b@),
{
    if a.len() != b.len() {
        return false;
    }
    let r = starts_with(a, b);
    assert(r ==> a@ =~= b@);
    r
}

/// Whether `pattern` stands in `s` at index `i`.
pub open spec fn occurs_at(s: Seq<char>, pattern: Seq<char>, i: int) -> bool {
    0 <= i && i + pattern.len() <= s.len() && s.subrange(i, i + pattern.len()) == pattern
}

/// Whether `pattern` stands somewhere in `s`.
pub open spec fn occurs_in(s: Seq<char>, pattern: Seq<char>) -> bool {
    exists|i: int| occurs_at(s, pattern, i)
}

/// Whether `i` is the index of the leftmost occurrence of `pattern` in `s`.
pub open spec fn is_first_occurrence(s: Seq<char>, pattern: Seq<char>, i: int) -> bool {
    occurs_at(s, pattern, i) && forall|j: int| 0 <= j < i ==> !occurs_at(s, pattern, j)
}

/// The index of the leftmost occurrence of `pattern` in `s`, if there is one.
pub open spec fn first_occurrence(s: Seq<char>, pattern: Seq<char>) -> Option<int> {
    if occurs_in(s, pattern) {
        Some(choose|i: int| is_first_occurrence(s, pattern, i))
    } else {
        None
    }
}

/// A leftmost occurrence is the one `first_occurrence` names.
pub proof fn lemma_first_occurrence(s: Seq<char>, pattern: Seq<char>, i: int)
    requires
        is_first_occurrence(s, pattern, i),
    ensures
        first_occurrence(s, pattern) == Some(i),
{
    let k = choose|k: int| is_first_occurrence(s, pattern, k);
    assert(occurs_at(s, pattern, i));
    assert(is_first_occurrence(s, pattern, k));
    if k < i {
        assert(!occurs_at(s, pattern, k));
    }
    if i < k {
        assert(!occurs_at(s, pattern, i));
    }
}

/// What occurs in a subrange of a sequence occurs in the sequence.
pub proof fn lemma_occurs_in_subrange(s: Seq<char>, from: int, to: int, pattern: Seq<char>)
    requires
        0 <= from <= to <= s.len(),
        occurs_in(s.subrange(from, to), pattern),
    ensures
        occurs_in(s, pattern),
{
    let part = s.subrange(from, to);
    let i = choose|i: int| occurs_at(part, pattern, i);
    assert(s.subrange(from + i, from + i + pattern.len()) =~= part.subrange(i, i + pattern.len()));
    assert(occurs_at(s, pattern, from + i));
}

/// What occurs in a trimmed sequence occurs in the sequence.
pub proof fn lemma_occurs_in_trimmed(s: Seq<char>, pattern: Seq<char>)
    requires
        occurs_in(trimmed(s), pattern),
    ensures
        occurs_in(s, pattern),
{
    let t = trimmed_start(s);
    lemma_trimmed_start_is_suffix(s);
    lemma_trimmed_end_is_prefix(t);
    let from = s.len() - t.len();
    let to = from + trimmed(s).len();
    assert(trimmed(s) =~= s.subrange(from, to));
    lemma_occurs_in_subrange(s, from, to, pattern);
}

/// Whether `pattern` stands in `s` at index `i`.
fn matches_at(s: &[char], pattern: &[char], i: usize) -> (r: bool)
    requires
        i + pattern.len() <= s.len(),
    ensures
        r == occurs_at(s@, pattern@, i as int),
{
    let mut k: usize = 0;
    while k < pattern.len()
        invariant
            k <= pattern.len(),
            i + pattern.len() <= s.len(),
            forall|j: int| 0 <= j < k ==> s@[i + j] == pattern@[j],
        decreases pattern.len() - k,
    {
        if s[i + k] != pattern[k] {
            assert(s@.subrange(i as int, i + pattern.len())[k as int] != pattern@[k as int]);
            return false;
        }
        k += 1;
    }
    assert(s@.subrange(i as int, i + pattern.len()) =~= pattern@);
    true
}

/// The index of the leftmost occurrence of `pattern` in `s`.
pub fn find(s: &[char], pattern: &[char]) -> (r: Option<usize>)
    ensures
        match r {
            Some(i) => first_occurrence(s@, pattern@) == Some(i as int) && is_first_occurrence(
                s@,
                pattern@,
                i as int,
            ),
            None => first_occurrence(s@, pattern@).is_none(),
        },
{
    if pattern.len() > s.len() {
        return None;
    }
    let last: usize = s.len() - pattern.len();
    let mut i: usize = 0;
    loop
        invariant
            last == s.len() - pattern.len(),
            i <= last,
            forall|j: int| 0 <= j < i ==> !occurs_at(s@, pattern@, j),
        decreases last - i,
    {
        if matches_at(s, pattern, i) {
            proof {
                lemma_first_occurrence(s@, pattern@, i as int);
            }
            return Some(i);
        }
        if i == last {
            return None;
        }
        i += 1;
    }
}

/// Whether `pattern` stands somewhere in `s`.
pub fn contains(s: &[char], pattern: &[char]) -> (r: bool)
    ensures
        r == occurs_in(s@, pattern@),
{
    find(s, pattern).is_some()
}

/// Whether the character `c` stands somewhere in `s`.
pub fn contains_char(s: &[char], c: char) -> (r: bool)
    ensures
        r == s@.contains(c),
{
    let mut i: usize = 0;
    while i < s.len()
        invariant
            i <= s.len(),
            forall|j: int| 0 <= j < i ==> s@[j] != c,
        decreases s.len() - i,
    {
        if s[i] == c {
            return true;
        }
        i += 1;
    }
    false
}

/// The length of the run of non-whitespace characters at the start of `s`.
pub open spec fn token_len(s: Seq<char>) -> nat
    decreases s.len(),
{
    if s.len() > 0 && !unicode_whitespace(s[0]) {
        1 + token_len(s.drop_first())
    } else {
        0
    }
}

/// The first whitespace-separated token of `s`; empty when `s` holds none.
pub open spec fn first_token(s: Seq<char>) -> Seq<char> {
    let t = trimmed_start(s);
    t.take(token_len(t) as int)
}

/// What follows the first whitespace-separated token of `s`.
pub open spec fn after_first_token(s: Seq<char>) -> Seq<char> {
    let t = trimmed_start(s);
    t.skip(token_len(t) as int)
}

/// The whitespace-separated tokens of `s`, in order.
pub open spec fn tokens(s: Seq<char>) -> Seq<Seq<char>>
    decreases s.len(),
{
    if first_token(s).len() == 0 {
        Seq::empty()
    } else {
        proof {
            lemma_token_bounds(s);
        }
        seq![first_token(s)] + tokens(after_first_token(s))
    }
}

/// A token is never longer than the sequence it starts.
pub proof fn lemma_token_len(s: Seq<char>)
    ensures
        token_len(s) <= s.len(),
    decreases s.len(),
{
    if s.len() > 0 && !unicode_whitespace(s[0]) {
        lemma_token_len(s.drop_first());
    }
}

/// The first token and the rest split what is left of `s` after its leading
/// whitespace.
pub proof fn lemma_token_bounds(s: Seq<char>)
    ensures
        first_token(s).len() == token_len(trimmed_start(s)),
        first_token(s).len() + after_first_token(s).len() == trimmed_start(s).len(),
        trimmed_start(s).len() <= s.len(),
{
    lemma_trimmed_start_len(s);
    lemma_token_len(trimmed_start(s));
}

/// The first two tokens of `s` are the first two entries of `tokens(s)`.
pub proof fn lemma_second_token(s: Seq<char>)
    ensures
        tokens(s).len() >= 1 <==> first_token(s).len() > 0,
        tokens(s).len() >= 2 <==> first_token(after_first_token(s)).len() > 0,
        tokens(s).len() >= 1 ==> tokens(s)[0] == first_token(s),
        tokens(s).len() >= 2 ==> tokens(s)[1] == first_token(after_first_token(s)),
        first_token(s).len() == 0 ==> first_token(after_first_token(s)).len() == 0,
{
    lemma_token_bounds(s);
    let rest = after_first_token(s);
    lemma_token_bounds(rest);
    if first_token(s).len() == 0 {
        assert(tokens(s) =~= Seq::empty());
        assert(rest =~= trimmed_start(s));
        lemma_trimmed_start_twice(s);
    } else {
        assert(tokens(s) =~= seq![first_token(s)] + tokens(rest));
        if first_token(rest).len() == 0 {
            assert(tokens(rest) =~= Seq::empty());
        } else {
            assert(tokens(rest) =~= seq![first_token(rest)] + tokens(after_first_token(rest)));
        }
    }
}

/// The first token of a sequence occurs in it.
pub proof fn lemma_first_token_occurs(s: Seq<char>)
    ensures
        occurs_in(s, first_token(s)),
{
    let t = trimmed_start(s);
    lemma_trimmed_start_is_suffix(s);
    lemma_token_len(t);
    let from = s.len() - t.len();
    assert(first_token(s) =~= s.subrange(from, from + first_token(s).len()));
    assert(occurs_at(s, first_token(s), from));
}

/// The run of characters that `token_len` measures holds no whitespace, and
/// it ends at whitespace or at the end of the sequence.
pub proof fn lemma_token_is_maximal(s: Seq<char>)
    ensures
        token_len(s) <= s.len(),
        forall|i: int| 0 <= i < token_len(s) ==> !unicode_whitespace(#[trigger] s[i]),
        token_len(s) < s.len() ==> unicode_whitespace(s[token_len(s) as int]),
    decreases s.len(),
{
    if s.len() > 0 && !unicode_whitespace(s[0]) {
        let rest = s.drop_first();
        lemma_token_is_maximal(rest);
        assert forall|i: int| 0 <= i < token_len(s) implies !unicode_whitespace(
            #[trigger] s[i],
        ) by {
            if i > 0 {
                assert(s[i] == rest[i - 1]);
            }
        }
        if token_len(s) < s.len() {
            assert(s[token_len(s) as int] == rest[token_len(rest) as int]);
        }
    }
}

/// Every token is a non-empty run of characters that are no whitespace.
pub proof fn lemma_tokens_hold_no_whitespace(s: Seq<char>)
    ensures
        forall|k: int|
            0 <= k < tokens(s).len() ==> (#[trigger] tokens(s)[k]).len() > 0 && forall|i: int|
                0 <= i < tokens(s)[k].len() ==> !unicode_whitespace(#[trigger] tokens(s)[k][i]),
    decreases s.len(),
{
    if first_token(s).len() > 0 {
        lemma_token_bounds(s);
        let rest = after_first_token(s);
        lemma_tokens_hold_no_whitespace(rest);
        lemma_token_is_maximal(trimmed_start(s));
        assert forall|k: int| 0 <= k < tokens(s).len() implies (#[trigger] tokens(s)[k]).len() > 0
            && forall|i: int|
            0 <= i < tokens(s)[k].len() ==> !unicode_whitespace(#[trigger] tokens(s)[k][i]) by {
            if k > 0 {
                assert(tokens(s)[k] == tokens(rest)[k - 1]);
            } else {
                assert(tokens(s)[0] == first_token(s));
                assert forall|i: int| 0 <= i < first_token(s).len() implies !unicode_whitespace(
                    #[trigger] first_token(s)[i],
                ) by {
                    assert(first_token(s)[i] == trimmed_start(s)[i]);
                }
            }
        }
    }
}

/// Splits `s` into its first whitespace-separated token and what follows it.
pub fn split_first_token<'a>(s: &'a [char]) -> (r: (&'a [char], &'a [char]))
    ensures
        r.0@ == first_token(s@),
        r.1@ == after_first_token(s@),
{
    let t = trim_start(s);
    let mut n: usize = 0;
    assert(t@.skip(0) =~= t@);
    while n < t.len() && !char_is_whitespace(t[n])
        invariant
            n <= t.len(),
            token_len(t@) == n + token_len(t@.skip(n as int)),
        decreases t.len() - n,
    {
        assert(t@.skip(n as int).drop_first() =~= t@.skip(n + 1));
        n += 1;
    }
    (slice_subrange(t, 0, n), slice_subrange(t, n, t.len()))
}

/// The length of the first line of `s`, its terminator not counted.
pub open spec fn line_len(s: Seq<char>) -> nat
    decreases s.len(),
{
    if s.len() > 0 && s[0] != '\n' {
        1 + line_len(s.drop_first())
    } else {
        0
    }
}

/// `line` without one trailing carriage return.
pub open spec fn without_carriage_return(line: Seq<char>) -> Seq<char> {
    if line.len() > 0 && line.last() == '\r' {
        line.drop_last()
    } else {
        line
    }
}

/// The lines of `s`. A line ends at a line feed, or at a carriage return
/// directly followed by a line feed; the terminator is not part of the line.
/// The last line needs no terminator, and a carriage return that ends the
/// text without a line feed stays in its line.
pub open spec fn lines_of(s: Seq<char>) -> Seq<Seq<char>>
    decreases s.len(),
{
    if s.len() == 0 {
        Seq::empty()
    } else {
        proof {
            lemma_line_len(s);
        }
        let n = line_len(s) as int;
        if n < s.len() {
            seq![without_carriage_return(s.take(n))] + lines_of(s.skip(n + 1))
        } else {
            seq![s]
        }
    }
}

/// A line is never longer than the text it starts.
pub proof fn lemma_line_len(s: Seq<char>)
    ensures
        line_len(s) <= s.len(),
    decreases s.len(),
{
    if s.len() > 0 && s[0] != '\n' {
        lemma_line_len(s.drop_first());
    }
}

/// The first line holds no line feed and ends at one or at the end of the
/// text.
proof fn lemma_line_holds_no_line_feed(s: Seq<char>)
    ensures
        forall|i: int| 0 <= i < line_len(s) ==> #[trigger] s[i] != '\n',
        line_len(s) < s.len() ==> s[line_len(s) as int] == '\n',
    decreases s.len(),
{
    if s.len() > 0 && s[0] != '\n' {
        let rest = s.drop_first();
        lemma_line_holds_no_line_feed(rest);
        lemma_line_len(rest);
        assert forall|i: int| 0 <= i < line_len(s) implies #[trigger] s[i] != '\n' by {
            if i > 0 {
                assert(s[i] == rest[i - 1]);
            }
        }
        if line_len(s) < s.len() {
            assert(s[line_len(s) as int] == rest[line_len(rest) as int]);
        }
    }
}

/// No line holds a line feed.
pub proof fn lemma_lines_hold_no_line_feed(s: Seq<char>)
    ensures
        forall|k: int|
            0 <= k < lines_of(s).len() ==> !(#[trigger] lines_of(s)[k]).contains('\n'),
    decreases s.len(),
{
    if s.len() > 0 {
        lemma_line_len(s);
        lemma_line_holds_no_line_feed(s);
        let n = line_len(s) as int;
        let first = s.take(n);
        if n < s.len() {
            lemma_lines_hold_no_line_feed(s.skip(n + 1));
            let rest = lines_of(s.skip(n + 1));
            assert forall|k: int| 0 <= k < lines_of(s).len() implies !(#[trigger] lines_of(
                s,
            )[k]).contains('\n') by {
                if k > 0 {
                    assert(lines_of(s)[k] == rest[k - 1]);
                } else {
                    let line = without_carriage_return(first);
                    assert(lines_of(s)[0] == line);
                    if line.contains('\n') {
                        let i = choose|i: int| 0 <= i < line.len() && line[i] == '\n';
                        assert(line[i] == s[i]);
                    }
                }
            }
        } else {
            assert(lines_of(s) =~= seq![s]);
            assert(!s.contains('\n'));
        }
    }
}

/// Splits `s` into its lines.
pub fn split_lines<'a>(s: &'a [char]) -> (lines: Vec<&'a [char]>)
    ensures
        views(lines@) == lines_of(s@),
{
    let mut lines: Vec<&'a [char]> = Vec::new();
    let mut start: usize = 0;
    assert(s@.skip(0) =~= s@);
    assert(views(lines@) =~= Seq::empty());
    while start < s.len()
        invariant
            start <= s.len(),
            lines_of(s@) == views(lines@) + lines_of(s@.skip(start as int)),
        decreases s.len() - start,
    {
        let ghost rest = s@.skip(start as int);
        let mut end: usize = start;
        assert(rest.skip(0) =~= rest);
        while end < s.len() && s[end] != '\n'
            invariant
                start <= end <= s.len(),
                rest == s@.skip(start as int),
                line_len(rest) == (end - start) + line_len(rest.skip(end - start)),
            decreases s.len() - end,
        {
            assert(rest.skip(end - start).drop_first() =~= rest.skip(end + 1 - start));
            end += 1;
        }
        let ghost before = views(lines@);
        if end < s.len() {
            let mut stop: usize = end;
            if stop > start && s[stop - 1] == '\r' {
                stop -= 1;
            }
            let line = slice_subrange(s, start, stop);
            assert(line@ =~= without_carriage_return(rest.take(end - start))) by {
                assert(rest.take(end - start) =~= s@.subrange(start as int, end as int));
            }
            lines.push(line);
            assert(rest.skip(end - start + 1) =~= s@.skip(end + 1));
            assert(views(lines@) =~= before + seq![line@]);
            start = end + 1;
        } else {
            let line = slice_subrange(s, start, end);
            assert(line@ =~= rest);
            lines.push(line);
            assert(views(lines@) =~= before + seq![line@]);
            assert(s@.skip(end as int).len() == 0);
            start = end;
        }
    }
    assert(s@.skip(start as int).len() == 0);
    lines
}

/// The number of bytes that `c` takes in UTF-8.
pub open spec fn utf8_width(c: char) -> nat {
    if (c as u32) < 0x80 {
        1
    } else if (c as u32) < 0x800 {
        2
    } else if (c as u32) < 0x1_0000 {
        3
    } else {
        4
    }
}

/// The number of bytes that `s` takes in UTF-8.
pub open spec fn utf8_len(s: Seq<char>) -> nat
    decreases s.len(),
{
    if s.len() == 0 {
        0
    } else {
        utf8_len(s.drop_last()) + utf8_width(s.last())
    }
}

/// The number of bytes that `s` takes in UTF-8.
pub fn byte_len(s: &[char]) -> (n: u128)
    ensures
        n == utf8_len(s@),
{
    let mut n: u128 = 0;
    let mut i: usize = 0;
    assert(s@.take(0) =~= Seq::empty());
    while i < s.len()
        invariant
            i <= s.len(),
            n == utf8_len(s@.take(i as int)),
            n <= 4 * i,
        decreases s.len() - i,
    {
        let c = s[i];
        let code: u32 = c as u32;
        let width: u128 = if code < 0x80 {
            1
        } else if code < 0x800 {
            2
        } else if code < 0x1_0000 {
            3
        } else {
            4
        };
        assert(s@.take(i + 1).drop_last() =~= s@.take(i as int));
        n += width;
        i += 1;
    }
    assert(s@.take(s.len() as int) =~= s@);
    n
}

} // verus!
