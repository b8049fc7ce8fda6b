//! The kernel command line: whitespace-separated words and `key=value` words.
use vstd::prelude::*;
use vstd::string::StrSliceExecFns;

verus! {

/// Unicode white space, as `char::is_whitespace` and `str::split_whitespace`
/// use it.
pub open spec fn is_space(c: char) -> bool {
    ||| ('\u{9}' <= c && c <= '\u{d}')
    ||| c == ' '
    ||| c == '\u{85}'
    ||| c == '\u{a0}'
    ||| c == '\u{1680}'
    ||| ('\u{2000}' <= c && c <= '\u{200a}')
    ||| c == '\u{2028}'
    ||| c == '\u{2029}'
    ||| c == '\u{202f}'
    ||| c == '\u{205f}'
    ||| c == '\u{3000}'
}

pub fn is_whitespace(c: char) -> (space: bool)
    ensures
        space == is_space(c),
{
    ('\u{9}' <= c && c <= '\u{d}') || c == ' ' || c == '\u{85}' || c == '\u{a0}' || c == '\u{1680}'
        || ('\u{2000}' <= c && c <= '\u{200a}') || c == '\u{2028}' || c == '\u{2029}' || c == '\u{202f}'
        || c == '\u{205f}' || c == '\u{3000}'
}

/// The first position at or after `i` that is not white space.
pub open spec fn skip_spaces(s: Seq<char>, i: int) -> int
    decreases s.len() - i,
{
    if 0 <= i < s.len() && is_space(s[i]) {
        skip_spaces(s, i + 1)
    } else {
        i
    }
}

/// The end of the word that starts at `i`.
pub open spec fn word_end(s: Seq<char>, i: int) -> int
    decreases s.len() - i,
{
    if 0 <= i < s.len() && !is_space(s[i]) {
        word_end(s, i + 1)
    } else {
        i
    }
}

proof fn lemma_skip_bounds(s: Seq<char>, i: int)
    requires
        0 <= i <= s.len(),
    ensures
        i <= skip_spaces(s, i) <= s.len(),
        skip_spaces(s, i) < s.len() ==> !is_space(s[skip_spaces(s, i)]),
    decreases s.len() - i,
{
    if i < s.len() && is_space(s[i]) {
        lemma_skip_bounds(s, i + 1);
    }
}

proof fn lemma_word_bounds(s: Seq<char>, i: int)
    requires
        0 <= i <= s.len(),
    ensures
        i <= word_end(s, i) <= s.len(),
        i < s.len() && !is_space(s[i]) ==> i < word_end(s, i),
    decreases s.len() - i,
{
    if i < s.len() && !is_space(s[i]) {
        lemma_word_bounds(s, i + 1);
    }
}

/// The words of `s` from position `from` on, as (start, end) positions.
pub open spec fn words_from(s: Seq<char>, from: int) -> Seq<(int, int)>
    decreases s.len() - from,
{
    if from < 0 || from > s.len() {
        Seq::empty()
    } else {
        let start = skip_spaces(s, from);
        if start >= s.len() || start < from {
            Seq::empty()
        } else {
            let end = word_end(s, start);
            if end <= start || end > s.len() {
                Seq::empty()
            } else {
                seq![(start, end)] + words_from(s, end)
            }
        }
    }
}

/// The words of `s`, as `split_whitespace` gives them.
pub open spec fn words(s: Seq<char>) -> Seq<(int, int)> {
    words_from(s, 0)
}

/// The next word of `text` at or after `from`, as (start, end) positions of
/// characters; `None` when only white space is left.
pub fn next_word(text: &str, length: usize, from: usize) -> (word: Option<(usize, usize)>)
    requires
        length == text@.len(),
        from <= length,
    ensures
        word is None ==> words_from(text@, from as int) == Seq::<(int, int)>::empty(),
        word matches Some((start, end)) ==> words_from(text@, from as int)
            == seq![(start as int, end as int)] + words_from(text@, end as int)
            && from <= start < end <= length,
{
    let ghost s = text@;
    let mut start = from;
    while start < length && is_whitespace(text.get_char(start))
        invariant
            from <= start <= length,
            length == s.len(),
            s == text@,
            skip_spaces(s, from as int) == skip_spaces(s, start as int),
        decreases length - start,
    {
        start = start + 1;
    }
    proof {
        lemma_skip_bounds(s, from as int);
    }
    if start >= length {
        return None;
    }
    let mut end = start;
    while end < length && !is_whitespace(text.get_char(end))
        invariant
            start <= end <= length,
            length == s.len(),
            s == text@,
            word_end(s, start as int) == word_end(s, end as int),
        decreases length - end,
    {
        end = end + 1;
    }
    proof {
        lemma_word_bounds(s, start as int);
        lemma_word_bounds(s, end as int);
    }
    Some((start, end))
}

/// Whether characters `start .. end` of `text` begin with `prefix`.
pub open spec fn has_prefix_at(s: Seq<char>, start: int, end: int, prefix: Seq<char>) -> bool {
    &&& end - start >= prefix.len()
    &&& s.subrange(start, start + prefix.len()) == prefix
}

pub fn starts_with_at(text: &str, start: usize, end: usize, prefix: &str) -> (found: bool)
    requires
        start <= end <= text@.len(),
    ensures
        found == has_prefix_at(text@, start as int, end as int, prefix@),
{
    let prefix_length = prefix.unicode_len();
    if end - start < prefix_length {
        return false;
    }
    let mut k: usize = 0;
    while k < prefix_length
        invariant
            k <= prefix_length,
            prefix_length == prefix@.len(),
            start + prefix_length <= end <= text@.len(),
            forall|t: int| 0 <= t < k ==> text@[start + t] == prefix@[t],
        decreases prefix_length - k,
    {
        if text.get_char(start + k) != prefix.get_char(k) {
            proof {
                assert(text@.subrange(start as int, start + prefix_length)[k as int] != prefix@[k as int]);
            }
            return false;
        }
        k = k + 1;
    }
    proof {
        assert(text@.subrange(start as int, start + prefix_length) =~= prefix@);
    }
    true
}

/// Whether characters `start .. end` of `text` are exactly `literal`.
pub fn equals_at(text: &str, start: usize, end: usize, literal: &str) -> (equal: bool)
    requires
        start <= end <= text@.len(),
    ensures
        equal == (text@.subrange(start as int, end as int) == literal@),
{
    let literal_length = literal.unicode_len();
    if end - start != literal_length {
        proof {
            assert(text@.subrange(start as int, end as int).len() != literal@.len());
        }
        return false;
    }
    let found = starts_with_at(text, start, end, literal);
    proof {
        if found {
            assert(text@.subrange(start as int, end as int) =~= text@.subrange(start as int, start + literal@.len()));
        } else {
            assert(text@.subrange(start as int, end as int) =~= text@.subrange(start as int, start + literal@.len()));
        }
    }
    found
}

pub open spec fn ascii_lower(c: char) -> char {
    if 'A' <= c && c <= 'Z' { ((c as u32) + 32) as char } else { c }
}

/// Whether characters `start .. end` of `text` equal `literal`, ASCII
/// letters compared without case.
pub open spec fn equals_ignore_ascii_case(s: Seq<char>, literal: Seq<char>) -> bool {
    &&& s.len() == literal.len()
    &&& forall|t: int| 0 <= t < s.len() ==> ascii_lower(#[trigger] s[t]) == ascii_lower(literal[t])
}

fn to_ascii_lower(c: char) -> (lower: char)
    ensures
        lower == ascii_lower(c),
{
    if 'A' <= c && c <= 'Z' {
        ((c as u32 + 32) as u8) as char
    } else {
        c
    }
}

pub fn equals_ignore_case_at(text: &str, start: usize, end: usize, literal: &str) -> (equal: bool)
    requires
        start <= end <= text@.len(),
    ensures
        equal == equals_ignore_ascii_case(text@.subrange(start as int, end as int), literal@),
{
    let literal_length = literal.unicode_len();
    if end - start != literal_length {
        return false;
    }
    let ghost part = text@.subrange(start as int, end as int);
    let mut k: usize = 0;
    while k < literal_length
        invariant
            k <= literal_length,
            literal_length == literal@.len(),
            end - start == literal_length,
            end <= text@.len(),
            part == text@.subrange(start as int, end as int),
            forall|t: int| 0 <= t < k ==> ascii_lower(#[trigger] part[t]) == ascii_lower(literal@[t]),
        decreases literal_length - k,
    {
        if to_ascii_lower(text.get_char(start + k)) != to_ascii_lower(literal.get_char(k)) {
            proof {
                assert(part[k as int] == text@[start + k]);
            }
            return false;
        }
        proof {
            assert(part[k as int] == text@[start + k]);
        }
        k = k + 1;
    }
    true
}

/// A word that runs to the end of `s` ends there.
proof fn lemma_word_runs_to_end(s: Seq<char>, i: int)
    requires
        0 <= i <= s.len(),
        forall|k: int| 0 <= k < s.len() ==> !is_space(#[trigger] s[k]),
    ensures
        word_end(s, i) == s.len(),
    decreases s.len() - i,
{
    if i < s.len() {
        lemma_word_runs_to_end(s, i + 1);
    }
}

/// A non-empty line without white space is a single word.
pub proof fn lemma_single_word(s: Seq<char>)
    requires
        s.len() > 0,
        forall|k: int| 0 <= k < s.len() ==> !is_space(#[trigger] s[k]),
    ensures
        words(s) == seq![(0int, s.len() as int)],
{
    lemma_word_runs_to_end(s, 0);
    assert(!is_space(s[0]));
    assert(skip_spaces(s, 0) == 0);
    assert(skip_spaces(s, s.len() as int) == s.len());
    assert(words_from(s, s.len() as int) == Seq::<(int, int)>::empty());
    assert(words_from(s, 0) =~= seq![(0int, s.len() as int)]);
}

} // verus!
