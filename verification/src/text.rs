//! Characters of a string, white space, and the words between it.

use vstd::prelude::*;

verus! {

/// Whether `c` is white space: a character with the Unicode property
/// `White_Space`.
pub open spec fn is_space(c: char) -> bool {
    let code = c as u32;
    ||| 0x0009 <= code <= 0x000D
    ||| code == 0x0020
    ||| code == 0x0085
    ||| code == 0x00A0
    ||| code == 0x1680
    ||| 0x2000 <= code <= 0x200A
    ||| code == 0x2028
    ||| code == 0x2029
    ||| code == 0x202F
    ||| code == 0x205F
    ||| code == 0x3000
}

/// Whether lower-casing `c` gives `letter`, one of the small Latin letters
/// `a` to `z`: `c` is that letter or its capital, or, for `k`, the Kelvin
/// sign (U+212A), the one character beyond ASCII that lower-cases to a
/// small Latin letter. Any other `letter` is given by itself alone.
pub open spec fn lowers_to(c: char, letter: char) -> bool {
    ||| c == letter
    ||| ('a' <= letter <= 'z' && (c as u32) + 32 == (letter as u32))
    ||| (letter == 'k' && (c as u32) == 0x212A)
}

/// Whether `text` from index `from` to its end reads `word`, with each
/// small Latin letter of `word` in either case.
pub open spec fn spells(text: Seq<char>, from: int, word: Seq<char>) -> bool {
    &&& text.len() - from == word.len()
    &&& forall|i: int| 0 <= i < word.len() ==> lowers_to(text[from + i], #[trigger] word[i])
}

/// How many characters from index `from` on stand before the next white
/// space, or before the end of `text`.
pub open spec fn run_length(text: Seq<char>, from: int) -> nat
    decreases text.len() - from,
{
    if 0 <= from < text.len() && !is_space(text[from]) {
        1 + run_length(text, from + 1)
    } else {
        0
    }
}

/// A stretch without white space ends inside the text.
pub proof fn lemma_run_length_bound(text: Seq<char>, from: int)
    requires
        0 <= from <= text.len(),
    ensures
        from + run_length(text, from) <= text.len(),
    decreases text.len() - from,
{
    if from < text.len() && !is_space(text[from]) {
        lemma_run_length_bound(text, from + 1);
    }
}

/// The words of `text` from index `from` on: the longest stretches without
/// white space, in the order in which they stand.
pub open spec fn words_from(text: Seq<char>, from: int) -> Seq<Seq<char>>
    decreases text.len() - from,
    via words_from_terminates
{
    if from < 0 || from >= text.len() {
        Seq::empty()
    } else if is_space(text[from]) {
        words_from(text, from + 1)
    } else {
        let end = from + 1 + run_length(text, from + 1);
        seq![text.subrange(from, end)] + words_from(text, end)
    }
}

#[via_fn]
proof fn words_from_terminates(text: Seq<char>, from: int) {
    if 0 <= from < text.len() {
        lemma_run_length_bound(text, from + 1);
    }
}

/// The words of `text`: what is left when it is split at white space of any
/// length.
pub open spec fn words(text: Seq<char>) -> Seq<Seq<char>> {
    words_from(text, 0)
}

/// The character sequences that a list of character vectors holds.
pub open spec fn views(list: Seq<Vec<char>>) -> Seq<Seq<char>> {
    Seq::new(list.len(), |i: int| list[i]@)
}

/// The characters of `text`, in order.
pub fn chars_of(text: &str) -> (chars: Vec<char>)
    ensures
        chars@ == text@,
{
    let mut chars: Vec<char> = Vec::new();
    for c in it: text.chars()
        invariant
            it.seq() == text@,
            chars@ == it.seq().take(it.index() as int),
    {
        chars.push(c);
    }
    chars
}

/// Whether `c` is white space.
pub fn is_whitespace(c: char) -> (yes: bool)
    ensures
        yes == is_space(c),
{
    let code = c as u32;
    (0x0009 <= code && code <= 0x000D) || code == 0x0020 || code == 0x0085 || code == 0x00A0
        || code == 0x1680 || (0x2000 <= code && code <= 0x200A) || code == 0x2028 || code
        == 0x2029 || code == 0x202F || code == 0x205F || code == 0x3000
}

/// Whether `text` from index `from` to its end reads `word`, whatever the
/// case of its letters.
pub fn reads_as(text: &Vec<char>, from: usize, word: &str) -> (yes: bool)
    ensures
        yes == spells(text@, from as int, word@),
{
    let length = word.unicode_len();
    if from > text.len() || text.len() - from != length {
        return false;
    }
    let mut i: usize = 0;
    while i < length
        invariant
            i <= length,
            length == word@.len(),
            text.len() - from == length,
            forall|k: int| 0 <= k < i ==> lowers_to(text@[from + k], #[trigger] word@[k]),
        decreases length - i,
    {
        let c = text[from + i];
        let letter = word.get_char(i);
        let code = c as u32;
        let small = letter as u32;
        let same = c == letter || ('a' <= letter && letter <= 'z' && code == small - 32) || (
        letter == 'k' && code == 0x212A);
        if !same {
            assert(!lowers_to(text@[from + i], word@[i as int]));
            return false;
        }
        i += 1;
    }
    true
}

/// Splits `text` at white space into its words.
pub fn split_words(text: &Vec<char>) -> (found: Vec<Vec<char>>)
    ensures
        views(found@) == words(text@),
{
    let n = text.len();
    let mut found: Vec<Vec<char>> = Vec::new();
    let mut i: usize = 0;
    assert(views(found@) + words_from(text@, 0) =~= words(text@));
    while i < n
        invariant
            i <= n,
            n == text.len(),
            views(found@) + words_from(text@, i as int) == words(text@),
        decreases n - i,
    {
        if is_whitespace(text[i]) {
            i += 1;
        } else {
            let mut word: Vec<char> = Vec::new();
            word.push(text[i]);
            let mut j: usize = i + 1;
            assert(word@ =~= text@.subrange(i as int, j as int));
            while j < n && !is_whitespace(text[j])
                invariant
                    i < j <= n,
                    n == text.len(),
                    word@ == text@.subrange(i as int, j as int),
                    run_length(text@, i + 1) == (j - i - 1) + run_length(text@, j as int),
                ensures
                    i < j <= n,
                    word@ == text@.subrange(i as int, j as int),
                    j == i + 1 + run_length(text@, i + 1),
                decreases n - j,
            {
                word.push(text[j]);
                j += 1;
                assert(word@ =~= text@.subrange(i as int, j as int));
            }
            let ghost before = found@;
            found.push(word);
            assert(views(found@) =~= views(before) + seq![text@.subrange(i as int, j as int)]);
            assert(views(found@) + words_from(text@, j as int) =~= views(before) + words_from(
                text@,
                i as int,
            ));
            i = j;
        }
    }
    assert(views(found@) + words_from(text@, n as int) =~= views(found@));
    found
}

} // verus!
