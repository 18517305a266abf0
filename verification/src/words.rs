//! Tokenizing a line into words for the word diff.
//!
//! A boundary falls between characters `a` and `b` when a letter run ends (or
//! switches from lower case to non-lower case), a digit run ends, a whitespace
//! run ends, or `a` is punctuation (every punctuation character is a word of
//! its own).  The words partition the line exactly.

use vstd::prelude::*;
use vstd::string::*;

use crate::charinfo::alphabetic;
use crate::charinfo::lowercase;
use crate::charinfo::whitespace;
use crate::seqtools::chars_of;
use crate::seqtools::concat_all;

verus! {

/// Whether a word boundary falls between character `a` and the following
/// character `b`.
pub open spec fn is_break_point(a: char, b: char) -> bool {
    if alphabetic(a) {
        !alphabetic(b) || (lowercase(a) && !lowercase(b))
    } else if '0' <= a && a <= '9' {
        !('0' <= b && b <= '9')
    } else if whitespace(a) {
        !whitespace(b)
    } else {
        true
    }
}

/// Compute [`is_break_point`].
pub fn break_point(a: char, b: char) -> (r: bool)
    ensures
        r == is_break_point(a, b),
{
    if a.is_alphabetic() {
        !b.is_alphabetic() || (a.is_lowercase() && !b.is_lowercase())
    } else if a.is_ascii_digit() {
        !b.is_ascii_digit()
    } else if a.is_whitespace() {
        !b.is_whitespace()
    } else {
        true
    }
}

/// The end of the word starting at the front of `s`, scanning from index `j`:
/// the first index with a break before it, or the end of `s`.
pub open spec fn word_end_from(s: Seq<char>, j: nat) -> nat
    decreases s.len() - j when 1 <= j <= s.len()
{
    if j >= s.len() {
        s.len()
    } else if is_break_point(s[j - 1], s[j as int]) {
        j
    } else {
        word_end_from(s, j + 1)
    }
}

/// A word end lies between `j` and the end of the text.
pub proof fn lemma_word_end_range(s: Seq<char>, j: nat)
    requires
        1 <= j <= s.len(),
    ensures
        j <= word_end_from(s, j) <= s.len(),
    decreases s.len() - j,
{
    if j < s.len() && !is_break_point(s[j - 1], s[j as int]) {
        lemma_word_end_range(s, j + 1);
    }
}

/// The words of `s`: maximal runs with no internal break point, in order.
pub open spec fn split_words_spec(s: Seq<char>) -> Seq<Seq<char>>
    decreases s.len() via split_words_spec_decreases
{
    if s.len() == 0 {
        Seq::empty()
    } else {
        let e = word_end_from(s, 1);
        seq![s.take(e as int)] + split_words_spec(s.skip(e as int))
    }
}

#[via_fn]
proof fn split_words_spec_decreases(s: Seq<char>) {
    if s.len() > 0 {
        lemma_word_end_range(s, 1);
    }
}

/// Law: the words of a line partition it — concatenating them reproduces the
/// line — and every word is non-empty.
pub proof fn lemma_split_words_partition(s: Seq<char>)
    ensures
        concat_all(split_words_spec(s)) == s,
        forall|i: int|
            0 <= i < split_words_spec(s).len() ==> #[trigger] split_words_spec(s)[i].len() > 0,
    decreases s.len(),
{
    if s.len() > 0 {
        let e = word_end_from(s, 1);
        lemma_word_end_range(s, 1);
        lemma_split_words_partition(s.skip(e as int));
        let words = split_words_spec(s);
        assert(words.first() == s.take(e as int));
        assert(words.drop_first() =~= split_words_spec(s.skip(e as int)));
        assert(concat_all(words) == s.take(e as int) + concat_all(split_words_spec(s.skip(e as int))));
        assert(s.take(e as int) + s.skip(e as int) =~= s);
        assert forall|i: int| 0 <= i < words.len() implies #[trigger] words[i].len() > 0 by {
            if i > 0 {
                assert(words[i] == split_words_spec(s.skip(e as int))[i - 1]);
            }
        }
    }
}

/// Split a line into its words.
pub fn split_words(line: &str) -> (words: Vec<String>)
    ensures
        words.deep_view() == split_words_spec(line@),
{
    let chars = chars_of(line);
    let n = chars.len();
    let mut words: Vec<String> = Vec::new();
    let mut start: usize = 0;
    proof {
        assert(chars@.skip(0) =~= chars@);
        assert(words.deep_view() =~= Seq::<Seq<char>>::empty());
        assert(Seq::<Seq<char>>::empty() + split_words_spec(line@) =~= split_words_spec(line@));
    }
    while start < n
        invariant
            start <= n,
            n == chars@.len(),
            chars@ == line@,
            words.deep_view() + split_words_spec(chars@.skip(start as int)) == split_words_spec(
                line@,
            ),
        decreases n - start,
    {
        let ghost suffix = chars@.skip(start as int);
        let mut j: usize = start + 1;
        while j < n && !break_point(chars[j - 1], chars[j])
            invariant
                start + 1 <= j <= n,
                n == chars@.len(),
                suffix == chars@.skip(start as int),
                start < n,
                word_end_from(suffix, (j - start) as nat) == word_end_from(suffix, 1),
            decreases n - j,
        {
            proof {
                assert(suffix[(j - start) as int] == chars@[j as int]);
                assert(suffix[(j - start) as int - 1] == chars@[j - 1]);
            }
            j = j + 1;
        }
        proof {
            if j < n {
                assert(suffix[(j - start) as int] == chars@[j as int]);
                assert(suffix[(j - start) as int - 1] == chars@[j - 1]);
            }
            assert(word_end_from(suffix, (j - start) as nat) == (j - start) as nat);
        }
        let word = substring_str(line, start, j);
        proof {
            assert(word@ =~= suffix.take((j - start) as int));
        }
        words.push(word);
        proof {
            let e = (j - start) as int;
            assert(split_words_spec(suffix) == seq![suffix.take(e)] + split_words_spec(
                suffix.skip(e),
            ));
            assert(chars@.skip(j as int) =~= suffix.skip(e));
            assert(words.deep_view() =~= words.deep_view().drop_last().push(suffix.take(e)));
            assert(words.deep_view().drop_last().push(suffix.take(e)) + split_words_spec(
                suffix.skip(e),
            ) =~= words.deep_view().drop_last() + split_words_spec(suffix));
        }
        start = j;
    }
    proof {
        assert(chars@.skip(n as int) =~= Seq::<char>::empty());
        assert(words.deep_view() + Seq::<Seq<char>>::empty() =~= words.deep_view());
    }
    words
}

/// A substring of `line` by character range.
fn substring_str(line: &str, from: usize, to: usize) -> (r: String)
    requires
        from <= to <= line@.len(),
    ensures
        r@ == line@.subrange(from as int, to as int),
{
    line.substring_char(from, to).to_owned()
}

} // verus!
