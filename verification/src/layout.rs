//! Where the words lie in a joined text.

use vstd::prelude::*;
use crate::render::join_spec;

verus! {

/// The position at which the word `i` of `words` begins in the text that
/// `join_spec` makes of `words` and `delimiter`.
pub open spec fn word_offset(words: Seq<Seq<char>>, delimiter: Seq<char>, i: int) -> int
    decreases i,
{
    if i <= 0 {
        0
    } else {
        word_offset(words, delimiter, i - 1) + words[i - 1].len() + delimiter.len()
    }
}

/// The words that follow the word `i` do not move it.
pub proof fn lemma_offset_of_prefix(words: Seq<Seq<char>>, delimiter: Seq<char>, m: int, i: int)
    requires
        0 <= i <= m <= words.len(),
    ensures
        word_offset(words.take(m), delimiter, i) == word_offset(words, delimiter, i),
    decreases i,
{
    if i > 0 {
        lemma_offset_of_prefix(words, delimiter, m, i - 1);
    }
}

/// A later word begins behind the end of an earlier one and the delimiter
/// that follows it.
pub proof fn lemma_offsets_ascend(words: Seq<Seq<char>>, delimiter: Seq<char>, i: int, j: int)
    requires
        0 <= i < j <= words.len(),
    ensures
        0 <= word_offset(words, delimiter, i),
        word_offset(words, delimiter, i) + words[i].len() + delimiter.len() <= word_offset(
            words,
            delimiter,
            j,
        ),
    decreases j,
{
    if i == 0 {
    } else {
        lemma_offsets_ascend(words, delimiter, i - 1, i);
    }
    if j > i + 1 {
        lemma_offsets_ascend(words, delimiter, i, j - 1);
    }
}

/// The joined text ends where its last word ends.
pub proof fn lemma_join_len(words: Seq<Seq<char>>, delimiter: Seq<char>)
    ensures
        words.len() == 0 ==> join_spec(words, delimiter).len() == 0,
        words.len() > 0 ==> join_spec(words, delimiter).len() == word_offset(
            words,
            delimiter,
            words.len() - 1,
        ) + words.last().len(),
    decreases words.len(),
{
    let n = words.len() as int;
    if n >= 2 {
        let front = words.drop_last();
        lemma_join_len(front, delimiter);
        assert(front =~= words.take(n - 1));
        lemma_offset_of_prefix(words, delimiter, n - 1, n - 2);
        assert(front.last() == words[n - 2]);
    }
}

/// Each word stands in the joined text at its offset.
pub proof fn lemma_join_holds_word(
    words: Seq<Seq<char>>,
    delimiter: Seq<char>,
    i: int,
    j: int,
)
    requires
        0 <= i < words.len(),
        0 <= j < words[i].len(),
    ensures
        0 <= word_offset(words, delimiter, i) + j < join_spec(words, delimiter).len(),
        join_spec(words, delimiter)[word_offset(words, delimiter, i) + j] == words[i][j],
    decreases words.len(),
{
    let n = words.len() as int;
    lemma_join_len(words, delimiter);
    if n >= 2 {
        let front = words.drop_last();
        assert(front =~= words.take(n - 1));
        lemma_join_len(front, delimiter);
        lemma_offset_of_prefix(words, delimiter, n - 1, n - 2);
        if i < n - 1 {
            lemma_join_holds_word(front, delimiter, i, j);
            lemma_offset_of_prefix(words, delimiter, n - 1, i);
        }
    }
}

/// The delimiter stands in the joined text before each word but the first.
pub proof fn lemma_join_holds_delimiter(
    words: Seq<Seq<char>>,
    delimiter: Seq<char>,
    i: int,
    j: int,
)
    requires
        0 < i < words.len(),
        0 <= j < delimiter.len(),
    ensures
        0 <= word_offset(words, delimiter, i) - delimiter.len() + j < join_spec(
            words,
            delimiter,
        ).len(),
        join_spec(words, delimiter)[word_offset(words, delimiter, i) - delimiter.len() + j]
            == delimiter[j],
    decreases words.len(),
{
    let n = words.len() as int;
    lemma_join_len(words, delimiter);
    let front = words.drop_last();
    assert(front =~= words.take(n - 1));
    lemma_join_len(front, delimiter);
    lemma_offset_of_prefix(words, delimiter, n - 1, n - 2);
    if i < n - 1 {
        lemma_join_holds_delimiter(front, delimiter, i, j);
        lemma_offset_of_prefix(words, delimiter, n - 1, i);
    }
}

/// Whether position `p` of the joined text lies in the word `i` or in the
/// delimiter before it.
pub open spec fn lies_at_word(words: Seq<Seq<char>>, delimiter: Seq<char>, p: int, i: int) -> bool {
    &&& 0 <= i < words.len()
    &&& if i == 0 {
        0 <= p
    } else {
        word_offset(words, delimiter, i) - delimiter.len() <= p
    }
    &&& p < word_offset(words, delimiter, i) + words[i].len()
}

/// The joined text holds the words and the delimiters between them, and
/// nothing else.
pub proof fn lemma_join_holds_nothing_else(words: Seq<Seq<char>>, delimiter: Seq<char>, p: int)
    requires
        0 <= p < join_spec(words, delimiter).len(),
    ensures
        exists|i: int| lies_at_word(words, delimiter, p, i),
    decreases words.len(),
{
    let n = words.len() as int;
    lemma_join_len(words, delimiter);
    if n == 1 {
        assert(lies_at_word(words, delimiter, p, 0));
    } else {
        let front = words.drop_last();
        assert(front =~= words.take(n - 1));
        lemma_join_len(front, delimiter);
        lemma_offset_of_prefix(words, delimiter, n - 1, n - 2);
        if p < join_spec(front, delimiter).len() {
            lemma_join_holds_nothing_else(front, delimiter, p);
            let i = choose|i: int| lies_at_word(front, delimiter, p, i);
            lemma_offset_of_prefix(words, delimiter, n - 1, i);
            assert(lies_at_word(words, delimiter, p, i));
        } else {
            assert(lies_at_word(words, delimiter, p, n - 1));
        }
    }
}

} // verus!
