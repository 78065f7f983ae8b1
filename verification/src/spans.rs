//! The words of a text, as the places where they begin and end.
//!
//! A word begins at a cut that a character other than a delimiter follows,
//! and runs to the next cut. The lemmas of this module show that this says
//! what one expects of words: they lie in the order of the text, none
//! reaches into the next, and no character is left out but the delimiters.

use vstd::prelude::*;
use crate::boundary::{cut_at, is_cut, starts_word, CharClass, Ruleset};

verus! {

/// The first cut at or behind position `k`.
pub open spec fn next_cut(classes: Seq<CharClass>, rules: Ruleset, k: int) -> int
    decreases classes.len() - k,
{
    if k >= classes.len() {
        classes.len() as int
    } else if is_cut(classes, rules, k) {
        k
    } else {
        next_cut(classes, rules, k + 1)
    }
}

/// The words that begin before position `n`, in the order of the text, each
/// as the pair of the position where it begins and the position where it
/// ends.
pub open spec fn spans_before(classes: Seq<CharClass>, rules: Ruleset, n: int) -> Seq<(int, int)>
    decreases n,
{
    if n <= 0 {
        Seq::empty()
    } else if starts_word(classes, rules, n - 1) {
        spans_before(classes, rules, n - 1).push((n - 1, next_cut(classes, rules, n)))
    } else {
        spans_before(classes, rules, n - 1)
    }
}

/// The words of a text with the classes `classes`: each begins at a cut
/// that a character other than a delimiter follows, and runs to the next cut.
pub open spec fn word_spans_spec(classes: Seq<CharClass>, rules: Ruleset) -> Seq<(int, int)> {
    spans_before(classes, rules, classes.len() as int)
}

/// The pairs of `spans` as pairs of integers.
pub open spec fn spans_view(spans: Seq<(usize, usize)>) -> Seq<(int, int)> {
    Seq::new(spans.len(), |i: int| (spans[i].0 as int, spans[i].1 as int))
}

/// The words of a text whose characters have the classes `classes`, in the
/// order of the text: where each begins and where it ends.
pub fn word_spans(classes: &Vec<CharClass>, rules: Ruleset) -> (spans: Vec<(usize, usize)>)
    ensures
        spans_view(spans@) == word_spans_spec(classes@, rules),
{
    let n = classes.len();
    let mut spans: Vec<(usize, usize)> = Vec::new();
    let mut k: usize = 0;
    while k < n
        invariant
            k <= n,
            n == classes.len(),
            spans_view(spans@) == spans_before(classes@, rules, k as int),
        decreases n - k,
    {
        if !rules.is_delimiter(classes[k]) && cut_at(classes, rules, k) {
            let mut end: usize = k + 1;
            while end < n && !cut_at(classes, rules, end)
                invariant
                    k < end <= n,
                    n == classes.len(),
                    next_cut(classes@, rules, k + 1) == next_cut(classes@, rules, end as int),
                decreases n - end,
            {
                end += 1;
            }
            spans.push((k, end));
        }
        k += 1;
        assert(spans_view(spans@) =~= spans_before(classes@, rules, k as int));
    }
    spans
}

/// Whether the characters from `a` up to `b` are one word: cuts at both ends
/// and none between them, and no delimiter at the beginning.
pub open spec fn is_word(classes: Seq<CharClass>, rules: Ruleset, a: int, b: int) -> bool {
    &&& 0 <= a < b <= classes.len()
    &&& is_cut(classes, rules, a)
    &&& is_cut(classes, rules, b)
    &&& !rules.delimits(classes[a])
    &&& forall|j: int| a < j < b ==> !is_cut(classes, rules, j)
}

/// `next_cut` is the first cut at or behind `k`.
pub proof fn lemma_next_cut(classes: Seq<CharClass>, rules: Ruleset, k: int)
    requires
        0 <= k <= classes.len(),
    ensures
        k <= next_cut(classes, rules, k) <= classes.len(),
        is_cut(classes, rules, next_cut(classes, rules, k)),
        forall|j: int| k <= j < next_cut(classes, rules, k) ==> !is_cut(classes, rules, j),
    decreases classes.len() - k,
{
    if k < classes.len() && !is_cut(classes, rules, k) {
        lemma_next_cut(classes, rules, k + 1);
    }
}

/// Whether `spans` holds words only, all of which begin before `n`, in the
/// order of the text and with none reaching into the next.
pub open spec fn words_in_order(
    classes: Seq<CharClass>,
    rules: Ruleset,
    spans: Seq<(int, int)>,
    n: int,
) -> bool {
    &&& forall|i: int|
        0 <= i < spans.len() ==> (#[trigger] spans[i]).0 < n && is_word(
            classes,
            rules,
            spans[i].0,
            spans[i].1,
        )
    &&& forall|i: int, j: int|
        0 <= i < j < spans.len() ==> (#[trigger] spans[i]).1 <= (#[trigger] spans[j]).0
}

/// What `spans_before` lists are words that begin before `n`, in the order
/// of the text.
pub proof fn lemma_spans_before(classes: Seq<CharClass>, rules: Ruleset, n: int)
    requires
        0 <= n <= classes.len(),
    ensures
        words_in_order(classes, rules, spans_before(classes, rules, n), n),
    decreases n,
{
    if n > 0 {
        lemma_spans_before(classes, rules, n - 1);
        let before = spans_before(classes, rules, n - 1);
        let all = spans_before(classes, rules, n);
        if starts_word(classes, rules, n - 1) {
            lemma_next_cut(classes, rules, n);
            let word = (n - 1, next_cut(classes, rules, n));
            assert(all == before.push(word));
            assert(is_word(classes, rules, word.0, word.1));
            assert forall|i: int| 0 <= i < before.len() implies (#[trigger] before[i]).1 <= n - 1 by {
                if before[i].1 > n - 1 {
                    assert(!is_cut(classes, rules, n - 1));
                }
            }
            assert forall|i: int| 0 <= i < all.len() implies (#[trigger] all[i]).0 < n && is_word(
                classes,
                rules,
                all[i].0,
                all[i].1,
            ) by {
                if i < before.len() {
                    assert(all[i] == before[i]);
                }
            }
            assert forall|i: int, j: int| 0 <= i < j < all.len() implies (#[trigger] all[i]).1 <= (
            #[trigger] all[j]).0 by {
                assert(all[i] == before[i]);
                if j < before.len() {
                    assert(all[j] == before[j]);
                }
            }
        } else {
            assert(all == before);
        }
    }
}

/// `spans_before` leaves out no word that begins before `n`.
pub proof fn lemma_spans_before_has_every_start(
    classes: Seq<CharClass>,
    rules: Ruleset,
    n: int,
    a: int,
)
    requires
        0 <= a < n <= classes.len(),
        starts_word(classes, rules, a),
    ensures
        exists|i: int|
            0 <= i < spans_before(classes, rules, n).len() && (#[trigger] spans_before(
                classes,
                rules,
                n,
            )[i]).0 == a,
    decreases n,
{
    let all = spans_before(classes, rules, n);
    if a == n - 1 {
        assert(all[all.len() - 1].0 == a);
    } else {
        lemma_spans_before_has_every_start(classes, rules, n - 1, a);
        let before = spans_before(classes, rules, n - 1);
        let i = choose|i: int| 0 <= i < before.len() && (#[trigger] before[i]).0 == a;
        assert(all[i] == before[i]);
    }
}

/// The last cut at or before position `k`.
pub open spec fn last_cut(classes: Seq<CharClass>, rules: Ruleset, k: int) -> int
    decreases k,
{
    if k <= 0 {
        0
    } else if is_cut(classes, rules, k) {
        k
    } else {
        last_cut(classes, rules, k - 1)
    }
}

/// `last_cut` is the last cut at or before `k`.
pub proof fn lemma_last_cut(classes: Seq<CharClass>, rules: Ruleset, k: int)
    requires
        0 <= k <= classes.len(),
    ensures
        0 <= last_cut(classes, rules, k) <= k,
        is_cut(classes, rules, last_cut(classes, rules, k)),
        forall|j: int| last_cut(classes, rules, k) < j <= k ==> !is_cut(classes, rules, j),
    decreases k,
{
    if k > 0 && !is_cut(classes, rules, k) {
        lemma_last_cut(classes, rules, k - 1);
    }
}

/// No character is lost but the delimiters: a character that is no delimiter
/// lies in one of the words.
pub proof fn lemma_every_character_is_in_a_word(classes: Seq<CharClass>, rules: Ruleset, p: int)
    requires
        0 <= p < classes.len(),
        !rules.delimits(classes[p]),
    ensures
        exists|i: int|
            0 <= i < word_spans_spec(classes, rules).len() && (#[trigger] word_spans_spec(
                classes,
                rules,
            )[i]).0 <= p < word_spans_spec(classes, rules)[i].1,
{
    let n = classes.len() as int;
    let a = last_cut(classes, rules, p);
    lemma_last_cut(classes, rules, p);
    if rules.delimits(classes[a]) {
        assert(is_cut(classes, rules, a + 1));
    }
    assert(starts_word(classes, rules, a));
    lemma_spans_before_has_every_start(classes, rules, n, a);
    lemma_spans_before(classes, rules, n);
    let all = word_spans_spec(classes, rules);
    let i = choose|i: int| 0 <= i < all.len() && (#[trigger] all[i]).0 == a;
    assert(is_word(classes, rules, all[i].0, all[i].1));
    if all[i].1 <= p {
        assert(!is_cut(classes, rules, all[i].1));
    }
}

/// The words are what the cuts make them: a list of words in the order of
/// the text that leaves out no word that begins before `n` is the list of
/// `spans_before`.
pub proof fn lemma_spans_before_is_unique(
    classes: Seq<CharClass>,
    rules: Ruleset,
    n: int,
    spans: Seq<(int, int)>,
)
    requires
        0 <= n <= classes.len(),
        words_in_order(classes, rules, spans, n),
        forall|a: int|
            0 <= a < n && starts_word(classes, rules, a) ==> exists|i: int|
                0 <= i < spans.len() && (#[trigger] spans[i]).0 == a,
    ensures
        spans == spans_before(classes, rules, n),
    decreases n,
{
    if n == 0 {
        if spans.len() > 0 {
            assert(spans[0].0 < 0);
        }
        assert(spans =~= spans_before(classes, rules, n));
    } else if starts_word(classes, rules, n - 1) {
        let i = choose|i: int| 0 <= i < spans.len() && (#[trigger] spans[i]).0 == n - 1;
        assert(is_word(classes, rules, spans[i].0, spans[i].1));
        if i + 1 < spans.len() {
            assert(spans[i].1 <= spans[i + 1].0);
            assert(false);
        }
        let rest = spans.drop_last();
        assert forall|j: int| 0 <= j < rest.len() implies (#[trigger] rest[j]).0 < n - 1 && is_word(
            classes,
            rules,
            rest[j].0,
            rest[j].1,
        ) by {
            assert(rest[j] == spans[j]);
            assert(spans[j].1 <= spans[i].0);
        }
        assert forall|j: int, k: int| 0 <= j < k < rest.len() implies (#[trigger] rest[j]).1 <= (
        #[trigger] rest[k]).0 by {
            assert(rest[j] == spans[j] && rest[k] == spans[k]);
        }
        assert forall|a: int| 0 <= a < n - 1 && starts_word(classes, rules, a) implies exists|j: int|
            0 <= j < rest.len() && (#[trigger] rest[j]).0 == a by {
            let j = choose|j: int| 0 <= j < spans.len() && (#[trigger] spans[j]).0 == a;
            assert(rest[j] == spans[j]);
        }
        lemma_spans_before_is_unique(classes, rules, n - 1, rest);
        lemma_next_cut(classes, rules, n);
        let end = next_cut(classes, rules, n);
        if spans[i].1 < end {
            assert(!is_cut(classes, rules, spans[i].1));
        }
        if end < spans[i].1 {
            assert(!is_cut(classes, rules, end));
        }
        assert(spans =~= rest.push((n - 1, end)));
    } else {
        assert forall|j: int| 0 <= j < spans.len() implies (#[trigger] spans[j]).0 < n - 1 && is_word(
            classes,
            rules,
            spans[j].0,
            spans[j].1,
        ) by {
            assert(is_word(classes, rules, spans[j].0, spans[j].1));
        }
        lemma_spans_before_is_unique(classes, rules, n - 1, spans);
    }
}

/// Whether `spans` leaves out no position at which a word begins.
pub open spec fn has_every_start(
    classes: Seq<CharClass>,
    rules: Ruleset,
    spans: Seq<(int, int)>,
) -> bool {
    forall|a: int|
        0 <= a < classes.len() && starts_word(classes, rules, a) ==> exists|i: int|
            0 <= i < spans.len() && (#[trigger] spans[i]).0 == a
}

/// The words are what the cuts make them: a list of pairs is the list of the
/// words of a text if and only if each pair is a word, the pairs lie in the
/// order of the text, and no word is left out.
pub proof fn lemma_word_spans_are_the_words(
    classes: Seq<CharClass>,
    rules: Ruleset,
    spans: Seq<(int, int)>,
)
    ensures
        spans == word_spans_spec(classes, rules) <==> words_in_order(
            classes,
            rules,
            spans,
            classes.len() as int,
        ) && has_every_start(classes, rules, spans),
{
    let n = classes.len() as int;
    if spans == word_spans_spec(classes, rules) {
        lemma_spans_before(classes, rules, n);
        assert forall|a: int| 0 <= a < n && starts_word(classes, rules, a) implies exists|i: int|
            0 <= i < spans.len() && (#[trigger] spans[i]).0 == a by {
            lemma_spans_before_has_every_start(classes, rules, n, a);
        }
    }
    if words_in_order(classes, rules, spans, n) && has_every_start(classes, rules, spans) {
        lemma_spans_before_is_unique(classes, rules, n, spans);
    }
}

} // verus!
