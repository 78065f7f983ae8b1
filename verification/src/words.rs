//! The words of a text.

use vstd::prelude::*;
use crate::boundary::{
    class_of, classes_of, classify_all, is_cut, starts_word, transition_at, Ruleset,
};
use crate::spans::{
    is_word, lemma_every_character_is_in_a_word, lemma_spans_before,
    lemma_spans_before_is_unique, spans_view, word_spans, word_spans_spec, words_in_order,
};
use crate::unicode::{chars_of, text_of};

verus! {

/// The pieces of `text` that the pairs of `spans` mark, in the same order.
pub open spec fn cut_out(text: Seq<char>, spans: Seq<(int, int)>) -> Seq<Seq<char>> {
    Seq::new(spans.len(), |i: int| text.subrange(spans[i].0, spans[i].1))
}

/// The words of `text` under the rules `rules`, in the order of the text.
pub open spec fn segment_spec(text: Seq<char>, rules: Ruleset) -> Seq<Seq<char>> {
    cut_out(text, word_spans_spec(classes_of(text), rules))
}

/// Splits `text` into its words under the rules `rules`.
///
/// The words come in the order of the text. No word is empty and none holds
/// a delimiter; a text without a boundary is one word, and a text of
/// delimiters alone has no word.
pub fn segment(text: &str, rules: Ruleset) -> (words: Vec<String>)
    ensures
        words.deep_view() == segment_spec(text@, rules),
{
    let chars = chars_of(text);
    let classes = classify_all(&chars);
    let spans = word_spans(&classes, rules);
    let ghost marks = word_spans_spec(classes@, rules);
    proof {
        lemma_spans_before(classes@, rules, classes@.len() as int);
    }
    let mut words: Vec<String> = Vec::new();
    let mut i: usize = 0;
    while i < spans.len()
        invariant
            i <= spans.len(),
            chars@ == text@,
            classes@.len() == chars@.len(),
            spans_view(spans@) == marks,
            words_in_order(classes@, rules, marks, classes@.len() as int),
            words@.len() == i,
            forall|j: int|
                0 <= j < i ==> (#[trigger] words@[j])@ == text@.subrange(marks[j].0, marks[j].1),
        decreases spans.len() - i,
    {
        let (from, to) = spans[i];
        assert(marks[i as int] == (from as int, to as int));
        let word = text_of(&chars, from, to);
        words.push(word);
        i += 1;
    }
    assert(words.deep_view() =~= cut_out(text@, marks));
    words
}

/// No word is empty, and no word holds a delimiter.
pub proof fn lemma_words_are_clean(text: Seq<char>, rules: Ruleset, i: int)
    requires
        0 <= i < segment_spec(text, rules).len(),
    ensures
        segment_spec(text, rules)[i].len() > 0,
        forall|j: int|
            0 <= j < segment_spec(text, rules)[i].len() ==> !rules.delimits(
                class_of(#[trigger] segment_spec(text, rules)[i][j]),
            ),
{
    let classes = classes_of(text);
    let spans = word_spans_spec(classes, rules);
    lemma_spans_before(classes, rules, classes.len() as int);
    let (a, b) = spans[i];
    assert(is_word(classes, rules, a, b));
    let word = segment_spec(text, rules)[i];
    assert(word == text.subrange(a, b));
    assert forall|j: int| 0 <= j < word.len() implies !rules.delimits(class_of(#[trigger] word[j])) by {
        assert(word[j] == text[a + j]);
        assert(classes[a + j] == class_of(text[a + j]));
        if j > 0 {
            assert(!is_cut(classes, rules, a + j));
        }
    }
}

/// A text has no word if and only if it holds nothing but delimiters.
pub proof fn lemma_no_word_iff_delimiters_only(text: Seq<char>, rules: Ruleset)
    ensures
        segment_spec(text, rules).len() == 0 <==> forall|p: int|
            0 <= p < text.len() ==> rules.delimits(class_of(#[trigger] text[p])),
{
    let classes = classes_of(text);
    let spans = word_spans_spec(classes, rules);
    if spans.len() == 0 {
        assert forall|p: int| 0 <= p < text.len() implies rules.delimits(
            class_of(#[trigger] text[p]),
        ) by {
            assert(classes[p] == class_of(text[p]));
            if !rules.delimits(classes[p]) {
                lemma_every_character_is_in_a_word(classes, rules, p);
            }
        }
    } else {
        lemma_spans_before(classes, rules, classes.len() as int);
        let (a, b) = spans[0];
        assert(is_word(classes, rules, a, b));
        assert(classes[a] == class_of(text[a]));
    }
}

/// A text without a boundary is one word: where `text` is not empty, holds
/// no delimiter and no rule finds a boundary in it, its only word is `text`.
pub proof fn lemma_one_word(text: Seq<char>, rules: Ruleset)
    requires
        text.len() > 0,
        forall|p: int| 0 <= p < text.len() ==> !rules.delimits(class_of(#[trigger] text[p])),
        forall|k: int| 0 < k < text.len() ==> !transition_at(classes_of(text), rules, k),
    ensures
        segment_spec(text, rules) == seq![text],
{
    let classes = classes_of(text);
    let n = classes.len() as int;
    let spans = seq![(0int, n)];
    assert forall|j: int| 0 < j < n implies !is_cut(classes, rules, j) by {
        assert(classes[j] == class_of(text[j]));
        assert(classes[j - 1] == class_of(text[j - 1]));
    }
    assert(classes[0] == class_of(text[0]));
    assert(is_word(classes, rules, 0, n));
    assert(words_in_order(classes, rules, spans, n));
    assert forall|a: int| 0 <= a < n && starts_word(classes, rules, a) implies exists|
        i: int,
    |
        0 <= i < spans.len() && (#[trigger] spans[i]).0 == a by {
        assert(spans[0].0 == 0);
        if a > 0 {
            assert(!is_cut(classes, rules, a));
        }
    }
    lemma_spans_before_is_unique(classes, rules, n, spans);
    assert(text.subrange(0, n) =~= text);
    assert(segment_spec(text, rules) =~= seq![text]);
}

/// `text` without the characters that are delimiters under `rules`.
pub open spec fn without_delimiters(text: Seq<char>, rules: Ruleset) -> Seq<char> {
    text.filter(|c: char| !rules.delimits(class_of(c)))
}

/// A stretch of text without a delimiter is kept whole.
proof fn lemma_keeps_all(text: Seq<char>, rules: Ruleset)
    requires
        forall|p: int| 0 <= p < text.len() ==> !rules.delimits(class_of(#[trigger] text[p])),
    ensures
        without_delimiters(text, rules) == text,
    decreases text.len(),
{
    let keep = |c: char| !rules.delimits(class_of(c));
    if text.len() == 0 {
        reveal(Seq::filter);
    } else {
        let front = text.drop_last();
        lemma_keeps_all(front, rules);
        front.lemma_filter_push(text.last(), keep);
        assert(front.push(text.last()) =~= text);
    }
}

/// Of a stretch of delimiters nothing is kept.
proof fn lemma_keeps_none(text: Seq<char>, rules: Ruleset)
    requires
        forall|p: int| 0 <= p < text.len() ==> rules.delimits(class_of(#[trigger] text[p])),
    ensures
        without_delimiters(text, rules) == Seq::<char>::empty(),
    decreases text.len(),
{
    let keep = |c: char| !rules.delimits(class_of(c));
    if text.len() == 0 {
        reveal(Seq::filter);
    } else {
        let front = text.drop_last();
        lemma_keeps_none(front, rules);
        front.lemma_filter_push(text.last(), keep);
        assert(front.push(text.last()) =~= text);
    }
}

/// Where the first `m` words end.
spec fn end_of_words(text: Seq<char>, rules: Ruleset, m: int) -> int {
    if m <= 0 {
        0
    } else {
        word_spans_spec(classes_of(text), rules)[m - 1].1
    }
}

/// Between the end of one word and the beginning of the next there are
/// delimiters only, and so there are before the first word and behind the
/// last.
proof fn lemma_delimiters_between(text: Seq<char>, rules: Ruleset, m: int, p: int)
    requires
        0 <= m <= segment_spec(text, rules).len(),
        end_of_words(text, rules, m) <= p < text.len(),
        m < segment_spec(text, rules).len() ==> p < word_spans_spec(classes_of(text), rules)[m].0,
    ensures
        rules.delimits(class_of(text[p])),
{
    let classes = classes_of(text);
    let spans = word_spans_spec(classes, rules);
    lemma_spans_before(classes, rules, classes.len() as int);
    assert(classes[p] == class_of(text[p]));
    if !rules.delimits(classes[p]) {
        lemma_every_character_is_in_a_word(classes, rules, p);
        let i = choose|i: int| 0 <= i < spans.len() && (#[trigger] spans[i]).0 <= p < spans[i].1;
        if i < m {
            if i < m - 1 {
                assert(spans[i].1 <= spans[m - 1].0);
                assert(is_word(classes, rules, spans[m - 1].0, spans[m - 1].1));
            }
        } else if i > m {
            assert(spans[m].1 <= spans[i].0);
            assert(is_word(classes, rules, spans[m].0, spans[m].1));
        }
    }
}

/// The word `m` lies behind the end of the word before it, and what lies
/// between the two is lost; the word itself is kept whole.
proof fn lemma_word_and_gap(text: Seq<char>, rules: Ruleset, m: int)
    requires
        0 <= m < segment_spec(text, rules).len(),
    ensures
        ({
            let (a, b) = word_spans_spec(classes_of(text), rules)[m];
            &&& 0 <= end_of_words(text, rules, m) <= a < b <= text.len()
            &&& end_of_words(text, rules, m + 1) == b
            &&& segment_spec(text, rules)[m] == text.subrange(a, b)
            &&& without_delimiters(text.subrange(end_of_words(text, rules, m), a), rules)
                == Seq::<char>::empty()
            &&& without_delimiters(text.subrange(a, b), rules) == text.subrange(a, b)
        }),
{
    let classes = classes_of(text);
    let spans = word_spans_spec(classes, rules);
    let (a, b) = spans[m];
    let before = end_of_words(text, rules, m);
    assert(0 <= before <= a < b <= text.len()) by {
        lemma_spans_before(classes, rules, classes.len() as int);
        assert(is_word(classes, rules, spans[m].0, spans[m].1));
        if m >= 1 {
            assert(is_word(classes, rules, spans[m - 1].0, spans[m - 1].1));
            assert(spans[m - 1].1 <= spans[m].0);
        }
    }
    let gap = text.subrange(before, a);
    assert forall|p: int| 0 <= p < gap.len() implies rules.delimits(class_of(#[trigger] gap[p])) by {
        lemma_delimiters_between(text, rules, m, before + p);
    }
    lemma_keeps_none(gap, rules);
    lemma_words_are_clean(text, rules, m);
    lemma_keeps_all(text.subrange(a, b), rules);
}

/// The first `m` words, one after the other, are the text up to the end of
/// the last of them without its delimiters.
proof fn lemma_words_up_to(text: Seq<char>, rules: Ruleset, m: int)
    requires
        0 <= m <= segment_spec(text, rules).len(),
    ensures
        0 <= end_of_words(text, rules, m) <= text.len(),
        segment_spec(text, rules).take(m).flatten() == without_delimiters(
            text.take(end_of_words(text, rules, m)),
            rules,
        ),
    decreases m,
{
    let words = segment_spec(text, rules);
    let keep = |c: char| !rules.delimits(class_of(c));
    if m == 0 {
        assert(words.take(0).flatten() =~= Seq::<char>::empty());
        assert(text.take(0) =~= Seq::<char>::empty());
        lemma_keeps_none(text.take(0), rules);
    } else {
        lemma_words_up_to(text, rules, m - 1);
        lemma_word_and_gap(text, rules, m - 1);
        let (a, b) = word_spans_spec(classes_of(text), rules)[m - 1];
        let before = end_of_words(text, rules, m - 1);
        let gap = text.subrange(before, a);
        let word = text.subrange(a, b);
        assert(words.take(m).flatten() == words.take(m - 1).flatten() + word) by {
            assert(words.take(m) =~= words.take(m - 1).push(word));
            words.take(m - 1).lemma_flatten_push(word);
        }
        assert(text.take(b).filter(keep) == text.take(before).filter(keep) + gap.filter(keep)
            + word.filter(keep)) by {
            assert(text.take(b) =~= text.take(before) + gap + word);
            Seq::filter_distributes_over_add(text.take(before), gap, keep);
            Seq::filter_distributes_over_add(text.take(before) + gap, word, keep);
        }
    }
}

/// Nothing is lost but the delimiters, and nothing changes its place: the
/// words of a text, one after the other, are the text without its delimiters.
pub proof fn lemma_words_hold_the_text(text: Seq<char>, rules: Ruleset)
    ensures
        segment_spec(text, rules).flatten() == without_delimiters(text, rules),
{
    let words = segment_spec(text, rules);
    let m = words.len() as int;
    let keep = |c: char| !rules.delimits(class_of(c));
    lemma_words_up_to(text, rules, m);
    let end = end_of_words(text, rules, m);
    let rest = text.subrange(end, text.len() as int);
    assert forall|p: int| 0 <= p < rest.len() implies rules.delimits(class_of(#[trigger] rest[p])) by {
        lemma_delimiters_between(text, rules, m, end + p);
    }
    lemma_keeps_none(rest, rules);
    assert(words.take(m) =~= words);
    assert(text =~= text.take(end) + rest);
    Seq::filter_distributes_over_add(text.take(end), rest, keep);
}

} // verus!
