//! What holds of every conversion.

use vstd::prelude::*;
use crate::boundary::{class_of, classes_of, is_cut, starts_word, transition_at, Ruleset};
use crate::case::Case;
use crate::casing::{converted, rules_for};
use crate::layout::{
    lemma_join_holds_delimiter, lemma_join_holds_nothing_else, lemma_join_holds_word,
    lemma_join_len, lemma_offsets_ascend, lies_at_word, word_offset,
};
use crate::render::{cased_words, join_spec, render_spec};
use crate::spans::{is_word, lemma_spans_before_is_unique};
use crate::words::segment_spec;

verus! {

/// Whether position `k` of the joined text lies inside the word `i`, behind
/// its first character.
pub open spec fn inside_word(words: Seq<Seq<char>>, delimiter: Seq<char>, i: int, k: int) -> bool {
    &&& 0 <= i < words.len()
    &&& word_offset(words, delimiter, i) < k < word_offset(words, delimiter, i) + words[i].len()
}

/// Whether a rule on letters and digits finds a boundary in the joined text
/// where the word `i` begins.
pub open spec fn breaks_before_word(
    words: Seq<Seq<char>>,
    delimiter: Seq<char>,
    rules: Ruleset,
    i: int,
) -> bool {
    transition_at(
        classes_of(join_spec(words, delimiter)),
        rules,
        word_offset(words, delimiter, i),
    )
}

/// Whether the rules `rules` find in the text joined from `words` and
/// `delimiter` these words and no others: no word is empty or holds a
/// delimiter of the rules, the text between two words is made of delimiters
/// of the rules, no rule finds a boundary inside a word, and where nothing
/// stands between two words a rule finds a boundary there.
pub open spec fn splits_at_joints(
    words: Seq<Seq<char>>,
    delimiter: Seq<char>,
    rules: Ruleset,
) -> bool {
    &&& forall|i: int| 0 <= i < words.len() ==> (#[trigger] words[i]).len() > 0
    &&& forall|i: int, j: int|
        0 <= i < words.len() && 0 <= j < words[i].len() ==> !rules.delimits(
            class_of(#[trigger] words[i][j]),
        )
    &&& forall|j: int| 0 <= j < delimiter.len() ==> rules.delimits(class_of(#[trigger] delimiter[j]))
    &&& forall|i: int, k: int| #[trigger]
        inside_word(words, delimiter, i, k) ==> !transition_at(
            classes_of(join_spec(words, delimiter)),
            rules,
            k,
        )
    &&& delimiter.len() == 0 ==> forall|i: int|
        0 < i < words.len() ==> #[trigger] breaks_before_word(words, delimiter, rules, i)
}

/// Where each word of `words` begins and ends in the joined text.
pub open spec fn joint_spans(words: Seq<Seq<char>>, delimiter: Seq<char>) -> Seq<(int, int)> {
    Seq::new(
        words.len(),
        |i: int| (word_offset(words, delimiter, i), word_offset(words, delimiter, i) + words[i].len()),
    )
}

/// No word may end or begin inside one of the words that were joined.
proof fn lemma_no_cut_inside(
    words: Seq<Seq<char>>,
    delimiter: Seq<char>,
    rules: Ruleset,
    i: int,
    k: int,
)
    requires
        splits_at_joints(words, delimiter, rules),
        0 <= i < words.len(),
        word_offset(words, delimiter, i) < k < word_offset(words, delimiter, i) + words[i].len(),
    ensures
        !is_cut(classes_of(join_spec(words, delimiter)), rules, k),
{
    let classes = classes_of(join_spec(words, delimiter));
    let at = word_offset(words, delimiter, i);
    lemma_join_holds_word(words, delimiter, i, k - at);
    lemma_join_holds_word(words, delimiter, i, k - at - 1);
    assert(classes[k] == class_of(words[i][k - at]));
    assert(classes[k - 1] == class_of(words[i][k - at - 1]));
    assert(inside_word(words, delimiter, i, k));
}

/// A word may begin where a joined word begins.
proof fn lemma_cut_at_start(words: Seq<Seq<char>>, delimiter: Seq<char>, rules: Ruleset, i: int)
    requires
        splits_at_joints(words, delimiter, rules),
        0 <= i < words.len(),
    ensures
        0 <= word_offset(words, delimiter, i) < join_spec(words, delimiter).len(),
        is_cut(classes_of(join_spec(words, delimiter)), rules, word_offset(words, delimiter, i)),
        !rules.delimits(
            classes_of(join_spec(words, delimiter))[word_offset(words, delimiter, i)],
        ),
{
    let classes = classes_of(join_spec(words, delimiter));
    let at = word_offset(words, delimiter, i);
    assert(words[i].len() > 0);
    lemma_join_holds_word(words, delimiter, i, 0);
    assert(classes[at] == class_of(words[i][0]));
    if i > 0 {
        if delimiter.len() > 0 {
            lemma_join_holds_delimiter(words, delimiter, i, delimiter.len() - 1);
            assert(classes[at - 1] == class_of(delimiter[delimiter.len() - 1]));
        } else {
            assert(breaks_before_word(words, delimiter, rules, i));
        }
    }
}

/// A word may end where a joined word ends.
proof fn lemma_cut_at_end(words: Seq<Seq<char>>, delimiter: Seq<char>, rules: Ruleset, i: int)
    requires
        splits_at_joints(words, delimiter, rules),
        0 <= i < words.len(),
    ensures
        word_offset(words, delimiter, i) + words[i].len() <= join_spec(words, delimiter).len(),
        is_cut(
            classes_of(join_spec(words, delimiter)),
            rules,
            word_offset(words, delimiter, i) + words[i].len(),
        ),
{
    let classes = classes_of(join_spec(words, delimiter));
    let end = word_offset(words, delimiter, i) + words[i].len();
    assert(words[i].len() > 0);
    lemma_join_holds_word(words, delimiter, i, words[i].len() - 1);
    if i + 1 < words.len() {
        assert(words[i + 1].len() > 0);
        lemma_join_holds_word(words, delimiter, i + 1, 0);
        if delimiter.len() > 0 {
            lemma_join_holds_delimiter(words, delimiter, i + 1, 0);
            assert(classes[end] == class_of(delimiter[0]));
        } else {
            assert(breaks_before_word(words, delimiter, rules, i + 1));
        }
    } else {
        lemma_join_len(words, delimiter);
    }
}

/// A word begins nowhere but where a joined word begins.
proof fn lemma_start_is_joint(words: Seq<Seq<char>>, delimiter: Seq<char>, rules: Ruleset, a: int)
    requires
        splits_at_joints(words, delimiter, rules),
        starts_word(classes_of(join_spec(words, delimiter)), rules, a),
    ensures
        exists|i: int|
            0 <= i < words.len() && (#[trigger] joint_spans(words, delimiter)[i]).0 == a,
{
    let classes = classes_of(join_spec(words, delimiter));
    lemma_join_holds_nothing_else(words, delimiter, a);
    let i = choose|i: int| lies_at_word(words, delimiter, a, i);
    let at = word_offset(words, delimiter, i);
    if a < at {
        lemma_join_holds_delimiter(words, delimiter, i, a - at + delimiter.len());
        assert(classes[a] == class_of(delimiter[a - at + delimiter.len()]));
        assert(false);
    }
    if a > at {
        lemma_no_cut_inside(words, delimiter, rules, i, a);
    }
    assert(joint_spans(words, delimiter)[i].0 == a);
}

/// Splitting undoes joining: where the rules find in the joined text the
/// words it was made of and no others, its words are those words.
pub proof fn law_split_inverts_join(words: Seq<Seq<char>>, delimiter: Seq<char>, rules: Ruleset)
    requires
        splits_at_joints(words, delimiter, rules),
    ensures
        segment_spec(join_spec(words, delimiter), rules) == words,
{
    let text = join_spec(words, delimiter);
    let classes = classes_of(text);
    let n = classes.len() as int;
    let spans = joint_spans(words, delimiter);
    assert forall|i: int| 0 <= i < spans.len() implies (#[trigger] spans[i]).0 < n && is_word(
        classes,
        rules,
        spans[i].0,
        spans[i].1,
    ) by {
        lemma_cut_at_start(words, delimiter, rules, i);
        lemma_cut_at_end(words, delimiter, rules, i);
        assert forall|k: int| spans[i].0 < k < spans[i].1 implies !is_cut(classes, rules, k) by {
            lemma_no_cut_inside(words, delimiter, rules, i, k);
        }
    }
    assert forall|i: int, j: int| 0 <= i < j < spans.len() implies (#[trigger] spans[i]).1 <= (
    #[trigger] spans[j]).0 by {
        lemma_offsets_ascend(words, delimiter, i, j);
    }
    assert forall|a: int| 0 <= a < n && starts_word(classes, rules, a) implies exists|i: int|
        0 <= i < spans.len() && (#[trigger] spans[i]).0 == a by {
        lemma_start_is_joint(words, delimiter, rules, a);
    }
    lemma_spans_before_is_unique(classes, rules, n, spans);
    assert forall|i: int| 0 <= i < words.len() implies text.subrange(spans[i].0, spans[i].1)
        == #[trigger] words[i] by {
        let at = word_offset(words, delimiter, i);
        lemma_cut_at_end(words, delimiter, rules, i);
        lemma_cut_at_start(words, delimiter, rules, i);
        assert forall|j: int| 0 <= j < words[i].len() implies text[at + j] == words[i][j] by {
            lemma_join_holds_word(words, delimiter, i, j);
        }
        assert(text.subrange(spans[i].0, spans[i].1) =~= words[i]);
    }
    assert(segment_spec(text, rules) =~= words);
}

/// What a convention puts between two words is a delimiter under its own
/// rules.
pub proof fn lemma_own_delimiter_delimits(case: Case)
    ensures
        forall|j: int|
            0 <= j < case.delimiter_spec().len() ==> Ruleset::of_spec(case).delimits(
                class_of(#[trigger] case.delimiter_spec()[j]),
            ),
{
}

/// Whether `text` is what the words `words` make in the convention `case`,
/// with nothing left open: the rules of the convention find these words in
/// it and no others, and each word is cased as the convention cases it.
pub open spec fn renders_as(words: Seq<Seq<char>>, case: Case, text: Seq<char>) -> bool {
    &&& splits_at_joints(words, case.delimiter_spec(), Ruleset::of_spec(case))
    &&& cased_words(words, case.pattern_spec()) == words
    &&& text == join_spec(words, case.delimiter_spec())
}

/// Whether `text` is written in the convention `case`: some words make it,
/// in the sense of [`renders_as`].
pub open spec fn is_written_in(text: Seq<char>, case: Case) -> bool {
    exists|words: Seq<Seq<char>>| #[trigger] renders_as(words, case, text)
}

/// A text that is written in a convention and declared to follow it stays as
/// it is when it is converted into that convention.
pub proof fn law_own_convention_changes_nothing(text: Seq<char>, case: Case)
    requires
        is_written_in(text, case),
    ensures
        converted(text, Some(case), case) == text,
{
    let words = choose|words: Seq<Seq<char>>| #[trigger] renders_as(words, case, text);
    law_split_inverts_join(words, case.delimiter_spec(), Ruleset::of_spec(case));
}

/// There and back again: a text written in the convention `a`, converted
/// into `b` and from there into `a`, is the text it was. This holds where
/// the words keep apart in `b` as well, and where the casing of `a` gives
/// back what the casing of `b` took.
pub proof fn law_round_trip(text: Seq<char>, words: Seq<Seq<char>>, a: Case, b: Case)
    requires
        renders_as(words, a, text),
        splits_at_joints(
            cased_words(words, b.pattern_spec()),
            b.delimiter_spec(),
            Ruleset::of_spec(b),
        ),
        cased_words(cased_words(words, b.pattern_spec()), a.pattern_spec()) == words,
    ensures
        converted(text, Some(a), b) == render_spec(words, b),
        converted(converted(text, Some(a), b), Some(b), a) == text,
{
    law_split_inverts_join(words, a.delimiter_spec(), Ruleset::of_spec(a));
    law_split_inverts_join(
        cased_words(words, b.pattern_spec()),
        b.delimiter_spec(),
        Ruleset::of_spec(b),
    );
}

/// The empty text stays empty, whatever it is declared to follow and
/// whatever it is converted into.
pub proof fn law_empty_text_stays_empty(source: Option<Case>, target: Case)
    ensures
        converted(Seq::<char>::empty(), source, target) == Seq::<char>::empty(),
{
    let text = Seq::<char>::empty();
    let words = segment_spec(text, rules_for(source));
    assert(words.len() == 0);
    assert(cased_words(words, target.pattern_spec()).len() == 0);
}

} // verus!
