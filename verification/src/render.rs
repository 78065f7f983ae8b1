//! From words to a text in a convention: each word is cased, and the cased
//! words are joined with the convention's delimiter between them.

use vstd::prelude::*;
use vstd::string::{StrSliceExecFns, StringExecFns};
use crate::case::{Case, Pattern};
use crate::unicode::{cased, chars_of, is_cased, lowercase_of, uppercase_of};

verus! {

/// `word` with its first character in upper case and the others in lower case.
pub open spec fn capitalized(word: Seq<char>) -> Seq<char> {
    if word.len() == 0 {
        word
    } else {
        uppercase_of(word.take(1)) + lowercase_of(word.skip(1))
    }
}

/// `word` with its first character in lower case and the others in upper case.
pub open spec fn toggled(word: Seq<char>) -> Seq<char> {
    if word.len() == 0 {
        word
    } else {
        lowercase_of(word.take(1)) + uppercase_of(word.skip(1))
    }
}

/// The number of cased letters in `text`.
pub open spec fn cased_count(text: Seq<char>) -> nat
    decreases text.len(),
{
    if text.len() == 0 {
        0
    } else {
        cased_count(text.drop_last()) + if is_cased(text.last()) {
            1nat
        } else {
            0nat
        }
    }
}

/// One character in its turn: a cased letter in upper case if `upper`, else in
/// lower case; any other character as it is.
pub open spec fn alternated_char(c: char, upper: bool) -> Seq<char> {
    if !is_cased(c) {
        seq![c]
    } else if upper {
        uppercase_of(seq![c])
    } else {
        lowercase_of(seq![c])
    }
}

/// `text` with its cased letters in lower and upper case in turn; the first
/// of them is in upper case if `upper`, else in lower case.
pub open spec fn alternated(text: Seq<char>, upper: bool) -> Seq<char>
    decreases text.len(),
{
    if text.len() == 0 {
        Seq::empty()
    } else {
        alternated(text.drop_last(), upper) + alternated_char(
            text.last(),
            upper != (cased_count(text.drop_last()) % 2 == 1),
        )
    }
}

/// The number of cased letters in the first `i` words of `words`.
pub open spec fn letters_before(words: Seq<Seq<char>>, i: int) -> nat
    decreases i,
{
    if i <= 0 {
        0
    } else {
        letters_before(words, i - 1) + cased_count(words[i - 1])
    }
}

/// The word at position `i` of `words`, cased as `pattern` asks.
pub open spec fn cased_word(words: Seq<Seq<char>>, pattern: Pattern, i: int) -> Seq<char> {
    match pattern {
        Pattern::Lowercase => lowercase_of(words[i]),
        Pattern::Uppercase => uppercase_of(words[i]),
        Pattern::Capital => capitalized(words[i]),
        Pattern::Camel => if i == 0 {
            lowercase_of(words[i])
        } else {
            capitalized(words[i])
        },
        Pattern::Toggle => toggled(words[i]),
        Pattern::Alternating => alternated(words[i], letters_before(words, i) % 2 == 1),
    }
}

/// The words of `words`, each cased as `pattern` asks.
pub open spec fn cased_words(words: Seq<Seq<char>>, pattern: Pattern) -> Seq<Seq<char>> {
    Seq::new(words.len(), |i: int| cased_word(words, pattern, i))
}

/// The words of `words` one after the other, with `delimiter` between each
/// two of them.
pub open spec fn join_spec(words: Seq<Seq<char>>, delimiter: Seq<char>) -> Seq<char>
    decreases words.len(),
{
    if words.len() == 0 {
        Seq::empty()
    } else if words.len() == 1 {
        words[0]
    } else {
        join_spec(words.drop_last(), delimiter) + delimiter + words.last()
    }
}

/// The text that the words `words` make in the convention `case`.
pub open spec fn render_spec(words: Seq<Seq<char>>, case: Case) -> Seq<char> {
    join_spec(cased_words(words, case.pattern_spec()), case.delimiter_spec())
}

/// `word` with its first character in upper case and the others in lower case.
pub fn capitalize(word: &str) -> (r: String)
    ensures
        r@ == capitalized(word@),
{
    let n = word.unicode_len();
    if n == 0 {
        String::new()
    } else {
        let mut r = word.substring_char(0, 1).to_uppercase();
        let rest = word.substring_char(1, n).to_lowercase();
        r.append(rest.as_str());
        r
    }
}

/// `word` with its first character in lower case and the others in upper case.
pub fn toggle(word: &str) -> (r: String)
    ensures
        r@ == toggled(word@),
{
    let n = word.unicode_len();
    if n == 0 {
        String::new()
    } else {
        let mut r = word.substring_char(0, 1).to_lowercase();
        let rest = word.substring_char(1, n).to_uppercase();
        r.append(rest.as_str());
        r
    }
}

/// `word` with its cased letters in lower and upper case in turn, the first
/// of them in upper case if `upper`; and whether the next cased letter
/// behind `word` is to be in upper case.
pub fn alternate(word: &str, upper: bool) -> (r: (String, bool))
    ensures
        r.0@ == alternated(word@, upper),
        r.1 == (upper != (cased_count(word@) % 2 == 1)),
{
    let chars = chars_of(word);
    let mut out = String::new();
    let mut up = upper;
    let mut i: usize = 0;
    while i < chars.len()
        invariant
            i <= chars.len(),
            chars@ == word@,
            out@ == alternated(chars@.take(i as int), upper),
            up == (upper != (cased_count(chars@.take(i as int)) % 2 == 1)),
        decreases chars.len() - i,
    {
        let c = chars[i];
        proof {
            let next = chars@.take(i + 1);
            assert(next.drop_last() =~= chars@.take(i as int));
        }
        if cased(c) {
            let mut one = String::new();
            one.push(c);
            let turned = if up {
                one.as_str().to_uppercase()
            } else {
                one.as_str().to_lowercase()
            };
            out.append(turned.as_str());
            up = !up;
        } else {
            out.push(c);
        }
        i += 1;
    }
    assert(chars@.take(i as int) =~= word@);
    (out, up)
}

/// The words of `words`, each cased as `pattern` asks.
pub fn case_words(words: &Vec<String>, pattern: Pattern) -> (r: Vec<String>)
    ensures
        r.deep_view() == cased_words(words.deep_view(), pattern),
{
    let ghost given = words.deep_view();
    let mut r: Vec<String> = Vec::new();
    let mut upper = false;
    let mut i: usize = 0;
    while i < words.len()
        invariant
            i <= words.len(),
            given == words.deep_view(),
            r@.len() == i,
            pattern is Alternating ==> upper == (letters_before(given, i as int) % 2 == 1),
            forall|j: int| 0 <= j < i ==> (#[trigger] r@[j])@ == cased_word(given, pattern, j),
        decreases words.len() - i,
    {
        let word = words[i].as_str();
        let done = match pattern {
            Pattern::Lowercase => word.to_lowercase(),
            Pattern::Uppercase => word.to_uppercase(),
            Pattern::Capital => capitalize(word),
            Pattern::Camel => if i == 0 {
                word.to_lowercase()
            } else {
                capitalize(word)
            },
            Pattern::Toggle => toggle(word),
            Pattern::Alternating => {
                let (turned, next) = alternate(word, upper);
                upper = next;
                turned
            },
        };
        r.push(done);
        i += 1;
    }
    r
}

/// The words of `words` one after the other, with `delimiter` between each
/// two of them.
pub fn join(words: &Vec<String>, delimiter: &str) -> (r: String)
    ensures
        r@ == join_spec(words.deep_view(), delimiter@),
{
    let ghost given = words.deep_view();
    let mut r = String::new();
    let mut i: usize = 0;
    while i < words.len()
        invariant
            i <= words.len(),
            given == words.deep_view(),
            r@ == join_spec(given.take(i as int), delimiter@),
        decreases words.len() - i,
    {
        proof {
            let next = given.take(i + 1);
            assert(next.drop_last() =~= given.take(i as int));
        }
        if i > 0 {
            r.append(delimiter);
        }
        r.append(words[i].as_str());
        i += 1;
    }
    assert(given.take(i as int) =~= given);
    r
}

/// The text that the words `words` make in the convention `case`: each word
/// cased, and the delimiter of the convention between each two of them.
pub fn render(words: &Vec<String>, case: Case) -> (r: String)
    ensures
        r@ == render_spec(words.deep_view(), case),
{
    let done = case_words(words, case.pattern());
    join(&done, case.delimiter())
}

} // verus!
