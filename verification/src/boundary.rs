//! Where a word may end and the next begin.
//!
//! A text is read as a sequence of character classes. A set of rules says at
//! which positions of that sequence a cut lies: at both ends of the text, on
//! either side of a delimiter, and where a rule on letters and digits finds a
//! boundary between two characters.

use vstd::prelude::*;
use crate::case::Case;
use crate::unicode::{is_lower, is_upper};

verus! {

/// What the rules need to know of a character.
#[derive(Clone, Copy, Debug, PartialEq, Eq, Structural)]
pub enum CharClass {
    /// An upper-case letter.
    Upper,
    /// A lower-case letter.
    Lower,
    /// One of the digits `0` to `9`.
    Digit,
    /// The space.
    Space,
    /// Tab, line feed, form feed or carriage return.
    Blank,
    /// The underscore.
    Underscore,
    /// The hyphen.
    Hyphen,
    /// Anything else: punctuation, symbols, letters without a case.
    Other,
}

impl CharClass {
    /// An upper-case or a lower-case letter.
    pub open spec fn is_letter(self) -> bool {
        self is Upper || self is Lower
    }
}

/// The class of the character `c`.
pub open spec fn class_of(c: char) -> CharClass {
    if c == ' ' {
        CharClass::Space
    } else if c == '\t' || c == '\n' || c == '\x0C' || c == '\r' {
        CharClass::Blank
    } else if c == '_' {
        CharClass::Underscore
    } else if c == '-' {
        CharClass::Hyphen
    } else if '0' <= c && c <= '9' {
        CharClass::Digit
    } else if is_upper(c) {
        CharClass::Upper
    } else if is_lower(c) {
        CharClass::Lower
    } else {
        CharClass::Other
    }
}

/// The classes of the characters of `text`, one for one.
pub open spec fn classes_of(text: Seq<char>) -> Seq<CharClass> {
    Seq::new(text.len(), |i: int| class_of(text[i]))
}

/// The class of the character `c`.
pub fn classify(c: char) -> (k: CharClass)
    ensures
        k == class_of(c),
{
    if c == ' ' {
        CharClass::Space
    } else if c == '\t' || c == '\n' || c == '\x0C' || c == '\r' {
        CharClass::Blank
    } else if c == '_' {
        CharClass::Underscore
    } else if c == '-' {
        CharClass::Hyphen
    } else if '0' <= c && c <= '9' {
        CharClass::Digit
    } else if c.is_uppercase() {
        CharClass::Upper
    } else if c.is_lowercase() {
        CharClass::Lower
    } else {
        CharClass::Other
    }
}

/// The classes of the characters of `chars`, one for one.
pub fn classify_all(chars: &Vec<char>) -> (classes: Vec<CharClass>)
    ensures
        classes@ == classes_of(chars@),
{
    let mut classes: Vec<CharClass> = Vec::new();
    let mut i: usize = 0;
    while i < chars.len()
        invariant
            i <= chars.len(),
            classes@ == classes_of(chars@.take(i as int)),
        decreases chars.len() - i,
    {
        classes.push(classify(chars[i]));
        i += 1;
    }
    classes
}

/// The boundary rules that are switched on.
///
/// A delimiter is a character that separates two words and belongs to
/// neither. The other three rules find a boundary between two characters
/// that both stay.
#[derive(Clone, Copy, Debug, PartialEq, Eq, Structural)]
pub struct Ruleset {
    /// The space is a delimiter.
    pub space: bool,
    /// The space, tab, line feed, form feed and carriage return are delimiters.
    pub whitespace: bool,
    /// The underscore is a delimiter.
    pub underscore: bool,
    /// The hyphen is a delimiter.
    pub hyphen: bool,
    /// A boundary lies between a lower-case letter and an upper-case letter
    /// that follows it.
    pub lower_upper: bool,
    /// Where two upper-case letters are followed by a lower-case letter, a
    /// boundary lies between the two upper-case letters.
    pub acronym: bool,
    /// A boundary lies between a letter and a digit, in either order.
    pub letter_digit: bool,
}

impl Ruleset {
    /// Every kind of rule, with the space, the underscore and the hyphen as
    /// delimiters: the rules for a text whose convention is not known.
    pub open spec fn maximal_spec() -> Ruleset {
        Ruleset {
            space: true,
            whitespace: false,
            underscore: true,
            hyphen: true,
            lower_upper: true,
            acronym: true,
            letter_digit: true,
        }
    }

    /// The rules by which a text written in the convention `case` separates
    /// its words.
    pub open spec fn of_spec(case: Case) -> Ruleset {
        let none = Ruleset {
            space: false,
            whitespace: false,
            underscore: false,
            hyphen: false,
            lower_upper: false,
            acronym: false,
            letter_digit: false,
        };
        match case {
            Case::Upper | Case::Lower | Case::Title | Case::Toggle | Case::Alternating => Ruleset {
                whitespace: true,
                ..none
            },
            Case::Snake | Case::ScreamingSnake => Ruleset { underscore: true, ..none },
            Case::Kebab | Case::Cobol | Case::Train => Ruleset { hyphen: true, ..none },
            Case::Camel | Case::Pascal | Case::UpperCamel => Ruleset {
                lower_upper: true,
                acronym: true,
                letter_digit: true,
                ..none
            },
        }
    }

    /// Whether a character of class `k` is a delimiter.
    pub open spec fn delimits(self, k: CharClass) -> bool {
        match k {
            CharClass::Space => self.space || self.whitespace,
            CharClass::Blank => self.whitespace,
            CharClass::Underscore => self.underscore,
            CharClass::Hyphen => self.hyphen,
            _ => false,
        }
    }

    /// Every kind of rule, with the space, the underscore and the hyphen as
    /// delimiters.
    pub fn maximal() -> (r: Ruleset)
        ensures
            r == Ruleset::maximal_spec(),
    {
        Ruleset {
            space: true,
            whitespace: false,
            underscore: true,
            hyphen: true,
            lower_upper: true,
            acronym: true,
            letter_digit: true,
        }
    }

    /// The rules by which a text written in the convention `case` separates
    /// its words: white space for the conventions that put a space between
    /// words, the underscore or the hyphen for those that put one of these,
    /// and the three rules on letters and digits for those that put nothing.
    pub fn of(case: Case) -> (r: Ruleset)
        ensures
            r == Ruleset::of_spec(case),
    {
        let none = Ruleset {
            space: false,
            whitespace: false,
            underscore: false,
            hyphen: false,
            lower_upper: false,
            acronym: false,
            letter_digit: false,
        };
        match case {
            Case::Upper | Case::Lower | Case::Title | Case::Toggle | Case::Alternating => Ruleset {
                whitespace: true,
                ..none
            },
            Case::Snake | Case::ScreamingSnake => Ruleset { underscore: true, ..none },
            Case::Kebab | Case::Cobol | Case::Train => Ruleset { hyphen: true, ..none },
            Case::Camel | Case::Pascal | Case::UpperCamel => Ruleset {
                lower_upper: true,
                acronym: true,
                letter_digit: true,
                ..none
            },
        }
    }

    /// Whether a character of class `k` is a delimiter.
    pub fn is_delimiter(&self, k: CharClass) -> (b: bool)
        ensures
            b == self.delimits(k),
    {
        match k {
            CharClass::Space => self.space || self.whitespace,
            CharClass::Blank => self.whitespace,
            CharClass::Underscore => self.underscore,
            CharClass::Hyphen => self.hyphen,
            _ => false,
        }
    }
}

/// Whether one of the rules on letters and digits finds a boundary between
/// the characters at `k - 1` and `k`.
pub open spec fn transition_at(classes: Seq<CharClass>, rules: Ruleset, k: int) -> bool {
    &&& 0 < k < classes.len()
    &&& {
        ||| rules.lower_upper && classes[k - 1] is Lower && classes[k] is Upper
        ||| rules.acronym && k + 1 < classes.len() && classes[k - 1] is Upper && classes[k] is Upper
            && classes[k + 1] is Lower
        ||| rules.letter_digit && classes[k - 1].is_letter() && classes[k] is Digit
        ||| rules.letter_digit && classes[k - 1] is Digit && classes[k].is_letter()
    }
}

/// Whether a word may end or begin at position `k`: at either end of the
/// text, on either side of a delimiter, and where a rule on letters and
/// digits finds a boundary.
pub open spec fn is_cut(classes: Seq<CharClass>, rules: Ruleset, k: int) -> bool {
    &&& 0 <= k <= classes.len()
    &&& {
        ||| k == 0
        ||| k == classes.len()
        ||| rules.delimits(classes[k - 1])
        ||| rules.delimits(classes[k])
        ||| transition_at(classes, rules, k)
    }
}

/// Whether a word begins at position `k`: a cut with a character behind it
/// that is no delimiter.
pub open spec fn starts_word(classes: Seq<CharClass>, rules: Ruleset, k: int) -> bool {
    &&& 0 <= k < classes.len()
    &&& !rules.delimits(classes[k])
    &&& is_cut(classes, rules, k)
}

/// Whether a word may end or begin at position `k` of `classes`.
pub fn cut_at(classes: &Vec<CharClass>, rules: Ruleset, k: usize) -> (b: bool)
    ensures
        b == is_cut(classes@, rules, k as int),
{
    let n = classes.len();
    if k > n {
        return false;
    }
    if k == 0 || k == n {
        return true;
    }
    let before = classes[k - 1];
    let here = classes[k];
    if rules.is_delimiter(before) || rules.is_delimiter(here) {
        return true;
    }
    let before_is_letter = before == CharClass::Upper || before == CharClass::Lower;
    let here_is_letter = here == CharClass::Upper || here == CharClass::Lower;
    if rules.lower_upper && before == CharClass::Lower && here == CharClass::Upper {
        return true;
    }
    if rules.letter_digit && before_is_letter && here == CharClass::Digit {
        return true;
    }
    if rules.letter_digit && before == CharClass::Digit && here_is_letter {
        return true;
    }
    rules.acronym && k + 1 < n && before == CharClass::Upper && here == CharClass::Upper
        && classes[k + 1] == CharClass::Lower
}

} // verus!
