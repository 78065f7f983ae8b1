//! The naming conventions, and the two facts that define each of them: the
//! text that stands between two words, and the way the letters of a word are
//! cased.

use vstd::prelude::*;

verus! {

/// A naming convention.
#[derive(Clone, Copy, Debug, PartialEq, Eq, Structural, Hash)]
pub enum Case {
    /// `MY VARIABLE NAME`
    Upper,
    /// `my variable name`
    Lower,
    /// `My Variable Name`
    Title,
    /// `mY vARIABLE nAME`
    Toggle,
    /// `myVariableName`
    Camel,
    /// `MyVariableName`
    Pascal,
    /// `MyVariableName`, another name for [`Case::Pascal`]
    UpperCamel,
    /// `my_variable_name`
    Snake,
    /// `MY_VARIABLE_NAME`
    ScreamingSnake,
    /// `my-variable-name`
    Kebab,
    /// `MY-VARIABLE-NAME`
    Cobol,
    /// `My-Variable-Name`
    Train,
    /// `mY vArIaBlE nAmE`
    Alternating,
}

/// How the letters of the words are cased.
#[derive(Clone, Copy, Debug, PartialEq, Eq, Structural, Hash)]
pub enum Pattern {
    /// Every letter in lower case.
    Lowercase,
    /// Every letter in upper case.
    Uppercase,
    /// The first letter of each word in upper case, the others in lower case.
    Capital,
    /// The first word in lower case, the others as in [`Pattern::Capital`].
    Camel,
    /// The first letter of each word in lower case, the others in upper case.
    Toggle,
    /// Lower and upper case in turn over the letters of all the words, starting
    /// in lower case; a character that is no letter does not take a turn.
    Alternating,
}

impl Case {
    /// The text that the convention puts between two words.
    pub open spec fn delimiter_spec(self) -> Seq<char> {
        match self {
            Case::Upper | Case::Lower | Case::Title | Case::Toggle | Case::Alternating => seq![' '],
            Case::Snake | Case::ScreamingSnake => seq!['_'],
            Case::Kebab | Case::Cobol | Case::Train => seq!['-'],
            Case::Camel | Case::Pascal | Case::UpperCamel => Seq::empty(),
        }
    }

    /// The way the convention cases the letters of its words.
    pub open spec fn pattern_spec(self) -> Pattern {
        match self {
            Case::Lower | Case::Snake | Case::Kebab => Pattern::Lowercase,
            Case::Upper | Case::ScreamingSnake | Case::Cobol => Pattern::Uppercase,
            Case::Title | Case::Pascal | Case::UpperCamel | Case::Train => Pattern::Capital,
            Case::Camel => Pattern::Camel,
            Case::Toggle => Pattern::Toggle,
            Case::Alternating => Pattern::Alternating,
        }
    }

    /// Every convention, once each.
    pub open spec fn all_cases_spec() -> Seq<Case> {
        seq![
            Case::Upper,
            Case::Lower,
            Case::Title,
            Case::Toggle,
            Case::Camel,
            Case::Pascal,
            Case::UpperCamel,
            Case::Snake,
            Case::ScreamingSnake,
            Case::Kebab,
            Case::Cobol,
            Case::Train,
            Case::Alternating,
        ]
    }

    /// The text that the convention puts between two words: one space, one
    /// underscore, one hyphen, or nothing.
    pub fn delimiter(self) -> (d: &'static str)
        ensures
            d@ == self.delimiter_spec(),
    {
        proof {
            reveal_strlit(" ");
            reveal_strlit("_");
            reveal_strlit("-");
            reveal_strlit("");
        }
        let d = match self {
            Case::Upper | Case::Lower | Case::Title | Case::Toggle | Case::Alternating => " ",
            Case::Snake | Case::ScreamingSnake => "_",
            Case::Kebab | Case::Cobol | Case::Train => "-",
            Case::Camel | Case::Pascal | Case::UpperCamel => "",
        };
        d
    }

    /// The way the convention cases the letters of its words.
    pub fn pattern(self) -> (p: Pattern)
        ensures
            p == self.pattern_spec(),
    {
        match self {
            Case::Lower | Case::Snake | Case::Kebab => Pattern::Lowercase,
            Case::Upper | Case::ScreamingSnake | Case::Cobol => Pattern::Uppercase,
            Case::Title | Case::Pascal | Case::UpperCamel | Case::Train => Pattern::Capital,
            Case::Camel => Pattern::Camel,
            Case::Toggle => Pattern::Toggle,
            Case::Alternating => Pattern::Alternating,
        }
    }

    /// Every convention, once each.
    pub fn all_cases() -> (v: Vec<Case>)
        ensures
            v@ == Case::all_cases_spec(),
    {
        let v = vec![
            Case::Upper,
            Case::Lower,
            Case::Title,
            Case::Toggle,
            Case::Camel,
            Case::Pascal,
            Case::UpperCamel,
            Case::Snake,
            Case::ScreamingSnake,
            Case::Kebab,
            Case::Cobol,
            Case::Train,
            Case::Alternating,
        ];
        v
    }
}

/// The list of [`Case::all_cases`] leaves no convention out.
pub proof fn lemma_all_cases_is_exhaustive(case: Case)
    ensures
        Case::all_cases_spec().contains(case),
{
    let all = Case::all_cases_spec();
    match case {
        Case::Upper => assert(all[0] == case),
        Case::Lower => assert(all[1] == case),
        Case::Title => assert(all[2] == case),
        Case::Toggle => assert(all[3] == case),
        Case::Camel => assert(all[4] == case),
        Case::Pascal => assert(all[5] == case),
        Case::UpperCamel => assert(all[6] == case),
        Case::Snake => assert(all[7] == case),
        Case::ScreamingSnake => assert(all[8] == case),
        Case::Kebab => assert(all[9] == case),
        Case::Cobol => assert(all[10] == case),
        Case::Train => assert(all[11] == case),
        Case::Alternating => assert(all[12] == case),
    }
}

} // verus!
