//! Conversion as a method of the text itself.

use vstd::prelude::*;
use vstd::string::StringExecFns;
use crate::boundary::Ruleset;
use crate::case::Case;
use crate::render::{render, render_spec};
use crate::words::{segment, segment_spec};

verus! {

/// The rules by which a text is split: those of the convention that it is
/// declared to follow, or every rule where none is declared.
pub open spec fn rules_for(source: Option<Case>) -> Ruleset {
    match source {
        Some(case) => Ruleset::of_spec(case),
        None => Ruleset::maximal_spec(),
    }
}

/// `text`, declared to follow `source` if there is one, in the convention
/// `target`.
pub open spec fn converted(text: Seq<char>, source: Option<Case>, target: Case) -> Seq<char> {
    render_spec(segment_spec(text, rules_for(source)), target)
}

/// A text that can be converted into a naming convention.
pub trait Casing {
    /// The text to convert.
    spec fn text(&self) -> Seq<char>;

    /// The convention that the text is declared to follow, if any.
    spec fn source(&self) -> Option<Case>;

    /// The text in the convention `case`.
    fn to_case(&self, case: Case) -> (r: String)
        ensures
            r@ == converted(self.text(), self.source(), case),
    ;

    /// The same text, declared to follow the convention `case`. Nothing is
    /// split yet.
    fn from_case(&self, case: Case) -> (r: FromCasing)
        ensures
            r.name() == self.text(),
            r.declared() == case,
    ;
}

/// A text together with the convention that it is declared to follow.
pub struct FromCasing {
    name: String,
    case: Case,
}

impl FromCasing {
    /// The text.
    pub closed spec fn name(&self) -> Seq<char> {
        self.name@
    }

    /// The convention that the text is declared to follow.
    pub closed spec fn declared(&self) -> Case {
        self.case
    }

    /// The text `name`, declared to follow the convention `case`.
    pub fn new(name: String, case: Case) -> (r: FromCasing)
        ensures
            r.name() == name@,
            r.declared() == case,
    {
        FromCasing { name, case }
    }
}

impl Casing for str {
    open spec fn text(&self) -> Seq<char> {
        self@
    }

    open spec fn source(&self) -> Option<Case> {
        None
    }

    fn to_case(&self, case: Case) -> (r: String) {
        let words = segment(self, Ruleset::maximal());
        render(&words, case)
    }

    fn from_case(&self, case: Case) -> (r: FromCasing) {
        FromCasing::new(String::from_str(self), case)
    }
}

impl Casing for String {
    open spec fn text(&self) -> Seq<char> {
        self@
    }

    open spec fn source(&self) -> Option<Case> {
        None
    }

    fn to_case(&self, case: Case) -> (r: String) {
        let words = segment(self.as_str(), Ruleset::maximal());
        render(&words, case)
    }

    fn from_case(&self, case: Case) -> (r: FromCasing) {
        FromCasing::new(self.clone(), case)
    }
}

impl Casing for FromCasing {
    open spec fn text(&self) -> Seq<char> {
        self.name()
    }

    open spec fn source(&self) -> Option<Case> {
        Some(self.declared())
    }

    fn to_case(&self, case: Case) -> (r: String) {
        let words = segment(self.name.as_str(), Ruleset::of(self.case));
        render(&words, case)
    }

    fn from_case(&self, case: Case) -> (r: FromCasing) {
        FromCasing::new(self.name.clone(), case)
    }
}

} // verus!
