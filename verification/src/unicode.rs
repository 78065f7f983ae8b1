//! What the standard library knows about Unicode, as far as this crate uses it.
//!
//! The case of a character and the case mappings of a text are tables of the
//! Unicode standard. They are not restated here: each gets a name, and the
//! standard library's function is taken to compute what the name stands for.

use vstd::prelude::*;

verus! {

/// Whether `c` has the Unicode property `Uppercase`: what `char::is_uppercase` returns.
pub uninterp spec fn is_upper(c: char) -> bool;

/// Whether `c` has the Unicode property `Lowercase`: what `char::is_lowercase` returns.
pub uninterp spec fn is_lower(c: char) -> bool;

/// The text that `str::to_uppercase` yields for the text `s`.
pub uninterp spec fn uppercase_of(s: Seq<char>) -> Seq<char>;

/// The text that `str::to_lowercase` yields for the text `s`.
pub uninterp spec fn lowercase_of(s: Seq<char>) -> Seq<char>;

/// `char::is_uppercase` depends on the character alone; its result is [`is_upper`].
pub assume_specification[ char::is_uppercase ](c: char) -> (b: bool)
    ensures
        b == is_upper(c),
;

/// `char::is_lowercase` depends on the character alone; its result is [`is_lower`].
pub assume_specification[ char::is_lowercase ](c: char) -> (b: bool)
    ensures
        b == is_lower(c),
;

/// `str::to_uppercase` depends on the text alone; its result is [`uppercase_of`].
pub assume_specification[ str::to_uppercase ](s: &str) -> (r: String)
    ensures
        r@ == uppercase_of(s@),
;

/// `str::to_lowercase` depends on the text alone; its result is [`lowercase_of`].
pub assume_specification[ str::to_lowercase ](s: &str) -> (r: String)
    ensures
        r@ == lowercase_of(s@),
;

/// `String::push` appends one character to the end of the string.
pub assume_specification[ String::push ](s: &mut String, c: char)
    ensures
        final(s)@ == old(s)@.push(c),
;

/// A letter that has a case.
pub open spec fn is_cased(c: char) -> bool {
    is_upper(c) || is_lower(c)
}

/// Whether `c` is an upper-case or a lower-case letter.
pub fn cased(c: char) -> (b: bool)
    ensures
        b == is_cased(c),
{
    c.is_uppercase() || c.is_lowercase()
}

/// The characters of `s`, in order.
pub fn chars_of(s: &str) -> (v: Vec<char>)
    ensures
        v@ == s@,
{
    let mut v: Vec<char> = Vec::new();
    for c in it: s.chars()
        invariant
            it.seq() == s@,
            v@ == it.seq().take(it.index()),
    {
        v.push(c);
    }
    v
}

/// The text made of the characters `v[from..to]`.
pub(crate) fn text_of(v: &Vec<char>, from: usize, to: usize) -> (s: String)
    requires
        from <= to <= v.len(),
    ensures
        s@ == v@.subrange(from as int, to as int),
{
    let mut s = String::new();
    let mut i: usize = from;
    while i < to
        invariant
            from <= i <= to <= v.len(),
            s@ == v@.subrange(from as int, i as int),
        decreases to - i,
    {
        s.push(v[i]);
        i += 1;
    }
    s
}

} // verus!
