//! Trusted bridge to the Unicode case predicates and case mappings in std.
//!
//! Verus gives these std functions no specification. Each predicate or
//! mapping is a pure function of its argument, but the Unicode tables behind
//! it run to pages, so the result is given a name by an uninterpreted spec
//! function, and the executable item carries the contract that the std
//! documentation states.

use vstd::prelude::*;

verus! {

/// What `char::is_uppercase` returns: whether the character has the Unicode
/// `Uppercase` property.
pub uninterp spec fn is_upper_char(c: char) -> bool;

/// What `char::is_lowercase` returns: whether the character has the Unicode
/// `Lowercase` property.
pub uninterp spec fn is_lower_char(c: char) -> bool;

/// What `char::is_alphanumeric` returns: whether the character is alphabetic
/// or numeric.
pub uninterp spec fn is_alnum_char(c: char) -> bool;

/// What `char::to_lowercase` yields for one character, as a sequence: a
/// single character may lowercase to several.
pub uninterp spec fn char_lower(c: char) -> Seq<char>;

/// What `char::to_uppercase` yields for one character, as a sequence.
pub uninterp spec fn char_upper(c: char) -> Seq<char>;

/// What `str::to_lowercase` returns for a whole string. It is named apart
/// from `char_lower` because the full-string mapping handles a few characters
/// context-sensitively and need not equal the character-by-character map.
pub uninterp spec fn str_lower(s: Seq<char>) -> Seq<char>;

/// Relies on `char::is_uppercase`: the result depends on the character alone.
pub assume_specification[ char::is_uppercase ](c: char) -> (r: bool)
    ensures
        r == is_upper_char(c),
;

/// Relies on `char::is_lowercase`: the result depends on the character alone.
pub assume_specification[ char::is_lowercase ](c: char) -> (r: bool)
    ensures
        r == is_lower_char(c),
;

/// Relies on `char::is_alphanumeric`: the result depends on the character
/// alone.
pub assume_specification[ char::is_alphanumeric ](c: char) -> (r: bool)
    ensures
        r == is_alnum_char(c),
;

/// Relies on `char::to_lowercase`: the lowercase mapping of one character, a
/// function of the character alone.
#[verifier::external_body]
pub(crate) fn char_to_lowercase(c: char) -> (r: String)
    ensures
        r@ == char_lower(c),
{
    c.to_lowercase().collect()
}

/// Relies on `char::to_uppercase`: the uppercase mapping of one character, a
/// function of the character alone.
#[verifier::external_body]
pub(crate) fn char_to_uppercase(c: char) -> (r: String)
    ensures
        r@ == char_upper(c),
{
    c.to_uppercase().collect()
}

/// Relies on `str::to_lowercase`: the lowercase form of a string, a function
/// of its characters alone.
#[verifier::external_body]
pub(crate) fn str_to_lowercase(s: &str) -> (r: String)
    ensures
        r@ == str_lower(s@),
{
    s.to_lowercase()
}

/// Relies on `String::push`: appends the given character at the end.
pub assume_specification[ String::push ](s: &mut String, c: char)
    ensures
        final(s)@ == old(s)@.push(c),
;

} // verus!
