//! Conversion of identifier strings between the common lexical casing
//! conventions: camelCase, PascalCase, snake_case and kebab-case.
//!
//! Each convention is a thin wrapper around a [`internals::CaseValue`]:
//! either the untouched source string, or a sequence of case-tagged words
//! produced by segmenting it. Classifying, segmenting and re-rendering are
//! verified against sequence-level specifications, and the round-trip laws
//! (a classified string renders back to itself; converting through another
//! convention and back preserves the rendered text) are proved.

pub mod camel;
pub mod chars;
pub mod internals;
pub mod kebab;
pub mod pascal;
pub mod snake;

pub use camel::CamelCase;
pub use kebab::KebabCase;
pub use pascal::PascalCase;
pub use snake::SnakeCase;

use vstd::prelude::*;

use crate::chars::is_alnum_char;
use crate::chars::is_lower_char;
use crate::chars::is_upper_char;
use crate::internals::delimited_char_ok;
use crate::internals::mixed_tagged;
use crate::internals::mixed_words;
use crate::internals::strings_view;
use crate::internals::CaseValueView;

verus! {

/// The string-level interface of the convention wrappers: classification and
/// construction from source text or from word fragments.
pub trait Case: internals::Case {
    /// Whether a string has this convention's shape.
    spec fn is_case_spec(s: Seq<char>) -> bool;

    /// Whether `source` conforms to this convention.
    fn str_is_case(source: &str) -> (r: bool)
        ensures
            r == Self::is_case_spec(source@),
    ;

    /// Wraps `source` without classifying it; the caller asserts that it
    /// already conforms. A malformed source only garbles rendered output.
    fn str_as_case_unchecked(source: &str) -> (r: Self)
        ensures
            r.case_value() == CaseValueView::Joined(source@),
    ;

    /// Classifies `source` and wraps it only when it conforms; `None` is a
    /// negative answer, not a fault.
    fn str_as_case(source: &str) -> (r: Option<Self>)
        ensures
            r is Some <==> Self::is_case_spec(source@),
            r matches Some(c) ==> c.case_value() == CaseValueView::Joined(source@),
    {
        if Self::str_is_case(source) {
            Some(Self::str_as_case_unchecked(source))
        } else {
            None
        }
    }

    /// Builds an instance from explicit word fragments, each stored as a
    /// `MixedCase` word.
    fn from_words(words: &Vec<String>) -> (r: Self)
        ensures
            r.case_value() == CaseValueView::Words(mixed_tagged(strings_view(words@))),
    {
        Self::from_cased_words(mixed_words(words))
    }
}

/// Cross-conversion closure for camelCase: converting a classified string to
/// any other convention and back leaves a word sequence that renders as the
/// original text.
pub proof fn camel_conversion_closure(s: Seq<char>)
    requires
        camel::camel_case_spec(s),
    ensures
        camel::camel_rendered(
            CaseValueView::Words(
                kebab::kebab_value_words(
                    CaseValueView::Words(camel::camel_value_words(CaseValueView::Joined(s))),
                ),
            ),
        ) == s,
        camel::camel_rendered(
            CaseValueView::Words(
                pascal::pascal_value_words(
                    CaseValueView::Words(camel::camel_value_words(CaseValueView::Joined(s))),
                ),
            ),
        ) == s,
        camel::camel_rendered(
            CaseValueView::Words(
                snake::snake_value_words(
                    CaseValueView::Words(camel::camel_value_words(CaseValueView::Joined(s))),
                ),
            ),
        ) == s,
{
    camel::camel_round_trip(s);
}

/// Cross-conversion closure for PascalCase, as for camelCase.
pub proof fn pascal_conversion_closure(s: Seq<char>)
    requires
        pascal::pascal_case_spec(s),
    ensures
        pascal::pascal_rendered(
            CaseValueView::Words(
                camel::camel_value_words(
                    CaseValueView::Words(pascal::pascal_value_words(CaseValueView::Joined(s))),
                ),
            ),
        ) == s,
        pascal::pascal_rendered(
            CaseValueView::Words(
                kebab::kebab_value_words(
                    CaseValueView::Words(pascal::pascal_value_words(CaseValueView::Joined(s))),
                ),
            ),
        ) == s,
        pascal::pascal_rendered(
            CaseValueView::Words(
                snake::snake_value_words(
                    CaseValueView::Words(pascal::pascal_value_words(CaseValueView::Joined(s))),
                ),
            ),
        ) == s,
{
    pascal::pascal_round_trip(s);
}

/// Cross-conversion closure for snake_case, as for camelCase.
pub proof fn snake_conversion_closure(s: Seq<char>)
    requires
        snake::snake_case_spec(s),
    ensures
        snake::snake_rendered(
            CaseValueView::Words(
                camel::camel_value_words(
                    CaseValueView::Words(snake::snake_value_words(CaseValueView::Joined(s))),
                ),
            ),
        ) == s,
        snake::snake_rendered(
            CaseValueView::Words(
                kebab::kebab_value_words(
                    CaseValueView::Words(snake::snake_value_words(CaseValueView::Joined(s))),
                ),
            ),
        ) == s,
        snake::snake_rendered(
            CaseValueView::Words(
                pascal::pascal_value_words(
                    CaseValueView::Words(snake::snake_value_words(CaseValueView::Joined(s))),
                ),
            ),
        ) == s,
{
    snake::snake_round_trip(s);
}

/// Cross-conversion closure for kebab-case, as for camelCase.
pub proof fn kebab_conversion_closure(s: Seq<char>)
    requires
        kebab::kebab_case_spec(s),
    ensures
        kebab::kebab_rendered(
            CaseValueView::Words(
                camel::camel_value_words(
                    CaseValueView::Words(kebab::kebab_value_words(CaseValueView::Joined(s))),
                ),
            ),
        ) == s,
        kebab::kebab_rendered(
            CaseValueView::Words(
                pascal::pascal_value_words(
                    CaseValueView::Words(kebab::kebab_value_words(CaseValueView::Joined(s))),
                ),
            ),
        ) == s,
        kebab::kebab_rendered(
            CaseValueView::Words(
                snake::snake_value_words(
                    CaseValueView::Words(kebab::kebab_value_words(CaseValueView::Joined(s))),
                ),
            ),
        ) == s,
{
    kebab::kebab_round_trip(s);
}

/// The empty string is accepted by every convention's classifier and renders
/// as the empty string in every convention, joined or segmented.
pub proof fn empty_string_accepted()
    ensures
        camel::camel_case_spec(Seq::<char>::empty()),
        pascal::pascal_case_spec(Seq::<char>::empty()),
        snake::snake_case_spec(Seq::<char>::empty()),
        kebab::kebab_case_spec(Seq::<char>::empty()),
        camel::camel_rendered(CaseValueView::Joined(Seq::<char>::empty()))
            == Seq::<char>::empty(),
        pascal::pascal_rendered(CaseValueView::Joined(Seq::<char>::empty()))
            == Seq::<char>::empty(),
        snake::snake_rendered(CaseValueView::Joined(Seq::<char>::empty()))
            == Seq::<char>::empty(),
        kebab::kebab_rendered(CaseValueView::Joined(Seq::<char>::empty()))
            == Seq::<char>::empty(),
        camel::camel_rendered(CaseValueView::Words(camel::camel_words(Seq::<char>::empty())))
            == Seq::<char>::empty(),
        pascal::pascal_rendered(
            CaseValueView::Words(pascal::pascal_words(Seq::<char>::empty())),
        ) == Seq::<char>::empty(),
        snake::snake_rendered(CaseValueView::Words(snake::snake_words(Seq::<char>::empty())))
            == Seq::<char>::empty(),
        kebab::kebab_rendered(CaseValueView::Words(kebab::kebab_words(Seq::<char>::empty())))
            == Seq::<char>::empty(),
{
    camel::camel_round_trip(Seq::<char>::empty());
    pascal::pascal_round_trip(Seq::<char>::empty());
    snake::snake_round_trip(Seq::<char>::empty());
    kebab::kebab_round_trip(Seq::<char>::empty());
}

/// A single lowercase alphanumeric character, other than the two delimiter
/// characters, is accepted by the camel, snake and kebab classifiers.
pub proof fn single_lowercase_char_accepted(c: char)
    requires
        is_lower_char(c),
        is_alnum_char(c),
        !is_upper_char(c),
        c != '_',
        c != '-',
    ensures
        camel::camel_case_spec(seq![c]),
        snake::snake_case_spec(seq![c]),
        kebab::kebab_case_spec(seq![c]),
{
    assert(seq![c][0] == c);
    assert forall|i: int| 0 <= i < seq![c].len() implies is_alnum_char(#[trigger] seq![c][i]) by {
        assert(seq![c][i] == c);
    }
    assert forall|i: int| 0 <= i < seq![c].len() implies delimited_char_ok(
        #[trigger] seq![c][i],
        '_',
    ) by {
        assert(seq![c][i] == c);
    }
    assert forall|i: int| 0 <= i < seq![c].len() implies delimited_char_ok(
        #[trigger] seq![c][i],
        '-',
    ) by {
        assert(seq![c][i] == c);
    }
}

/// A single uppercase alphanumeric character is accepted by the PascalCase
/// classifier.
pub proof fn single_uppercase_char_accepted_by_pascal(c: char)
    requires
        is_upper_char(c),
        is_alnum_char(c),
    ensures
        pascal::pascal_case_spec(seq![c]),
{
    assert(seq![c][0] == c);
    assert forall|i: int| 0 <= i < seq![c].len() implies is_alnum_char(#[trigger] seq![c][i]) by {
        assert(seq![c][i] == c);
    }
}

/// A single uppercase character is rejected by the delimiter-based
/// classifiers: their text must be lowercase-compatible.
pub proof fn single_uppercase_char_rejected(c: char)
    requires
        is_upper_char(c),
    ensures
        !snake::snake_case_spec(seq![c]),
        !kebab::kebab_case_spec(seq![c]),
{
    assert(seq![c][0] == c);
    if c != '_' {
        assert(!delimited_char_ok(seq![c][0], '_'));
    }
    if c != '-' {
        assert(!delimited_char_ok(seq![c][0], '-'));
    }
}

} // verus!
