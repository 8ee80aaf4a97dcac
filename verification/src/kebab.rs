//! The kebab-case convention: lowercase words joined by single hyphens.

use vstd::prelude::*;

use crate::internals;
use crate::internals::delim_segments;
use crate::internals::is_delimited_lower;
use crate::internals::is_lower_case_delimited;
use crate::internals::lower_tagged;
use crate::internals::render_lower_delimited;
use crate::internals::split_on_delimiter;
use crate::internals::words_view;
use crate::internals::write_lower_delimited;
use crate::internals::CaseValue;
use crate::internals::CaseValueView;
use crate::internals::SubCase;
use crate::internals::Word;
use crate::internals::WordView;

verus! {

/// A kebab-case identifier, either as its original text or as its words.
#[derive(Clone, Debug)]
pub struct KebabCase(pub(crate) CaseValue);

impl View for KebabCase {
    type V = CaseValueView;

    closed spec fn view(&self) -> CaseValueView {
        self.0@
    }
}

/// The kebab-case shape: lowercase-compatible alphanumeric text with single
/// inner hyphens.
pub open spec fn kebab_case_spec(s: Seq<char>) -> bool {
    is_delimited_lower(s, '-')
}

/// The words the kebab-case segmenter yields: the fragments between
/// hyphens, each tagged lowercase.
pub open spec fn kebab_words(s: Seq<char>) -> Seq<WordView> {
    lower_tagged(delim_segments(s, '-', 0))
}

/// The words of a kebab-case value, segmenting when it is still joined.
pub open spec fn kebab_value_words(v: CaseValueView) -> Seq<WordView> {
    match v {
        CaseValueView::Words(ws) => ws,
        CaseValueView::Joined(s) => kebab_words(s),
    }
}

/// The text a kebab-case value renders to: a joined value verbatim, words
/// lowercase joined by hyphens.
pub open spec fn kebab_rendered(v: CaseValueView) -> Seq<char> {
    match v {
        CaseValueView::Joined(s) => s,
        CaseValueView::Words(ws) => render_lower_delimited(ws, '-'),
    }
}

impl crate::Case for KebabCase {
    open spec fn is_case_spec(s: Seq<char>) -> bool {
        kebab_case_spec(s)
    }

    fn str_is_case(source: &str) -> (r: bool) {
        is_lower_case_delimited(source, '-')
    }

    fn str_as_case_unchecked(source: &str) -> (r: Self) {
        KebabCase(CaseValue::Joined(source.to_owned()))
    }
}

impl internals::Case for KebabCase {
    open spec fn case_value(&self) -> CaseValueView {
        self@
    }

    open spec fn segmented(s: Seq<char>) -> Seq<WordView> {
        kebab_words(s)
    }

    fn from_cased_words(words: Vec<Word>) -> (r: Self) {
        KebabCase(CaseValue::Words(words))
    }

    fn to_cased_words(self) -> (r: Vec<Word>) {
        match self.0 {
            CaseValue::Words(words) => words,
            CaseValue::Joined(string) => {
                let ghost s = string@;
                let parts = split_on_delimiter(string.as_str(), '-');
                let ghost segs = delim_segments(s, '-', 0);
                let mut words: Vec<Word> = Vec::new();
                assert(words_view(words@) =~= kebab_words(s).take(0));
                let mut i: usize = 0;
                while i < parts.len()
                    invariant
                        i <= parts.len(),
                        parts.len() == segs.len(),
                        segs == internals::segs_view(parts@),
                        segs == delim_segments(s, '-', 0),
                        kebab_words(s).len() == segs.len(),
                        words_view(words@) == kebab_words(s).take(i as int),
                    decreases parts.len() - i,
                {
                    let ghost pre = words@;
                    let wd = Word::lower_case(parts[i]);
                    proof {
                        assert(parts@[i as int]@ == segs[i as int]);
                        assert(kebab_words(s)[i as int] == (WordView {
                            tag: SubCase::LowerCase,
                            text: segs[i as int],
                        }));
                    }
                    words.push(wd);
                    proof {
                        assert(words_view(words@) =~= words_view(pre).push(wd@));
                        assert(kebab_words(s).take(i + 1) =~= kebab_words(s).take(i as int).push(
                            kebab_words(s)[i as int],
                        ));
                    }
                    i += 1;
                }
                proof {
                    assert(kebab_words(s).take(parts.len() as int) =~= kebab_words(s));
                }
                words
            }
        }
    }
}

impl KebabCase {
    /// Appends this value's kebab-case text to `out`: a joined value
    /// verbatim, words lowercase joined by hyphens.
    pub fn write_rendered(&self, out: &mut String)
        ensures
            final(out)@ == old(out)@ + kebab_rendered(self@),
    {
        match &self.0 {
            CaseValue::Joined(string) => {
                out.append(string.as_str());
            }
            CaseValue::Words(words) => {
                write_lower_delimited(words, out, '-');
            }
        }
    }

    /// This value's rendered text as an owned string.
    pub fn render_string(&self) -> (r: String)
        ensures
            r@ == kebab_rendered(self@),
    {
        let mut out = String::new();
        self.write_rendered(&mut out);
        proof {
            assert(Seq::<char>::empty() + kebab_rendered(self@) =~= kebab_rendered(self@));
        }
        out
    }
}

impl KebabCase {
    /// Builds a kebab-case value from a camel one, taking over its word
    /// sequence unchanged, segmenting it first when it is still joined.
    pub fn from_camel(value: crate::CamelCase) -> (r: KebabCase)
        ensures
            r@ == CaseValueView::Words(crate::camel::camel_value_words(value@)),
    {
        KebabCase(CaseValue::Words(internals::Case::to_cased_words(value)))
    }

    /// Builds a kebab-case value from a pascal one, taking over its word
    /// sequence unchanged, segmenting it first when it is still joined.
    pub fn from_pascal(value: crate::PascalCase) -> (r: KebabCase)
        ensures
            r@ == CaseValueView::Words(crate::pascal::pascal_value_words(value@)),
    {
        KebabCase(CaseValue::Words(internals::Case::to_cased_words(value)))
    }

    /// Builds a kebab-case value from a snake one, taking over its word
    /// sequence unchanged, segmenting it first when it is still joined.
    pub fn from_snake(value: crate::SnakeCase) -> (r: KebabCase)
        ensures
            r@ == CaseValueView::Words(crate::snake::snake_value_words(value@)),
    {
        KebabCase(CaseValue::Words(internals::Case::to_cased_words(value)))
    }
}

impl PartialEq for KebabCase {
    /// Two kebab-case values are equal exactly when their rendered text is.
    fn eq(&self, other: &KebabCase) -> (r: bool) {
        let a = self.render_string();
        let b = other.render_string();
        a.eq(&b)
    }
}

impl vstd::std_specs::cmp::PartialEqSpecImpl for KebabCase {
    open spec fn obeys_eq_spec() -> bool {
        true
    }

    open spec fn eq_spec(&self, other: &KebabCase) -> bool {
        kebab_rendered(self@) == kebab_rendered(other@)
    }
}

impl Eq for KebabCase {}

/// Round trip: whether kept joined or segmented into its words, a string
/// accepted by the kebab-case classifier renders back to itself.
pub proof fn kebab_round_trip(s: Seq<char>)
    requires
        kebab_case_spec(s),
    ensures
        kebab_rendered(CaseValueView::Joined(s)) == s,
        kebab_rendered(CaseValueView::Words(kebab_words(s))) == s,
{
    internals::lemma_delim_render_round_trip(s, '-');
}

} // verus!
