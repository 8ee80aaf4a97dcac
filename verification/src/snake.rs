//! The snake_case convention: lowercase words joined by single underscores.

use vstd::prelude::*;

use crate::internals;
use crate::internals::delim_segments;
use crate::internals::is_delimited_lower;
use crate::internals::is_lower_case_delimited;
use crate::internals::lower_tagged;
use crate::internals::render_lower_delimited;
use crate::internals::split_on_delimiter;
use crate::internals::words_view;
use crate::internals::write_lower_delimited;
use crate::internals::CaseValue;
use crate::internals::CaseValueView;
use crate::internals::SubCase;
use crate::internals::Word;
use crate::internals::WordView;

verus! {

/// A snake_case identifier, either as its original text or as its words.
#[derive(Clone, Debug)]
pub struct SnakeCase(pub(crate) CaseValue);

impl View for SnakeCase {
    type V = CaseValueView;

    closed spec fn view(&self) -> CaseValueView {
        self.0@
    }
}

/// The snake_case shape: lowercase-compatible alphanumeric text with single
/// inner underscores.
pub open spec fn snake_case_spec(s: Seq<char>) -> bool {
    is_delimited_lower(s, '_')
}

/// The words the snake_case segmenter yields: the fragments between
/// underscores, each tagged lowercase.
pub open spec fn snake_words(s: Seq<char>) -> Seq<WordView> {
    lower_tagged(delim_segments(s, '_', 0))
}

/// The words of a snake_case value, segmenting when it is still joined.
pub open spec fn snake_value_words(v: CaseValueView) -> Seq<WordView> {
    match v {
        CaseValueView::Words(ws) => ws,
        CaseValueView::Joined(s) => snake_words(s),
    }
}

/// The text a snake_case value renders to: a joined value verbatim, words
/// lowercase joined by underscores.
pub open spec fn snake_rendered(v: CaseValueView) -> Seq<char> {
    match v {
        CaseValueView::Joined(s) => s,
        CaseValueView::Words(ws) => render_lower_delimited(ws, '_'),
    }
}

impl crate::Case for SnakeCase {
    open spec fn is_case_spec(s: Seq<char>) -> bool {
        snake_case_spec(s)
    }

    fn str_is_case(source: &str) -> (r: bool) {
        is_lower_case_delimited(source, '_')
    }

    fn str_as_case_unchecked(source: &str) -> (r: Self) {
        SnakeCase(CaseValue::Joined(source.to_owned()))
    }
}

impl internals::Case for SnakeCase {
    open spec fn case_value(&self) -> CaseValueView {
        self@
    }

    open spec fn segmented(s: Seq<char>) -> Seq<WordView> {
        snake_words(s)
    }

    fn from_cased_words(words: Vec<Word>) -> (r: Self) {
        SnakeCase(CaseValue::Words(words))
    }

    fn to_cased_words(self) -> (r: Vec<Word>) {
        match self.0 {
            CaseValue::Words(words) => words,
            CaseValue::Joined(string) => {
                let ghost s = string@;
                let parts = split_on_delimiter(string.as_str(), '_');
                let ghost segs = delim_segments(s, '_', 0);
                let mut words: Vec<Word> = Vec::new();
                assert(words_view(words@) =~= snake_words(s).take(0));
                let mut i: usize = 0;
                while i < parts.len()
                    invariant
                        i <= parts.len(),
                        parts.len() == segs.len(),
                        segs == internals::segs_view(parts@),
                        segs == delim_segments(s, '_', 0),
                        snake_words(s).len() == segs.len(),
                        words_view(words@) == snake_words(s).take(i as int),
                    decreases parts.len() - i,
                {
                    let ghost pre = words@;
                    let wd = Word::lower_case(parts[i]);
                    proof {
                        assert(parts@[i as int]@ == segs[i as int]);
                        assert(snake_words(s)[i as int] == (WordView {
                            tag: SubCase::LowerCase,
                            text: segs[i as int],
                        }));
                    }
                    words.push(wd);
                    proof {
                        assert(words_view(words@) =~= words_view(pre).push(wd@));
                        assert(snake_words(s).take(i + 1) =~= snake_words(s).take(i as int).push(
                            snake_words(s)[i as int],
                        ));
                    }
                    i += 1;
                }
                proof {
                    assert(snake_words(s).take(parts.len() as int) =~= snake_words(s));
                }
                words
            }
        }
    }
}

impl SnakeCase {
    /// Appends this value's snake_case text to `out`: a joined value
    /// verbatim, words lowercase joined by underscores.
    pub fn write_rendered(&self, out: &mut String)
        ensures
            final(out)@ == old(out)@ + snake_rendered(self@),
    {
        match &self.0 {
            CaseValue::Joined(string) => {
                out.append(string.as_str());
            }
            CaseValue::Words(words) => {
                write_lower_delimited(words, out, '_');
            }
        }
    }

    /// This value's rendered text as an owned string.
    pub fn render_string(&self) -> (r: String)
        ensures
            r@ == snake_rendered(self@),
    {
        let mut out = String::new();
        self.write_rendered(&mut out);
        proof {
            assert(Seq::<char>::empty() + snake_rendered(self@) =~= snake_rendered(self@));
        }
        out
    }
}

impl SnakeCase {
    /// Builds a snake_case value from a camel one, taking over its word
    /// sequence unchanged, segmenting it first when it is still joined.
    pub fn from_camel(value: crate::CamelCase) -> (r: SnakeCase)
        ensures
            r@ == CaseValueView::Words(crate::camel::camel_value_words(value@)),
    {
        SnakeCase(CaseValue::Words(internals::Case::to_cased_words(value)))
    }

    /// Builds a snake_case value from a kebab one, taking over its word
    /// sequence unchanged, segmenting it first when it is still joined.
    pub fn from_kebab(value: crate::KebabCase) -> (r: SnakeCase)
        ensures
            r@ == CaseValueView::Words(crate::kebab::kebab_value_words(value@)),
    {
        SnakeCase(CaseValue::Words(internals::Case::to_cased_words(value)))
    }

    /// Builds a snake_case value from a pascal one, taking over its word
    /// sequence unchanged, segmenting it first when it is still joined.
    pub fn from_pascal(value: crate::PascalCase) -> (r: SnakeCase)
        ensures
            r@ == CaseValueView::Words(crate::pascal::pascal_value_words(value@)),
    {
        SnakeCase(CaseValue::Words(internals::Case::to_cased_words(value)))
    }
}

impl PartialEq for SnakeCase {
    /// Two snake_case values are equal exactly when their rendered text is.
    fn eq(&self, other: &SnakeCase) -> (r: bool) {
        let a = self.render_string();
        let b = other.render_string();
        a.eq(&b)
    }
}

impl vstd::std_specs::cmp::PartialEqSpecImpl for SnakeCase {
    open spec fn obeys_eq_spec() -> bool {
        true
    }

    open spec fn eq_spec(&self, other: &SnakeCase) -> bool {
        snake_rendered(self@) == snake_rendered(other@)
    }
}

impl Eq for SnakeCase {}

/// Round trip: whether kept joined or segmented into its words, a string
/// accepted by the snake_case classifier renders back to itself.
pub proof fn snake_round_trip(s: Seq<char>)
    requires
        snake_case_spec(s),
    ensures
        snake_rendered(CaseValueView::Joined(s)) == s,
        snake_rendered(CaseValueView::Words(snake_words(s))) == s,
{
    internals::lemma_delim_render_round_trip(s, '_');
}

} // verus!
