//! The PascalCase convention: no separator, every word opened by an
//! uppercase character, the first included.

use vstd::prelude::*;

use crate::chars::is_alnum_char;
use crate::chars::is_upper_char;
use crate::internals;
use crate::internals::all_alnum;
use crate::internals::cap_tagged;
use crate::internals::render_pascal;
use crate::internals::split_words_on_uppercase;
use crate::internals::upper_segments;
use crate::internals::words_view;
use crate::internals::write_pascal_case;
use crate::internals::CaseValue;
use crate::internals::CaseValueView;
use crate::internals::SubCase;
use crate::internals::Word;
use crate::internals::WordView;

verus! {

/// A PascalCase identifier, either as its original text or as its words.
#[derive(Clone, Debug)]
pub struct PascalCase(pub(crate) CaseValue);

impl View for PascalCase {
    type V = CaseValueView;

    closed spec fn view(&self) -> CaseValueView {
        self.0@
    }
}

/// The PascalCase shape: empty, or an uppercase first character and every
/// character alphanumeric.
pub open spec fn pascal_case_spec(s: Seq<char>) -> bool {
    s.len() == 0 || (is_upper_char(s[0]) && all_alnum(s))
}

/// The words the PascalCase segmenter yields: fragments split before every
/// uppercase character, each tagged capitalized.
pub open spec fn pascal_words(s: Seq<char>) -> Seq<WordView> {
    cap_tagged(upper_segments(s, 0))
}

/// The words of a PascalCase value, segmenting when it is still joined.
pub open spec fn pascal_value_words(v: CaseValueView) -> Seq<WordView> {
    match v {
        CaseValueView::Words(ws) => ws,
        CaseValueView::Joined(s) => pascal_words(s),
    }
}

/// The text a PascalCase value renders to: a joined value verbatim, words
/// each capitalized with no separator.
pub open spec fn pascal_rendered(v: CaseValueView) -> Seq<char> {
    match v {
        CaseValueView::Joined(s) => s,
        CaseValueView::Words(ws) => render_pascal(ws),
    }
}

impl crate::Case for PascalCase {
    open spec fn is_case_spec(s: Seq<char>) -> bool {
        pascal_case_spec(s)
    }

    fn str_is_case(source: &str) -> (r: bool) {
        let n = source.unicode_len();
        if n == 0 {
            return true;
        }
        let first = source.get_char(0);
        if !first.is_uppercase() {
            return false;
        }
        let mut i: usize = 0;
        while i < n
            invariant
                i <= n,
                n == source@.len(),
                forall|j: int| 0 <= j < i ==> is_alnum_char(#[trigger] source@[j]),
            decreases n - i,
        {
            let c = source.get_char(i);
            if !c.is_alphanumeric() {
                assert(!is_alnum_char(source@[i as int]));
                return false;
            }
            i += 1;
        }
        true
    }

    fn str_as_case_unchecked(source: &str) -> (r: Self) {
        PascalCase(CaseValue::Joined(source.to_owned()))
    }
}

impl internals::Case for PascalCase {
    open spec fn case_value(&self) -> CaseValueView {
        self@
    }

    open spec fn segmented(s: Seq<char>) -> Seq<WordView> {
        pascal_words(s)
    }

    fn from_cased_words(words: Vec<Word>) -> (r: Self) {
        PascalCase(CaseValue::Words(words))
    }

    fn to_cased_words(self) -> (r: Vec<Word>) {
        match self.0 {
            CaseValue::Words(words) => words,
            CaseValue::Joined(string) => {
                let ghost s = string@;
                let parts = split_words_on_uppercase(string.as_str());
                let ghost segs = upper_segments(s, 0);
                let mut words: Vec<Word> = Vec::new();
                assert(words_view(words@) =~= pascal_words(s).take(0));
                let mut i: usize = 0;
                while i < parts.len()
                    invariant
                        i <= parts.len(),
                        parts.len() == segs.len(),
                        segs == internals::segs_view(parts@),
                        segs == upper_segments(s, 0),
                        pascal_words(s).len() == segs.len(),
                        words_view(words@) == pascal_words(s).take(i as int),
                    decreases parts.len() - i,
                {
                    let ghost pre = words@;
                    let wd = Word::capitalized(parts[i]);
                    proof {
                        assert(parts@[i as int]@ == segs[i as int]);
                        assert(pascal_words(s)[i as int] == (WordView {
                            tag: SubCase::Capitalized,
                            text: segs[i as int],
                        }));
                    }
                    words.push(wd);
                    proof {
                        assert(words_view(words@) =~= words_view(pre).push(wd@));
                        assert(pascal_words(s).take(i + 1) =~= pascal_words(s).take(
                            i as int,
                        ).push(pascal_words(s)[i as int]));
                    }
                    i += 1;
                }
                proof {
                    assert(pascal_words(s).take(parts.len() as int) =~= pascal_words(s));
                }
                words
            }
        }
    }
}

impl PascalCase {
    /// Appends this value's PascalCase text to `out`: a joined value
    /// verbatim, words each capitalized with no separator.
    pub fn write_rendered(&self, out: &mut String)
        ensures
            final(out)@ == old(out)@ + pascal_rendered(self@),
    {
        match &self.0 {
            CaseValue::Joined(string) => {
                out.append(string.as_str());
            }
            CaseValue::Words(words) => {
                write_pascal_case(words, out);
            }
        }
    }

    /// This value's rendered text as an owned string.
    pub fn render_string(&self) -> (r: String)
        ensures
            r@ == pascal_rendered(self@),
    {
        let mut out = String::new();
        self.write_rendered(&mut out);
        proof {
            assert(Seq::<char>::empty() + pascal_rendered(self@) =~= pascal_rendered(self@));
        }
        out
    }
}

impl PascalCase {
    /// Builds a PascalCase value from a camel one, taking over its word
    /// sequence unchanged, segmenting it first when it is still joined.
    pub fn from_camel(value: crate::CamelCase) -> (r: PascalCase)
        ensures
            r@ == CaseValueView::Words(crate::camel::camel_value_words(value@)),
    {
        PascalCase(CaseValue::Words(internals::Case::to_cased_words(value)))
    }

    /// Builds a PascalCase value from a kebab one, taking over its word
    /// sequence unchanged, segmenting it first when it is still joined.
    pub fn from_kebab(value: crate::KebabCase) -> (r: PascalCase)
        ensures
            r@ == CaseValueView::Words(crate::kebab::kebab_value_words(value@)),
    {
        PascalCase(CaseValue::Words(internals::Case::to_cased_words(value)))
    }

    /// Builds a PascalCase value from a snake one, taking over its word
    /// sequence unchanged, segmenting it first when it is still joined.
    pub fn from_snake(value: crate::SnakeCase) -> (r: PascalCase)
        ensures
            r@ == CaseValueView::Words(crate::snake::snake_value_words(value@)),
    {
        PascalCase(CaseValue::Words(internals::Case::to_cased_words(value)))
    }
}

impl PartialEq for PascalCase {
    /// Two PascalCase values are equal exactly when their rendered text is.
    fn eq(&self, other: &PascalCase) -> (r: bool) {
        let a = self.render_string();
        let b = other.render_string();
        a.eq(&b)
    }
}

impl vstd::std_specs::cmp::PartialEqSpecImpl for PascalCase {
    open spec fn obeys_eq_spec() -> bool {
        true
    }

    open spec fn eq_spec(&self, other: &PascalCase) -> bool {
        pascal_rendered(self@) == pascal_rendered(other@)
    }
}

impl Eq for PascalCase {}

/// Round trip: whether kept joined or segmented into its words, a string
/// accepted by the PascalCase classifier renders back to itself.
pub proof fn pascal_round_trip(s: Seq<char>)
    requires
        pascal_case_spec(s),
    ensures
        pascal_rendered(CaseValueView::Joined(s)) == s,
        pascal_rendered(CaseValueView::Words(pascal_words(s))) == s,
{
    internals::lemma_upper_segments_render(s, 0);
    assert(s.subrange(0, s.len() as int) =~= s);
}

} // verus!
