//! The camelCase convention: no separator, lowercase first character, every
//! later word opened by an uppercase character.

use vstd::prelude::*;

use crate::chars::is_alnum_char;
use crate::chars::is_lower_char;
use crate::internals;
use crate::internals::all_alnum;
use crate::internals::cap_tagged;
use crate::internals::render_pascal;
use crate::internals::split_words_on_uppercase;
use crate::internals::upper_segments;
use crate::internals::word_lower;
use crate::internals::words_view;
use crate::internals::CaseValue;
use crate::internals::CaseValueView;
use crate::internals::SubCase;
use crate::internals::Word;
use crate::internals::WordView;

verus! {

/// A camelCase identifier, either as its original text or as its words.
#[derive(Clone, Debug)]
pub struct CamelCase(pub(crate) CaseValue);

impl View for CamelCase {
    type V = CaseValueView;

    closed spec fn view(&self) -> CaseValueView {
        self.0@
    }
}

/// The camelCase shape: empty, or a lowercase first character and every
/// character alphanumeric.
pub open spec fn camel_case_spec(s: Seq<char>) -> bool {
    s.len() == 0 || (is_lower_char(s[0]) && all_alnum(s))
}

/// The words the camelCase segmenter yields: fragments split before every
/// uppercase character, the first tagged lowercase and the rest capitalized.
pub open spec fn camel_words(s: Seq<char>) -> Seq<WordView> {
    let segs = upper_segments(s, 0);
    if segs.len() == 0 {
        Seq::<WordView>::empty()
    } else {
        seq![WordView { tag: SubCase::LowerCase, text: segs[0] }] + cap_tagged(segs.drop_first())
    }
}

/// The words of a camelCase value, segmenting when it is still joined.
pub open spec fn camel_value_words(v: CaseValueView) -> Seq<WordView> {
    match v {
        CaseValueView::Words(ws) => ws,
        CaseValueView::Joined(s) => camel_words(s),
    }
}

/// The camelCase rendering of a word sequence: the first word lowercase,
/// every further word capitalized, no separator.
pub open spec fn render_camel(ws: Seq<WordView>) -> Seq<char> {
    if ws.len() == 0 {
        Seq::<char>::empty()
    } else {
        word_lower(ws[0]) + render_pascal(ws.drop_first())
    }
}

/// The text a camelCase value renders to: a joined value verbatim, words in
/// camelCase form.
pub open spec fn camel_rendered(v: CaseValueView) -> Seq<char> {
    match v {
        CaseValueView::Joined(s) => s,
        CaseValueView::Words(ws) => render_camel(ws),
    }
}

impl crate::Case for CamelCase {
    open spec fn is_case_spec(s: Seq<char>) -> bool {
        camel_case_spec(s)
    }

    fn str_is_case(source: &str) -> (r: bool) {
        let n = source.unicode_len();
        if n == 0 {
            return true;
        }
        let first = source.get_char(0);
        if !first.is_lowercase() {
            return false;
        }
        let mut i: usize = 0;
        while i < n
            invariant
                i <= n,
                n == source@.len(),
                forall|j: int| 0 <= j < i ==> is_alnum_char(#[trigger] source@[j]),
            decreases n - i,
        {
            let c = source.get_char(i);
            if !c.is_alphanumeric() {
                assert(!is_alnum_char(source@[i as int]));
                return false;
            }
            i += 1;
        }
        true
    }

    fn str_as_case_unchecked(source: &str) -> (r: Self) {
        CamelCase(CaseValue::Joined(source.to_owned()))
    }
}

impl internals::Case for CamelCase {
    open spec fn case_value(&self) -> CaseValueView {
        self@
    }

    open spec fn segmented(s: Seq<char>) -> Seq<WordView> {
        camel_words(s)
    }

    fn from_cased_words(words: Vec<Word>) -> (r: Self) {
        CamelCase(CaseValue::Words(words))
    }

    fn to_cased_words(self) -> (r: Vec<Word>) {
        match self.0 {
            CaseValue::Words(words) => words,
            CaseValue::Joined(string) => {
                let ghost s = string@;
                let parts = split_words_on_uppercase(string.as_str());
                let ghost segs = upper_segments(s, 0);
                let mut words: Vec<Word> = Vec::new();
                if parts.len() == 0 {
                    assert(words_view(words@) =~= camel_words(s));
                    return words;
                }
                words.push(Word::lower_case(parts[0]));
                assert(parts@[0]@ == segs[0]);
                assert(words_view(words@) =~= camel_words(s).take(1));
                let mut i: usize = 1;
                while i < parts.len()
                    invariant
                        1 <= i <= parts.len(),
                        parts.len() == segs.len(),
                        segs == internals::segs_view(parts@),
                        segs == upper_segments(s, 0),
                        segs.len() > 0,
                        camel_words(s).len() == segs.len(),
                        words_view(words@) == camel_words(s).take(i as int),
                    decreases parts.len() - i,
                {
                    let ghost pre = words@;
                    let wd = Word::capitalized(parts[i]);
                    proof {
                        assert(parts@[i as int]@ == segs[i as int]);
                        assert(camel_words(s)[i as int] == (WordView {
                            tag: SubCase::Capitalized,
                            text: segs[i as int],
                        }));
                    }
                    words.push(wd);
                    proof {
                        assert(words_view(words@) =~= words_view(pre).push(wd@));
                        assert(camel_words(s).take(i + 1) =~= camel_words(s).take(i as int).push(
                            camel_words(s)[i as int],
                        ));
                    }
                    i += 1;
                }
                proof {
                    assert(camel_words(s).take(parts.len() as int) =~= camel_words(s));
                }
                words
            }
        }
    }
}

impl CamelCase {
    /// Appends this value's camelCase text to `out`: a joined value
    /// verbatim, words with the first lowercase and the rest capitalized.
    pub fn write_rendered(&self, out: &mut String)
        ensures
            final(out)@ == old(out)@ + camel_rendered(self@),
    {
        match &self.0 {
            CaseValue::Joined(string) => {
                out.append(string.as_str());
            }
            CaseValue::Words(words) => {
                let ghost ws = words_view(words@);
                if words.len() == 0 {
                    assert(out@ =~= old(out)@ + camel_rendered(self@));
                    return;
                }
                words[0].write_lowercase(out);
                assert(out@ =~= old(out)@ + word_lower(ws[0]) + render_pascal(
                    ws.subrange(1, 1),
                ));
                let mut i: usize = 1;
                while i < words.len()
                    invariant
                        1 <= i <= words.len(),
                        words.len() == ws.len(),
                        ws == words_view(words@),
                        out@ == old(out)@ + word_lower(ws[0]) + render_pascal(
                            ws.subrange(1, i as int),
                        ),
                    decreases words.len() - i,
                {
                    words[i].write_capitalized(out);
                    proof {
                        assert(ws.subrange(1, i + 1) =~= ws.subrange(1, i as int).push(
                            ws[i as int],
                        ));
                        internals::lemma_render_pascal_push(
                            ws.subrange(1, i as int),
                            ws[i as int],
                        );
                        assert(out@ =~= old(out)@ + word_lower(ws[0]) + render_pascal(
                            ws.subrange(1, i + 1),
                        ));
                    }
                    i += 1;
                }
                proof {
                    assert(ws.subrange(1, words.len() as int) =~= ws.drop_first());
                    assert(out@ =~= old(out)@ + camel_rendered(self@));
                }
            }
        }
    }

    /// This value's rendered text as an owned string.
    pub fn render_string(&self) -> (r: String)
        ensures
            r@ == camel_rendered(self@),
    {
        let mut out = String::new();
        self.write_rendered(&mut out);
        proof {
            assert(Seq::<char>::empty() + camel_rendered(self@) =~= camel_rendered(self@));
        }
        out
    }
}

impl CamelCase {
    /// Builds a camelCase value from a kebab one, taking over its word
    /// sequence unchanged, segmenting it first when it is still joined.
    pub fn from_kebab(value: crate::KebabCase) -> (r: CamelCase)
        ensures
            r@ == CaseValueView::Words(crate::kebab::kebab_value_words(value@)),
    {
        CamelCase(CaseValue::Words(internals::Case::to_cased_words(value)))
    }

    /// Builds a camelCase value from a pascal one, taking over its word
    /// sequence unchanged, segmenting it first when it is still joined.
    pub fn from_pascal(value: crate::PascalCase) -> (r: CamelCase)
        ensures
            r@ == CaseValueView::Words(crate::pascal::pascal_value_words(value@)),
    {
        CamelCase(CaseValue::Words(internals::Case::to_cased_words(value)))
    }

    /// Builds a camelCase value from a snake one, taking over its word
    /// sequence unchanged, segmenting it first when it is still joined.
    pub fn from_snake(value: crate::SnakeCase) -> (r: CamelCase)
        ensures
            r@ == CaseValueView::Words(crate::snake::snake_value_words(value@)),
    {
        CamelCase(CaseValue::Words(internals::Case::to_cased_words(value)))
    }
}

impl PartialEq for CamelCase {
    /// Two camelCase values are equal exactly when their rendered text is.
    fn eq(&self, other: &CamelCase) -> (r: bool) {
        let a = self.render_string();
        let b = other.render_string();
        a.eq(&b)
    }
}

impl vstd::std_specs::cmp::PartialEqSpecImpl for CamelCase {
    open spec fn obeys_eq_spec() -> bool {
        true
    }

    open spec fn eq_spec(&self, other: &CamelCase) -> bool {
        camel_rendered(self@) == camel_rendered(other@)
    }
}

impl Eq for CamelCase {}

/// Round trip: whether kept joined or segmented into its words, a string
/// accepted by the camelCase classifier renders back to itself.
pub proof fn camel_round_trip(s: Seq<char>)
    requires
        camel_case_spec(s),
    ensures
        camel_rendered(CaseValueView::Joined(s)) == s,
        camel_rendered(CaseValueView::Words(camel_words(s))) == s,
{
    let segs = upper_segments(s, 0);
    if s.len() == 0 {
        assert(camel_words(s) =~= Seq::<WordView>::empty());
        assert(render_camel(camel_words(s)) =~= s);
    } else {
        let b = internals::next_upper(s, 1);
        internals::lemma_next_upper_bounds(s, 1);
        internals::lemma_upper_segments_render(s, b);
        let cw = camel_words(s);
        assert(cw[0] == (WordView { tag: SubCase::LowerCase, text: s.subrange(0, b) }));
        assert(cw.drop_first() =~= cap_tagged(upper_segments(s, b)));
        assert(render_camel(cw) =~= s.subrange(0, b) + s.subrange(b, s.len() as int));
        assert(render_camel(cw) =~= s);
    }
}

} // verus!
