//! The word-segmentation and re-joining engine shared by every convention:
//! case-tagged words, classifier and segmenter specifications with their
//! executable forms, and the word-level renderers.

use vstd::prelude::*;
use crate::chars::char_lower;
use crate::chars::char_to_lowercase;
use crate::chars::char_to_uppercase;
use crate::chars::char_upper;
use crate::chars::is_alnum_char;
use crate::chars::is_lower_char;
use crate::chars::is_upper_char;
use crate::chars::str_lower;
use crate::chars::str_to_lowercase;

verus! {

/// The observed sub-casing of one word's letters. It decides how the word is
/// normalised when rendered under a convention.
#[derive(Clone, Copy, Debug)]
pub enum SubCase {
    /// Every letter lowercase.
    LowerCase,
    /// Every letter uppercase.
    UpperCase,
    /// First letter uppercase, the rest lowercase.
    Capitalized,
    /// Anything else; the generic bucket.
    MixedCase,
}

/// The mathematical value of a [`Word`]: its tag and its characters.
pub struct WordView {
    pub tag: SubCase,
    pub text: Seq<char>,
}

/// One lexical token of an identifier, tagged with the sub-casing its
/// letters are taken to have. The tag is supplied by the caller and is not
/// an invariant of the type: an ill-matched tag only garbles rendered
/// output, never anything worse (see [`Word::is_valid`]).
#[derive(Clone, Debug)]
pub struct Word {
    tag: SubCase,
    text: String,
}

impl View for Word {
    type V = WordView;

    closed spec fn view(&self) -> WordView {
        WordView { tag: self.tag, text: self.text@ }
    }
}

/// The views of a sequence of words.
pub open spec fn words_view(ws: Seq<Word>) -> Seq<WordView> {
    ws.map_values(|w: Word| w@)
}

/// Whether a word's tag agrees with the actual casing of its text.
pub open spec fn word_valid(w: WordView) -> bool {
    match w.tag {
        SubCase::LowerCase => forall|i: int|
            0 <= i < w.text.len() ==> !is_upper_char(#[trigger] w.text[i]),
        SubCase::UpperCase => forall|i: int|
            0 <= i < w.text.len() ==> !is_lower_char(#[trigger] w.text[i]),
        SubCase::Capitalized => w.text.len() == 0 || (!is_lower_char(w.text[0])
            && forall|i: int| 1 <= i < w.text.len() ==> !is_upper_char(#[trigger] w.text[i])),
        SubCase::MixedCase => true,
    }
}

/// The lowercase rendering of a word: a `LowerCase` word is copied verbatim,
/// a `Capitalized` word has only its first character mapped, and the other
/// tags lowercase the whole text.
pub open spec fn word_lower(w: WordView) -> Seq<char> {
    match w.tag {
        SubCase::LowerCase => w.text,
        SubCase::UpperCase => str_lower(w.text),
        SubCase::MixedCase => str_lower(w.text),
        SubCase::Capitalized => if w.text.len() == 0 {
            Seq::<char>::empty()
        } else {
            char_lower(w.text[0]) + w.text.drop_first()
        },
    }
}

/// The capitalized rendering of a word: a `Capitalized` word is copied
/// verbatim, a `LowerCase` word has only its first character mapped, and the
/// other tags uppercase the first character and lowercase the remainder.
pub open spec fn word_capitalized(w: WordView) -> Seq<char> {
    match w.tag {
        SubCase::Capitalized => w.text,
        SubCase::LowerCase => if w.text.len() == 0 {
            Seq::<char>::empty()
        } else {
            char_upper(w.text[0]) + w.text.drop_first()
        },
        SubCase::UpperCase => if w.text.len() == 0 {
            Seq::<char>::empty()
        } else {
            char_upper(w.text[0]) + str_lower(w.text.drop_first())
        },
        SubCase::MixedCase => if w.text.len() == 0 {
            Seq::<char>::empty()
        } else {
            char_upper(w.text[0]) + str_lower(w.text.drop_first())
        },
    }
}

impl Word {
    /// A word whose letters the caller asserts are all lowercase.
    pub fn lower_case(input: &str) -> (w: Word)
        ensures
            w@ == (WordView { tag: SubCase::LowerCase, text: input@ }),
    {
        Word { tag: SubCase::LowerCase, text: input.to_owned() }
    }

    /// A word whose letters the caller asserts are all uppercase.
    pub fn upper_case(input: &str) -> (w: Word)
        ensures
            w@ == (WordView { tag: SubCase::UpperCase, text: input@ }),
    {
        Word { tag: SubCase::UpperCase, text: input.to_owned() }
    }

    /// A word whose letters follow no particular pattern.
    pub fn mixed_case(input: &str) -> (w: Word)
        ensures
            w@ == (WordView { tag: SubCase::MixedCase, text: input@ }),
    {
        Word { tag: SubCase::MixedCase, text: input.to_owned() }
    }

    /// A word whose first letter the caller asserts is uppercase, the rest
    /// lowercase.
    pub fn capitalized(input: &str) -> (w: Word)
        ensures
            w@ == (WordView { tag: SubCase::Capitalized, text: input@ }),
    {
        Word { tag: SubCase::Capitalized, text: input.to_owned() }
    }

    /// Whether the tag agrees with the actual casing of the text. A word is
    /// normally built from text already in the tagged case; this check is
    /// useful in debugging.
    pub fn is_valid(&self) -> (r: bool)
        ensures
            r == word_valid(self@),
    {
        match self.tag {
            SubCase::MixedCase => true,
            SubCase::LowerCase => {
                let n = self.text.as_str().unicode_len();
                let mut i: usize = 0;
                while i < n
                    invariant
                        self@.tag is LowerCase,
                        i <= n,
                        n == self.text@.len(),
                        forall|j: int| 0 <= j < i ==> !is_upper_char(#[trigger] self.text@[j]),
                    decreases n - i,
                {
                    let c = self.text.as_str().get_char(i);
                    if c.is_uppercase() {
                        assert(is_upper_char(self@.text[i as int]));
                        return false;
                    }
                    i += 1;
                }
                true
            }
            SubCase::UpperCase => {
                let n = self.text.as_str().unicode_len();
                let mut i: usize = 0;
                while i < n
                    invariant
                        self@.tag is UpperCase,
                        i <= n,
                        n == self.text@.len(),
                        forall|j: int| 0 <= j < i ==> !is_lower_char(#[trigger] self.text@[j]),
                    decreases n - i,
                {
                    let c = self.text.as_str().get_char(i);
                    if c.is_lowercase() {
                        assert(is_lower_char(self@.text[i as int]));
                        return false;
                    }
                    i += 1;
                }
                true
            }
            SubCase::Capitalized => {
                let n = self.text.as_str().unicode_len();
                if n == 0 {
                    return true;
                }
                let first = self.text.as_str().get_char(0);
                if first.is_lowercase() {
                    assert(is_lower_char(self@.text[0]));
                    return false;
                }
                let mut i: usize = 1;
                while i < n
                    invariant
                        self@.tag is Capitalized,
                        1 <= i <= n,
                        n == self.text@.len(),
                        !is_lower_char(self@.text[0]),
                        forall|j: int| 1 <= j < i ==> !is_upper_char(#[trigger] self.text@[j]),
                    decreases n - i,
                {
                    let c = self.text.as_str().get_char(i);
                    if c.is_uppercase() {
                        assert(is_upper_char(self@.text[i as int]));
                        return false;
                    }
                    i += 1;
                }
                true
            }
        }
    }

    /// Appends the lowercase rendering of this word to `out`.
    pub fn write_lowercase(&self, out: &mut String)
        ensures
            final(out)@ == old(out)@ + word_lower(self@),
    {
        match self.tag {
            SubCase::LowerCase => {
                out.append(self.text.as_str());
            }
            SubCase::UpperCase => {
                let lowered = str_to_lowercase(self.text.as_str());
                out.append(lowered.as_str());
            }
            SubCase::MixedCase => {
                let lowered = str_to_lowercase(self.text.as_str());
                out.append(lowered.as_str());
            }
            SubCase::Capitalized => {
                let n = self.text.as_str().unicode_len();
                if n == 0 {
                    assert(out@ =~= old(out)@ + word_lower(self@));
                } else {
                    let mapped = char_to_lowercase(self.text.as_str().get_char(0));
                    out.append(mapped.as_str());
                    let rest = self.text.as_str().substring_char(1, n);
                    out.append(rest);
                    assert(out@ =~= old(out)@ + word_lower(self@));
                }
            }
        }
    }

    /// Appends the capitalized rendering of this word to `out`.
    pub fn write_capitalized(&self, out: &mut String)
        ensures
            final(out)@ == old(out)@ + word_capitalized(self@),
    {
        match self.tag {
            SubCase::Capitalized => {
                out.append(self.text.as_str());
            }
            SubCase::LowerCase => {
                let n = self.text.as_str().unicode_len();
                if n == 0 {
                    assert(out@ =~= old(out)@ + word_capitalized(self@));
                } else {
                    let mapped = char_to_uppercase(self.text.as_str().get_char(0));
                    out.append(mapped.as_str());
                    let rest = self.text.as_str().substring_char(1, n);
                    out.append(rest);
                    assert(out@ =~= old(out)@ + word_capitalized(self@));
                }
            }
            SubCase::UpperCase => {
                self.write_capitalized_mixed(out);
            }
            SubCase::MixedCase => {
                self.write_capitalized_mixed(out);
            }
        }
    }

    /// Uppercases the first character and lowercases the remainder; the
    /// shared path of [`Word::write_capitalized`] for the `UpperCase` and
    /// `MixedCase` tags.
    fn write_capitalized_mixed(&self, out: &mut String)
        requires
            self@.tag is UpperCase || self@.tag is MixedCase,
        ensures
            final(out)@ == old(out)@ + word_capitalized(self@),
    {
        let n = self.text.as_str().unicode_len();
        if n == 0 {
            assert(out@ =~= old(out)@ + word_capitalized(self@));
        } else {
            let mapped = char_to_uppercase(self.text.as_str().get_char(0));
            out.append(mapped.as_str());
            let rest = self.text.as_str().substring_char(1, n);
            let lowered = str_to_lowercase(rest);
            out.append(lowered.as_str());
            assert(out@ =~= old(out)@ + word_capitalized(self@));
        }
    }
}

// ----- classifiers -----

/// Every character of the string is alphanumeric.
pub open spec fn all_alnum(s: Seq<char>) -> bool {
    forall|i: int| 0 <= i < s.len() ==> is_alnum_char(#[trigger] s[i])
}

/// A character a delimiter-based convention accepts besides the delimiter:
/// alphanumeric and not uppercase. Rejecting uppercase rather than requiring
/// lowercase keeps scripts without a case distinction acceptable.
pub open spec fn delimited_char_ok(c: char, delim: char) -> bool {
    c == delim || (is_alnum_char(c) && !is_upper_char(c))
}

/// The shape of a delimiter-based convention: every character is either the
/// delimiter or lowercase-compatible alphanumeric, and the delimiter neither
/// starts nor ends the string nor appears twice in a row. The empty string
/// conforms.
pub open spec fn is_delimited_lower(s: Seq<char>, delim: char) -> bool {
    &&& forall|i: int| 0 <= i < s.len() ==> delimited_char_ok(#[trigger] s[i], delim)
    &&& forall|i: int| 0 < i < s.len() ==> !(s[i - 1] == delim && #[trigger] s[i] == delim)
    &&& s.len() > 0 ==> s[0] != delim
    &&& s.len() > 0 ==> s[s.len() - 1] != delim
}

/// Whether `source` is lowercase-compatible text split by single `delim`
/// characters: no leading, trailing or doubled delimiter, and no uppercase
/// or non-alphanumeric character anywhere else.
pub fn is_lower_case_delimited(source: &str, delim: char) -> (r: bool)
    ensures
        r == is_delimited_lower(source@, delim),
{
    let n = source.unicode_len();
    let mut delim_allowed = false;
    let mut i: usize = 0;
    while i < n
        invariant
            i <= n,
            n == source@.len(),
            forall|j: int| 0 <= j < i ==> delimited_char_ok(#[trigger] source@[j], delim),
            forall|j: int| 0 < j < i ==> !(source@[j - 1] == delim && #[trigger] source@[j] == delim),
            i > 0 ==> source@[0] != delim,
            delim_allowed == (i > 0 && source@[i - 1] != delim),
        decreases n - i,
    {
        let ch = source.get_char(i);
        if ch == delim {
            if delim_allowed {
                delim_allowed = false;
            } else {
                if i == 0 {
                    assert(source@[0] == delim);
                } else {
                    assert(source@[i - 1] == delim && source@[i as int] == delim);
                }
                return false;
            }
        } else if !ch.is_alphanumeric() || ch.is_uppercase() {
            assert(!delimited_char_ok(source@[i as int], delim));
            return false;
        } else {
            delim_allowed = true;
        }
        i += 1;
    }
    if n == 0 {
        true
    } else {
        let last = source.get_char(n - 1);
        last != delim
    }
}

// ----- segmentation -----

/// The first position at or after `i` holding the delimiter, or the length
/// of the string when there is none.
pub open spec fn next_delim(s: Seq<char>, delim: char, i: int) -> int
    decreases s.len() - i,
{
    if i < 0 || i >= s.len() {
        s.len() as int
    } else if s[i] == delim {
        i
    } else {
        next_delim(s, delim, i + 1)
    }
}

pub proof fn lemma_next_delim_bounds(s: Seq<char>, delim: char, i: int)
    requires
        0 <= i <= s.len(),
    ensures
        i <= next_delim(s, delim, i) <= s.len(),
        next_delim(s, delim, i) < s.len() ==> s[next_delim(s, delim, i)] == delim,
        forall|j: int| i <= j < next_delim(s, delim, i) ==> #[trigger] s[j] != delim,
    decreases s.len() - i,
{
    if i < s.len() && s[i] != delim {
        lemma_next_delim_bounds(s, delim, i + 1);
    }
}

/// Position `k` is the next delimiter at or after `from` when no earlier
/// position holds one.
pub proof fn lemma_next_delim_is(s: Seq<char>, delim: char, from: int, k: int)
    requires
        0 <= from <= k <= s.len(),
        forall|j: int| from <= j < k ==> #[trigger] s[j] != delim,
        k == s.len() || s[k] == delim,
    ensures
        next_delim(s, delim, from) == k,
    decreases k - from,
{
    if from < k {
        lemma_next_delim_is(s, delim, from + 1, k);
    }
}

/// The fragments of `s` from `start` on, split on the delimiter. Empty
/// fragments are kept, so an empty remainder still yields one fragment, as
/// splitting a string does.
pub open spec fn delim_segments(s: Seq<char>, delim: char, start: int) -> Seq<Seq<char>>
    decreases s.len() - start,
    via delim_segments_decreases
{
    let j = next_delim(s, delim, start);
    if j >= s.len() {
        seq![s.subrange(start, s.len() as int)]
    } else {
        seq![s.subrange(start, j)] + delim_segments(s, delim, j + 1)
    }
}

#[via_fn]
proof fn delim_segments_decreases(s: Seq<char>, delim: char, start: int) {
    if 0 <= start <= s.len() {
        lemma_next_delim_bounds(s, delim, start);
    }
}

/// The first position at or after `i` holding an uppercase character, or the
/// length of the string when there is none.
pub open spec fn next_upper(s: Seq<char>, i: int) -> int
    decreases s.len() - i,
{
    if i < 0 || i >= s.len() {
        s.len() as int
    } else if is_upper_char(s[i]) {
        i
    } else {
        next_upper(s, i + 1)
    }
}

pub proof fn lemma_next_upper_bounds(s: Seq<char>, i: int)
    requires
        0 <= i <= s.len(),
    ensures
        i <= next_upper(s, i) <= s.len(),
        next_upper(s, i) < s.len() ==> is_upper_char(s[next_upper(s, i)]),
        forall|j: int| i <= j < next_upper(s, i) ==> !is_upper_char(#[trigger] s[j]),
    decreases s.len() - i,
{
    if i < s.len() && !is_upper_char(s[i]) {
        lemma_next_upper_bounds(s, i + 1);
    }
}

/// Position `k` is the next uppercase boundary at or after `from` when no
/// earlier position holds one.
pub proof fn lemma_next_upper_is(s: Seq<char>, from: int, k: int)
    requires
        0 <= from <= k <= s.len(),
        forall|j: int| from <= j < k ==> !is_upper_char(#[trigger] s[j]),
        k == s.len() || is_upper_char(s[k]),
    ensures
        next_upper(s, from) == k,
    decreases k - from,
{
    if from < k {
        lemma_next_upper_is(s, from + 1, k);
    }
}

/// The fragments of `s` from `start` on, split before every uppercase
/// character past `start`. The position `start` itself never opens a new
/// boundary, so the first fragment always has at least one character; an
/// exhausted remainder yields no fragment.
pub open spec fn upper_segments(s: Seq<char>, start: int) -> Seq<Seq<char>>
    decreases s.len() - start,
    via upper_segments_decreases
{
    if start >= s.len() {
        Seq::<Seq<char>>::empty()
    } else {
        let b = next_upper(s, start + 1);
        seq![s.subrange(start, b)] + upper_segments(s, b)
    }
}

#[via_fn]
proof fn upper_segments_decreases(s: Seq<char>, start: int) {
    if start < s.len() && 0 <= start + 1 {
        lemma_next_upper_bounds(s, start + 1);
    }
}

/// The views of a sequence of borrowed fragments.
pub open spec fn segs_view(rs: Seq<&str>) -> Seq<Seq<char>> {
    rs.map_values(|w: &str| w@)
}

/// The views of a sequence of owned strings.
pub open spec fn strings_view(ss: Seq<String>) -> Seq<Seq<char>> {
    ss.map_values(|t: String| t@)
}

/// Splits `source` on the delimiter character, keeping empty fragments: the
/// empty string yields one empty fragment.
pub fn split_on_delimiter<'a>(source: &'a str, delim: char) -> (r: Vec<&'a str>)
    ensures
        segs_view(r@) == delim_segments(source@, delim, 0),
{
    let n = source.unicode_len();
    let mut result: Vec<&str> = Vec::new();
    let mut word_start: usize = 0;
    let mut i: usize = 0;
    assert(segs_view(result@) + delim_segments(source@, delim, 0) =~= delim_segments(
        source@,
        delim,
        0,
    ));
    while i < n
        invariant
            word_start <= i <= n,
            n == source@.len(),
            forall|j: int| word_start <= j < i ==> #[trigger] source@[j] != delim,
            delim_segments(source@, delim, 0) == segs_view(result@) + delim_segments(
                source@,
                delim,
                word_start as int,
            ),
        decreases n - i,
    {
        let ch = source.get_char(i);
        if ch == delim {
            let ghost pre = result@;
            let w = source.substring_char(word_start, i);
            result.push(w);
            proof {
                lemma_next_delim_is(source@, delim, word_start as int, i as int);
                assert(segs_view(result@) =~= segs_view(pre).push(w@));
                assert(segs_view(result@) + delim_segments(source@, delim, i + 1) =~= segs_view(
                    pre,
                ) + delim_segments(source@, delim, word_start as int));
            }
            word_start = i + 1;
        }
        i += 1;
    }
    let ghost pre = result@;
    let w = source.substring_char(word_start, n);
    result.push(w);
    proof {
        lemma_next_delim_is(source@, delim, word_start as int, n as int);
        assert(segs_view(result@) =~= segs_view(pre).push(w@));
        assert(segs_view(result@) =~= segs_view(pre) + delim_segments(
            source@,
            delim,
            word_start as int,
        ));
    }
    result
}

/// Splits `source` into words before every uppercase character; the first
/// character never opens a new word, so consecutive uppercase characters
/// each form a single-character word. The empty string yields no words.
pub fn split_words_on_uppercase<'a>(source: &'a str) -> (r: Vec<&'a str>)
    ensures
        segs_view(r@) == upper_segments(source@, 0),
{
    let n = source.unicode_len();
    let mut result: Vec<&str> = Vec::new();
    if n == 0 {
        assert(segs_view(result@) =~= upper_segments(source@, 0));
        return result;
    }
    let mut word_start: usize = 0;
    let mut i: usize = 1;
    assert(segs_view(result@) + upper_segments(source@, 0) =~= upper_segments(source@, 0));
    while i < n
        invariant
            word_start < i <= n,
            n == source@.len(),
            forall|j: int| word_start < j < i ==> !is_upper_char(#[trigger] source@[j]),
            upper_segments(source@, 0) == segs_view(result@) + upper_segments(
                source@,
                word_start as int,
            ),
        decreases n - i,
    {
        let ch = source.get_char(i);
        if ch.is_uppercase() {
            let ghost pre = result@;
            let w = source.substring_char(word_start, i);
            result.push(w);
            proof {
                lemma_next_upper_is(source@, word_start as int + 1, i as int);
                assert(segs_view(result@) =~= segs_view(pre).push(w@));
                assert(segs_view(result@) + upper_segments(source@, i as int) =~= segs_view(pre)
                    + upper_segments(source@, word_start as int));
            }
            word_start = i;
        }
        i += 1;
    }
    let ghost pre = result@;
    let w = source.substring_char(word_start, n);
    result.push(w);
    proof {
        lemma_next_upper_is(source@, word_start as int + 1, n as int);
        assert(upper_segments(source@, n as int) =~= Seq::<Seq<char>>::empty());
        assert(segs_view(result@) =~= segs_view(pre).push(w@));
        assert(segs_view(result@) =~= segs_view(pre) + upper_segments(
            source@,
            word_start as int,
        ));
    }
    result
}

// ----- tagged word sequences -----

/// Every fragment as a `LowerCase`-tagged word.
pub open spec fn lower_tagged(segs: Seq<Seq<char>>) -> Seq<WordView> {
    segs.map_values(|t: Seq<char>| WordView { tag: SubCase::LowerCase, text: t })
}

/// Every fragment as a `Capitalized`-tagged word.
pub open spec fn cap_tagged(segs: Seq<Seq<char>>) -> Seq<WordView> {
    segs.map_values(|t: Seq<char>| WordView { tag: SubCase::Capitalized, text: t })
}

/// Every fragment as a `MixedCase`-tagged word.
pub open spec fn mixed_tagged(segs: Seq<Seq<char>>) -> Seq<WordView> {
    segs.map_values(|t: Seq<char>| WordView { tag: SubCase::MixedCase, text: t })
}

/// Each string of `words` as a `MixedCase`-tagged word.
pub fn mixed_words(words: &Vec<String>) -> (r: Vec<Word>)
    ensures
        words_view(r@) == mixed_tagged(strings_view(words@)),
{
    let mut result: Vec<Word> = Vec::new();
    let mut i: usize = 0;
    assert(words_view(result@) =~= mixed_tagged(strings_view(words@).take(0)));
    while i < words.len()
        invariant
            i <= words.len(),
            words.len() == strings_view(words@).len(),
            words_view(result@) == mixed_tagged(strings_view(words@).take(i as int)),
        decreases words.len() - i,
    {
        let ghost pre = result@;
        let wd = Word::mixed_case(words[i].as_str());
        proof {
            assert(wd@ == (WordView {
                tag: SubCase::MixedCase,
                text: strings_view(words@)[i as int],
            }));
        }
        result.push(wd);
        proof {
            assert(result@ == pre.push(wd));
            assert(words_view(result@) =~= words_view(pre).push(wd@));
            assert(strings_view(words@).take(i + 1) =~= strings_view(words@).take(
                i as int,
            ).push(strings_view(words@)[i as int]));
            assert(mixed_tagged(strings_view(words@).take(i as int).push(
                strings_view(words@)[i as int],
            )) =~= mixed_tagged(strings_view(words@).take(i as int)).push(wd@));
            assert(words_view(result@) =~= mixed_tagged(strings_view(words@).take(i + 1)));
        }
        i += 1;
    }
    proof {
        assert(strings_view(words@).take(words.len() as int) =~= strings_view(words@));
    }
    result
}

// ----- renderers -----

/// The delimited-lowercase rendering of every word after the first: each is
/// preceded by the delimiter and rendered lowercase.
pub open spec fn render_lower_delimited_rest(ws: Seq<WordView>, delim: char) -> Seq<char>
    decreases ws.len(),
{
    if ws.len() == 0 {
        Seq::<char>::empty()
    } else {
        seq![delim] + word_lower(ws[0]) + render_lower_delimited_rest(ws.drop_first(), delim)
    }
}

/// The delimited-lowercase rendering of a word sequence: the first word
/// lowercase, then each further word preceded by the delimiter.
pub open spec fn render_lower_delimited(ws: Seq<WordView>, delim: char) -> Seq<char> {
    if ws.len() == 0 {
        Seq::<char>::empty()
    } else {
        word_lower(ws[0]) + render_lower_delimited_rest(ws.drop_first(), delim)
    }
}

/// The Pascal-style rendering: every word capitalized, no separator.
pub open spec fn render_pascal(ws: Seq<WordView>) -> Seq<char>
    decreases ws.len(),
{
    if ws.len() == 0 {
        Seq::<char>::empty()
    } else {
        word_capitalized(ws[0]) + render_pascal(ws.drop_first())
    }
}

pub proof fn lemma_render_rest_push(ws: Seq<WordView>, w: WordView, delim: char)
    ensures
        render_lower_delimited_rest(ws.push(w), delim) == render_lower_delimited_rest(ws, delim)
            + seq![delim] + word_lower(w),
    decreases ws.len(),
{
    if ws.len() == 0 {
        assert(ws.push(w).drop_first() =~= Seq::<WordView>::empty());
        assert(render_lower_delimited_rest(Seq::<WordView>::empty(), delim)
            == Seq::<char>::empty());
        assert(ws.push(w)[0] == w);
        assert(render_lower_delimited_rest(ws.push(w), delim) =~= render_lower_delimited_rest(
            ws,
            delim,
        ) + seq![delim] + word_lower(w));
    } else {
        let tail = ws.drop_first();
        assert(ws.push(w).drop_first() =~= tail.push(w));
        lemma_render_rest_push(tail, w, delim);
        assert(ws.push(w)[0] == ws[0]);
        assert(render_lower_delimited_rest(ws.push(w), delim) == seq![delim] + word_lower(ws[0])
            + render_lower_delimited_rest(tail.push(w), delim));
        assert(render_lower_delimited_rest(ws, delim) == seq![delim] + word_lower(ws[0])
            + render_lower_delimited_rest(tail, delim));
        assert(render_lower_delimited_rest(ws.push(w), delim) =~= render_lower_delimited_rest(
            ws,
            delim,
        ) + seq![delim] + word_lower(w));
    }
}

pub proof fn lemma_render_pascal_push(ws: Seq<WordView>, w: WordView)
    ensures
        render_pascal(ws.push(w)) == render_pascal(ws) + word_capitalized(w),
    decreases ws.len(),
{
    if ws.len() == 0 {
        assert(ws.push(w).drop_first() =~= Seq::<WordView>::empty());
        assert(render_pascal(Seq::<WordView>::empty()) == Seq::<char>::empty());
        assert(ws.push(w)[0] == w);
        assert(render_pascal(ws.push(w)) =~= render_pascal(ws) + word_capitalized(w));
    } else {
        let tail = ws.drop_first();
        assert(ws.push(w).drop_first() =~= tail.push(w));
        lemma_render_pascal_push(tail, w);
        assert(ws.push(w)[0] == ws[0]);
        assert(render_pascal(ws.push(w)) == word_capitalized(ws[0]) + render_pascal(tail.push(w)));
        assert(render_pascal(tail.push(w)) == render_pascal(tail) + word_capitalized(w));
        assert(render_pascal(ws) == word_capitalized(ws[0]) + render_pascal(tail));
        assert(render_pascal(ws.push(w)) =~= render_pascal(ws) + word_capitalized(w));
    }
}

/// Writes the words into `buf` in delimited-lowercase form: the first word
/// lowercase, each further word preceded by `sep`.
pub fn write_lower_delimited(words: &Vec<Word>, buf: &mut String, sep: char)
    ensures
        final(buf)@ == old(buf)@ + render_lower_delimited(words_view(words@), sep),
{
    if words.len() == 0 {
        assert(buf@ =~= old(buf)@ + render_lower_delimited(words_view(words@), sep));
        return;
    }
    words[0].write_lowercase(buf);
    assert(buf@ =~= old(buf)@ + render_lower_delimited(words_view(words@).take(1), sep));
    let mut i: usize = 1;
    while i < words.len()
        invariant
            1 <= i <= words.len(),
            words.len() == words_view(words@).len(),
            buf@ == old(buf)@ + render_lower_delimited(words_view(words@).take(i as int), sep),
        decreases words.len() - i,
    {
        let ghost ws = words_view(words@);
        buf.push(sep);
        words[i].write_lowercase(buf);
        proof {
            assert(ws.take(i + 1).drop_first() =~= ws.take(i as int).drop_first().push(
                ws[i as int],
            ));
            lemma_render_rest_push(ws.take(i as int).drop_first(), ws[i as int], sep);
            assert(ws.take(i + 1)[0] == ws.take(i as int)[0]);
            assert(buf@ =~= old(buf)@ + render_lower_delimited(ws.take(i + 1), sep));
        }
        i += 1;
    }
    proof {
        assert(words_view(words@).take(words.len() as int) =~= words_view(words@));
    }
}

/// Writes the words into `buf` in Pascal-style form: every word capitalized,
/// no separator.
pub fn write_pascal_case(words: &Vec<Word>, buf: &mut String)
    ensures
        final(buf)@ == old(buf)@ + render_pascal(words_view(words@)),
{
    let mut i: usize = 0;
    assert(buf@ =~= old(buf)@ + render_pascal(words_view(words@).take(0)));
    while i < words.len()
        invariant
            i <= words.len(),
            words.len() == words_view(words@).len(),
            buf@ == old(buf)@ + render_pascal(words_view(words@).take(i as int)),
        decreases words.len() - i,
    {
        let ghost ws = words_view(words@);
        words[i].write_capitalized(buf);
        proof {
            assert(ws.take(i + 1) =~= ws.take(i as int).push(ws[i as int]));
            lemma_render_pascal_push(ws.take(i as int), ws[i as int]);
            assert(buf@ =~= old(buf)@ + render_pascal(ws.take(i + 1)));
        }
        i += 1;
    }
    proof {
        assert(words_view(words@).take(words.len() as int) =~= words_view(words@));
    }
}

// ----- round trips between segmentation and rendering -----

proof fn lemma_delim_rest_render(s: Seq<char>, delim: char, start: int)
    requires
        0 <= start <= s.len(),
    ensures
        render_lower_delimited_rest(lower_tagged(delim_segments(s, delim, start)), delim)
            == seq![delim] + s.subrange(start, s.len() as int),
    decreases s.len() - start,
{
    lemma_next_delim_bounds(s, delim, start);
    let j = next_delim(s, delim, start);
    let segs = delim_segments(s, delim, start);
    if j >= s.len() {
        assert(segs[0] =~= s.subrange(start, s.len() as int));
        assert(lower_tagged(segs).drop_first() =~= Seq::<WordView>::empty());
        assert(render_lower_delimited_rest(Seq::<WordView>::empty(), delim)
            == Seq::<char>::empty());
        assert(render_lower_delimited_rest(lower_tagged(segs), delim) =~= seq![delim]
            + s.subrange(start, s.len() as int));
    } else {
        lemma_delim_rest_render(s, delim, j + 1);
        assert(segs[0] =~= s.subrange(start, j));
        assert(lower_tagged(segs).drop_first() =~= lower_tagged(
            delim_segments(s, delim, j + 1),
        ));
        assert(s.subrange(start, s.len() as int) =~= s.subrange(start, j) + seq![delim]
            + s.subrange(j + 1, s.len() as int));
        assert(render_lower_delimited_rest(lower_tagged(segs), delim) =~= seq![delim]
            + s.subrange(start, s.len() as int));
    }
}

/// Splitting a string on a delimiter, tagging every fragment lowercase, and
/// rendering the words back with the same delimiter reproduces the string.
pub proof fn lemma_delim_render_round_trip(s: Seq<char>, delim: char)
    ensures
        render_lower_delimited(lower_tagged(delim_segments(s, delim, 0)), delim) == s,
{
    lemma_next_delim_bounds(s, delim, 0);
    let j = next_delim(s, delim, 0);
    let segs = delim_segments(s, delim, 0);
    if j >= s.len() {
        assert(segs[0] =~= s.subrange(0, s.len() as int));
        assert(lower_tagged(segs).drop_first() =~= Seq::<WordView>::empty());
        assert(render_lower_delimited_rest(Seq::<WordView>::empty(), delim)
            == Seq::<char>::empty());
        assert(render_lower_delimited(lower_tagged(segs), delim) =~= s);
    } else {
        lemma_delim_rest_render(s, delim, j + 1);
        assert(segs[0] =~= s.subrange(0, j));
        assert(lower_tagged(segs).drop_first() =~= lower_tagged(
            delim_segments(s, delim, j + 1),
        ));
        assert(s =~= s.subrange(0, j) + seq![delim] + s.subrange(j + 1, s.len() as int));
        assert(render_lower_delimited(lower_tagged(segs), delim) =~= s);
    }
}

/// Splitting a string at its uppercase boundaries, tagging every fragment
/// capitalized, and rendering the words back Pascal-style reproduces the
/// remainder of the string.
pub proof fn lemma_upper_segments_render(s: Seq<char>, start: int)
    requires
        0 <= start <= s.len(),
    ensures
        render_pascal(cap_tagged(upper_segments(s, start))) == s.subrange(
            start,
            s.len() as int,
        ),
    decreases s.len() - start,
{
    let segs = upper_segments(s, start);
    if start >= s.len() {
        assert(cap_tagged(segs) =~= Seq::<WordView>::empty());
        assert(render_pascal(cap_tagged(segs)) =~= s.subrange(start, s.len() as int));
    } else {
        let b = next_upper(s, start + 1);
        lemma_next_upper_bounds(s, start + 1);
        lemma_upper_segments_render(s, b);
        assert(cap_tagged(segs).drop_first() =~= cap_tagged(upper_segments(s, b)));
        assert(s.subrange(start, s.len() as int) =~= s.subrange(start, b) + s.subrange(
            b,
            s.len() as int,
        ));
        assert(render_pascal(cap_tagged(segs)) =~= s.subrange(start, s.len() as int));
    }
}

// ----- the case value and the word-level interface -----

/// The representation behind every convention wrapper: either the untouched
/// source string, or the segmented words.
#[derive(Clone, Debug)]
pub enum CaseValue {
    /// Segmented words, from a conversion or from direct construction.
    Words(Vec<Word>),
    /// The original source string, assumed to satisfy the convention.
    Joined(String),
}

/// The mathematical value of a [`CaseValue`].
pub enum CaseValueView {
    Words(Seq<WordView>),
    Joined(Seq<char>),
}

impl View for CaseValue {
    type V = CaseValueView;

    open spec fn view(&self) -> CaseValueView {
        match self {
            CaseValue::Words(ws) => CaseValueView::Words(words_view(ws@)),
            CaseValue::Joined(s) => CaseValueView::Joined(s@),
        }
    }
}

/// The word-level interface of the convention wrappers: building an instance
/// from explicit words, and recovering the words of an instance, segmenting
/// by the convention's rule when the value is still joined.
pub trait Case: Sized {
    /// The value held by this instance.
    spec fn case_value(&self) -> CaseValueView;

    /// The words this convention's segmenter yields for a joined string.
    spec fn segmented(s: Seq<char>) -> Seq<WordView>;

    /// The word sequence of this instance's value: segmented words as they
    /// stand, a joined string by the convention's segmentation rule.
    open spec fn forced_words(&self) -> Seq<WordView> {
        match self.case_value() {
            CaseValueView::Words(ws) => ws,
            CaseValueView::Joined(s) => Self::segmented(s),
        }
    }

    /// Wraps an explicit word sequence.
    fn from_cased_words(words: Vec<Word>) -> (r: Self)
        ensures
            r.case_value() == CaseValueView::Words(words_view(words@)),
    ;

    /// The words of this instance, segmenting a joined value by the
    /// convention's rule.
    fn to_cased_words(self) -> (r: Vec<Word>)
        ensures
            words_view(r@) == self.forced_words(),
    ;
}

} // verus!
