//! Words: the acceptable surface forms of a lexical unit and its gloss.

use vstd::prelude::*;
use vstd::string::*;
use crate::grammar::text::{alike, alike_text, chars_of, trim, trim_range};

verus! {

/// Whether the delimiter `" / "` stands at position `i` of `s`.
pub open spec fn cut_at(s: Seq<char>, i: int) -> bool {
    &&& 0 <= i && i + 3 <= s.len()
    &&& s[i] == ' '
    &&& s[i + 1] == '/'
    &&& s[i + 2] == ' '
}

/// The position of the leftmost delimiter in `s`, if there is one.
pub open spec fn first_cut(s: Seq<char>) -> Option<int> {
    if exists|i: int| cut_at(s, i) {
        Some(choose|i: int| cut_at(s, i) && forall|j: int| 0 <= j < i ==> !cut_at(s, j))
    } else {
        None
    }
}

/// The pieces of `s` between its delimiters, taken from the left; a text
/// without delimiter is its own single piece.
#[verifier::opaque]
pub open spec fn split(s: Seq<char>) -> Seq<Seq<char>>
    decreases s.len(),
{
    match first_cut(s) {
        Some(i) if 0 <= i && i + 3 <= s.len() => seq![s.take(i)] + split(s.skip(i + 3)),
        _ => seq![s],
    }
}

/// A leftmost delimiter is the first cut.
pub proof fn lemma_first_cut_found(s: Seq<char>, i: int)
    requires
        cut_at(s, i),
        forall|j: int| 0 <= j < i ==> !cut_at(s, j),
    ensures
        first_cut(s) == Some(i),
{
    let c = choose|c: int| cut_at(s, c) && forall|j: int| 0 <= j < c ==> !cut_at(s, j);
    assert(cut_at(s, c) && forall|j: int| 0 <= j < c ==> !cut_at(s, j));
    if c < i {
        assert(!cut_at(s, c));
    }
    if i < c {
        assert(!cut_at(s, i));
    }
}

/// A text splits at its leftmost delimiter.
pub proof fn lemma_split_step(s: Seq<char>, i: int)
    requires
        cut_at(s, i),
        forall|j: int| 0 <= j < i ==> !cut_at(s, j),
    ensures
        split(s) == seq![s.take(i)] + split(s.skip(i + 3)),
{
    reveal(split);
    lemma_first_cut_found(s, i);
}

/// A text without delimiter is one piece.
pub proof fn lemma_split_whole(s: Seq<char>)
    requires
        forall|j: int| !cut_at(s, j),
    ensures
        split(s) == seq![s],
{
    reveal(split);
}

/// The texts that the ranges `cuts` select from `s`.
pub open spec fn texts_at(s: Seq<char>, cuts: Seq<(usize, usize)>) -> Seq<Seq<char>> {
    Seq::new(cuts.len(), |k: int| s.subrange(cuts[k].0 as int, cuts[k].1 as int))
}

/// Whether the three characters of the delimiter stand at position `j`.
pub open spec fn delimiter_at(s: Seq<char>, j: int) -> bool {
    s[j] == ' ' && s[j + 1] == '/' && s[j + 2] == ' '
}

/// The bounds of the pieces of the part of `s` between `from` and `to`.
pub fn split_range(s: &Vec<char>, from: usize, to: usize) -> (cuts: Vec<(usize, usize)>)
    requires
        from <= to <= s@.len(),
    ensures
        cuts@.len() >= 1,
        forall|k: int| 0 <= k < cuts@.len() ==> from <= (#[trigger] cuts@[k]).0 <= cuts@[k].1 <= to,
        texts_at(s@, cuts@) == split(s@.subrange(from as int, to as int)),
{
    let mut cuts: Vec<(usize, usize)> = Vec::new();
    let mut start: usize = from;
    let mut i: usize = from;
    assert(texts_at(s@, cuts@) + split(s@.subrange(start as int, to as int)) =~= split(
        s@.subrange(from as int, to as int),
    ));
    while to - i >= 3
        invariant
            from <= start <= i <= to <= s@.len(),
            forall|k: int| 0 <= k < cuts@.len() ==> from <= (#[trigger] cuts@[k]).0 <= cuts@[k].1 <= to,
            split(s@.subrange(from as int, to as int)) == texts_at(s@, cuts@) + split(
                s@.subrange(start as int, to as int),
            ),
            forall|j: int| start <= j < i ==> !delimiter_at(s@, j),
        decreases to - i,
    {
        if s[i] == ' ' && s[i + 1] == '/' && s[i + 2] == ' ' {
            proof {
                let rest = s@.subrange(start as int, to as int);
                assert(cut_at(rest, i - start));
                assert forall|j: int| 0 <= j < i - start implies !cut_at(rest, j) by {
                    assert(!delimiter_at(s@, start + j));
                }
                lemma_split_step(rest, i - start);
                assert(rest.take(i - start) =~= s@.subrange(start as int, i as int));
                assert(rest.skip(i - start + 3) =~= s@.subrange(i as int + 3, to as int));
                assert(texts_at(s@, cuts@.push((start, i))) =~= texts_at(s@, cuts@) + seq![
                    s@.subrange(start as int, i as int),
                ]);
            }
            cuts.push((start, i));
            i += 3;
            start = i;
        } else {
            assert(!delimiter_at(s@, i as int));
            i += 1;
        }
    }
    proof {
        let rest = s@.subrange(start as int, to as int);
        assert forall|j: int| !cut_at(rest, j) by {
            if 0 <= j && j + 3 <= rest.len() {
                assert(!delimiter_at(s@, start + j));
            }
        }
        lemma_split_whole(rest);
        assert(texts_at(s@, cuts@.push((start, to))) =~= texts_at(s@, cuts@) + seq![rest]);
    }
    cuts.push((start, to));
    cuts
}

/// Whether a bracketed gloss of at least one character, none of them a line
/// break, opens at `open` and closes at `close`.
pub open spec fn gloss_at(s: Seq<char>, open: int, close: int) -> bool {
    &&& 0 <= open && open + 2 <= close && close < s.len()
    &&& s[open] == '[' && s[close] == ']'
    &&& forall|k: int| open < k < close ==> s[k] != '\n'
}

/// Whether some gloss opens at `open`.
pub open spec fn opens_gloss(s: Seq<char>, open: int) -> bool {
    exists|close: int| gloss_at(s, open, close)
}

/// Whether `open` and `close` bound the gloss of `s`: it opens at the leftmost
/// bracket at which a gloss can open, and reaches to the last bracket that can
/// close it.
pub open spec fn is_gloss(s: Seq<char>, open: int, close: int) -> bool {
    &&& gloss_at(s, open, close)
    &&& forall|j: int| 0 <= j < open ==> !opens_gloss(s, j)
    &&& forall|j: int| close < j ==> !gloss_at(s, open, j)
}

/// The positions of the two brackets of the gloss of `s`, if it has one.
pub open spec fn gloss(s: Seq<char>) -> Option<(int, int)> {
    if exists|p: (int, int)| is_gloss(s, p.0, p.1) {
        Some(choose|p: (int, int)| is_gloss(s, p.0, p.1))
    } else {
        None
    }
}

/// A text has at most one gloss.
pub proof fn lemma_gloss_found(s: Seq<char>, open: int, close: int)
    requires
        is_gloss(s, open, close),
    ensures
        gloss(s) == Some((open, close)),
{
    assert(is_gloss(s, (open, close).0, (open, close).1));
    let p = choose|p: (int, int)| is_gloss(s, p.0, p.1);
    assert(is_gloss(s, p.0, p.1));
    if p.0 < open {
        assert(opens_gloss(s, p.0));
    }
    if open < p.0 {
        assert(opens_gloss(s, open));
    }
    assert(p.0 == open);
    if p.1 < close {
        assert(!gloss_at(s, open, close));
    }
    if close < p.1 {
        assert(!gloss_at(s, open, p.1));
    }
    assert(p =~= (open, close));
}

/// A text in which no gloss opens has none.
pub proof fn lemma_gloss_none(s: Seq<char>)
    requires
        forall|open: int| !opens_gloss(s, open),
    ensures
        gloss(s) is None,
{
    assert forall|p: (int, int)| !is_gloss(s, p.0, p.1) by {
        if is_gloss(s, p.0, p.1) {
            assert(gloss_at(s, p.0, p.1));
            assert(opens_gloss(s, p.0));
        }
    }
}

/// Finds the gloss of `s`.
pub fn find_gloss(s: &Vec<char>) -> (r: Option<(usize, usize)>)
    ensures
        match r {
            Some((open, close)) => gloss(s@) == Some((open as int, close as int)) && open + 2
                <= close < s@.len(),
            None => gloss(s@) is None,
        },
{
    let n: usize = s.len();
    let mut i: usize = 0;
    while i < n
        invariant
            i <= n,
            n == s@.len(),
            forall|j: int| 0 <= j < i ==> !opens_gloss(s@, j),
        decreases n - i,
    {
        if s[i] == '[' {
            let mut j: usize = i + 1;
            let mut last: Option<usize> = None;
            while j < n && s[j] != '\n'
                invariant
                    i < j <= n,
                    n == s@.len(),
                    s@[i as int] == '[',
                    forall|k: int| i < k < j ==> s@[k] != '\n',
                    match last {
                        Some(c) => c < j && gloss_at(s@, i as int, c as int) && forall|m: int|
                            c < m < j ==> !gloss_at(s@, i as int, m),
                        None => forall|m: int| m < j ==> !gloss_at(s@, i as int, m),
                    },
                decreases n - j,
            {
                if s[j] == ']' && j - i >= 2 {
                    last = Some(j);
                }
                j += 1;
            }
            assert forall|m: int| j <= m implies !gloss_at(s@, i as int, m) by {
                if j < n && j < m {
                    assert(s@[j as int] == '\n');
                }
            }
            match last {
                Some(c) => {
                    proof {
                        assert(is_gloss(s@, i as int, c as int));
                        lemma_gloss_found(s@, i as int, c as int);
                    }
                    return Some((i, c));
                },
                None => {
                    assert(!opens_gloss(s@, i as int));
                },
            }
        } else {
            assert(!opens_gloss(s@, i as int));
        }
        i += 1;
    }
    proof {
        assert forall|open: int| !opens_gloss(s@, open) by {
            if opens_gloss(s@, open) {
                let close = choose|close: int| gloss_at(s@, open, close);
                assert(gloss_at(s@, open, close));
                assert(0 <= open < i);
            }
        }
        lemma_gloss_none(s@);
    }
    None
}

/// The grammatical class of a pair of words.
#[derive(Debug, Clone, Copy, PartialEq, Eq, Structural)]
pub enum GramClass {
    Adjective,
    Adverb,
    Noun,
    Verb,
    Other,
}

/// The class that a label names, whatever the case of its ASCII letters;
/// `Other` for a label that names none.
pub open spec fn class_of_label(label: Seq<char>) -> GramClass {
    if alike(label, "adjectiv"@) || alike(label, "adj"@) || alike(label, "adjectif"@) {
        GramClass::Adjective
    } else if alike(label, "adverb"@) || alike(label, "adv"@) || alike(label, "adverbe"@) {
        GramClass::Adverb
    } else if alike(label, "noun"@) || alike(label, "nom"@) || alike(label, "n"@) {
        GramClass::Noun
    } else if alike(label, "verb"@) || alike(label, "verbe"@) || alike(label, "v"@) {
        GramClass::Verb
    } else {
        GramClass::Other
    }
}

impl Default for GramClass {
    fn default() -> (r: Self)
        ensures
            r == GramClass::Other,
    {
        GramClass::Other
    }
}

impl GramClass {
    /// Resolves a label to its class.
    pub fn classify(label: &str) -> (r: GramClass)
        ensures
            r == class_of_label(label@),
    {
        let l = chars_of(label);
        if alike_text(&l, "adjectiv") || alike_text(&l, "adj") || alike_text(&l, "adjectif") {
            GramClass::Adjective
        } else if alike_text(&l, "adverb") || alike_text(&l, "adv") || alike_text(&l, "adverbe") {
            GramClass::Adverb
        } else if alike_text(&l, "noun") || alike_text(&l, "nom") || alike_text(&l, "n") {
            GramClass::Noun
        } else if alike_text(&l, "verb") || alike_text(&l, "verbe") || alike_text(&l, "v") {
            GramClass::Verb
        } else {
            GramClass::Other
        }
    }
}

impl From<&str> for GramClass {
    fn from(label: &str) -> (r: GramClass) {
        GramClass::classify(label)
    }
}

impl vstd::std_specs::convert::FromSpecImpl<&str> for GramClass {
    open spec fn obeys_from_spec() -> bool {
        true
    }

    open spec fn from_spec(label: &str) -> GramClass {
        class_of_label(label@)
    }
}

/// A lexical unit: its acceptable surface forms, and a gloss that is shown
/// but never matched.
#[derive(Debug, Clone, PartialEq, Eq)]
pub struct Word {
    pub base: Vec<String>,
    pub desc: String,
}

/// What a `Word` holds, as sequences of characters.
pub struct WordView {
    pub base: Seq<Seq<char>>,
    pub desc: Seq<char>,
}

/// The texts of a sequence of strings.
pub open spec fn texts(v: Seq<String>) -> Seq<Seq<char>> {
    Seq::new(v.len(), |i: int| v[i]@)
}

impl View for Word {
    type V = WordView;

    open spec fn view(&self) -> WordView {
        WordView { base: texts(self.base@), desc: self.desc@ }
    }
}

/// The word that a single text denotes: a bracketed gloss, if there is one,
/// is taken out with all that follows it and becomes the description, and the
/// trimmed text before it is split into the forms.
pub open spec fn parse_text(s: Seq<char>) -> WordView {
    match gloss(s) {
        Some((open, close)) => WordView {
            base: split(trim(s.take(open))),
            desc: trim(s.subrange(open + 1, close)),
        },
        None => WordView { base: split(trim(s)), desc: Seq::empty() },
    }
}

/// The forms joined by `" / "`.
pub open spec fn joined(base: Seq<Seq<char>>) -> Seq<char>
    decreases base.len(),
{
    if base.len() == 0 {
        Seq::empty()
    } else if base.len() == 1 {
        base[0]
    } else {
        joined(base.drop_last()) + seq![' ', '/', ' '] + base.last()
    }
}

/// The display form of a word: its forms joined, then the description in
/// brackets where there is one.
pub open spec fn shown(w: WordView) -> Seq<char> {
    if w.desc.len() == 0 {
        joined(w.base)
    } else {
        joined(w.base) + seq![' ', '['] + w.desc + seq![']']
    }
}

impl Word {
    /// A word has at least one form.
    pub open spec fn wf(&self) -> bool {
        self.base@.len() > 0
    }

    /// The word with the single form `one`, taken as it stands.
    pub fn new(one: &str) -> (w: Word)
        ensures
            w.wf(),
            w@ == (WordView { base: seq![one@], desc: Seq::empty() }),
    {
        let mut base: Vec<String> = Vec::new();
        base.push(one.to_owned());
        let w = Word { base, desc: String::new() };
        assert(w@.base =~= seq![one@]);
        w
    }

    /// The word with the forms `list`, taken as they stand.
    pub fn new_list(list: Vec<String>) -> (w: Word)
        requires
            list@.len() > 0,
        ensures
            w.wf(),
            w@ == (WordView { base: texts(list@), desc: Seq::empty() }),
    {
        Word { base: list, desc: String::new() }
    }

    /// Reads a word from a single text.
    pub fn parse(raw: &str) -> (w: Word)
        ensures
            w.wf(),
            w@ == parse_text(raw@),
    {
        let s = chars_of(raw);
        let mut end: usize = s.len();
        let mut desc = String::new();
        match find_gloss(&s) {
            Some((open, close)) => {
                let (a, b) = trim_range(&s, open + 1, close);
                desc = raw.substring_char(a, b).to_owned();
                end = open;
            },
            None => {},
        }
        assert(s@.subrange(0, end as int) =~= s@.take(end as int));
        assert(s@.take(s@.len() as int) =~= s@);
        let (lo, hi) = trim_range(&s, 0, end);
        let cuts = split_range(&s, lo, hi);
        let mut base: Vec<String> = Vec::new();
        let mut k: usize = 0;
        while k < cuts.len()
            invariant
                k <= cuts@.len(),
                s@ == raw@,
                forall|m: int| 0 <= m < cuts@.len() ==> (#[trigger] cuts@[m]).0 <= cuts@[m].1 <= s@.len(),
                base@.len() == k,
                forall|m: int| 0 <= m < k ==> (#[trigger] base@[m])@ == s@.subrange(
                    cuts@[m].0 as int,
                    cuts@[m].1 as int,
                ),
            decreases cuts@.len() - k,
        {
            let (a, b) = cuts[k];
            base.push(raw.substring_char(a, b).to_owned());
            k += 1;
        }
        let w = Word { base, desc };
        assert(w@.base =~= texts_at(s@, cuts@));
        w
    }

    /// The display form of the word.
    pub fn display(&self) -> (out: String)
        ensures
            out@ == shown(self@),
    {
        let mut out = String::new();
        let n: usize = self.base.len();
        let mut i: usize = 0;
        while i < n
            invariant
                i <= n,
                n == self.base@.len(),
                out@ == joined(self@.base.take(i as int)),
            decreases n - i,
        {
            proof {
                reveal_strlit(" / ");
                assert(self@.base.take(i + 1).drop_last() =~= self@.base.take(i as int));
                assert(" / "@ =~= seq![' ', '/', ' ']);
            }
            if i > 0 {
                out.append(" / ");
            }
            out.append(self.base[i].as_str());
            i += 1;
        }
        assert(self@.base.take(n as int) =~= self@.base);
        if !self.desc.as_str().is_empty() {
            proof {
                reveal_strlit(" [");
                reveal_strlit("]");
                assert(" ["@ =~= seq![' ', '[']);
                assert("]"@ =~= seq![']']);
            }
            out.append(" [");
            out.append(self.desc.as_str());
            out.append("]");
        }
        out
    }
}

impl From<&str> for Word {
    fn from(one: &str) -> (w: Word)
        ensures
            w.wf(),
            w@ == (WordView { base: seq![one@], desc: Seq::empty() }),
    {
        Word::new(one)
    }
}

/// Two words with the same forms need not be the same value, so nothing is
/// promised through `from_spec`: what `from` returns is stated on `from`.
impl vstd::std_specs::convert::FromSpecImpl<&str> for Word {
    open spec fn obeys_from_spec() -> bool {
        false
    }

    open spec fn from_spec(one: &str) -> Word {
        arbitrary()
    }
}

} // verus!
