//! Entries: two words that correspond, and the class of the pair.

use vstd::prelude::*;
use crate::grammar::english;
use crate::grammar::french;
use crate::grammar::german;
use crate::grammar::lang::Lang;
use crate::grammar::score::Score;
use crate::grammar::word::{shown, GramClass, Word, WordView};

verus! {

/// One bilingual correspondence: the word of either side, and the
/// grammatical class of the pair.
#[derive(Debug, Clone, PartialEq, Eq)]
pub struct Entry(pub Word, pub Word, pub GramClass);

/// What an `Entry` holds.
pub struct EntryView {
    pub first: WordView,
    pub second: WordView,
    pub class: GramClass,
}

impl View for Entry {
    type V = EntryView;

    open spec fn view(&self) -> EntryView {
        EntryView { first: self.0@, second: self.1@, class: self.2 }
    }
}

/// A side of an entry was asked for that it does not have.
#[derive(Debug, Clone, Copy, PartialEq, Eq, Structural)]
pub enum SlotErr {
    Unavailable,
}

impl EntryView {
    /// The word of side `element`: the first for 0, the second otherwise.
    pub open spec fn side(self, element: int) -> WordView {
        if element == 0 {
            self.first
        } else {
            self.second
        }
    }
}

/// The score of `answer` against the forms of `word` in the language `lang`.
/// English, French and German have rules of their own; for any other
/// language the answer must be one of the forms, letter for letter.
pub open spec fn score_in(word: WordView, answer: Seq<char>, class: GramClass, lang: Lang) -> Score {
    match lang {
        Lang::English => english::word_score(word.base, answer, class),
        Lang::French => french::word_score(word.base, answer, class),
        Lang::German => german::word_score(word.base, answer, class),
        Lang::Other => if word.base.contains(answer) {
            Score::Full
        } else {
            Score::Zero
        },
    }
}

/// Whether `answer` is one of the forms of `word`, letter for letter.
fn holds(word: &Word, answer: &String) -> (r: bool)
    ensures
        r == word@.base.contains(answer@),
{
    let mut i: usize = 0;
    while i < word.base.len()
        invariant
            i <= word.base@.len(),
            forall|j: int| 0 <= j < i ==> word@.base[j] != answer@,
        decreases word.base@.len() - i,
    {
        if word.base[i] == *answer {
            assert(word@.base[i as int] == answer@);
            return true;
        }
        i += 1;
    }
    false
}

impl Entry {
    /// Both words have at least one form.
    pub open spec fn wf(&self) -> bool {
        self.0.wf() && self.1.wf()
    }

    /// The display form of the word of side `element`.
    pub fn get(&self, element: usize) -> (out: String)
        requires
            element < 2,
        ensures
            out@ == shown(self@.side(element as int)),
    {
        if element == 0 {
            self.0.display()
        } else {
            self.1.display()
        }
    }

    /// Grades `answer` against the word of side `element` in the language
    /// `lang`, under the class of the entry.
    pub fn correct(&self, answer: &String, element: usize, lang: &Lang) -> (r: Score)
        requires
            element < 2,
        ensures
            r == score_in(self@.side(element as int), answer@, self@.class, *lang),
    {
        let word = if element == 0 {
            &self.0
        } else {
            &self.1
        };
        match lang {
            Lang::English => english::correct(word, answer, &self.2),
            Lang::French => french::correct(word, answer, &self.2),
            Lang::German => german::correct(word, answer, &self.2),
            Lang::Other => if holds(word, answer) {
                Score::Full
            } else {
                Score::Zero
            },
        }
    }

    /// As `get`, for any `element`: an error where the entry has no such
    /// side.
    pub fn try_get(&self, element: usize) -> (r: Result<String, SlotErr>)
        ensures
            element < 2 ==> r is Ok && r->Ok_0@ == shown(self@.side(element as int)),
            element >= 2 ==> r == Err::<String, SlotErr>(SlotErr::Unavailable),
    {
        if element < 2 {
            Ok(self.get(element))
        } else {
            Err(SlotErr::Unavailable)
        }
    }

    /// As `correct`, for any `element`: an error where the entry has no such
    /// side.
    pub fn try_correct(&self, answer: &String, element: usize, lang: &Lang) -> (r: Result<
        Score,
        SlotErr,
    >)
        ensures
            element < 2 ==> r == Ok::<Score, SlotErr>(
                score_in(self@.side(element as int), answer@, self@.class, *lang),
            ),
            element >= 2 ==> r == Err::<Score, SlotErr>(SlotErr::Unavailable),
    {
        if element < 2 {
            Ok(self.correct(answer, element, lang))
        } else {
            Err(SlotErr::Unavailable)
        }
    }
}

} // verus!
