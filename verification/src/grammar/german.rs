//! Grading of German answers: a noun may come with any article, a verb with
//! either placeholder pronoun.

use vstd::prelude::*;
use crate::grammar::score::{best, higher, marker_texts, smart_options, smart_score, Score};
use crate::grammar::text::{alike, alike_text, chars_of};
use crate::grammar::word::{GramClass, Word};

verus! {

/// The articles that a German noun may be stored with.
pub open spec fn articles() -> Seq<Seq<char>> {
    seq!["der "@, "die "@, "das "@]
}

/// The placeholder pronouns that a German verb may be stored with.
pub open spec fn pronouns() -> Seq<Seq<char>> {
    seq!["jdn "@, "jdm "@]
}

/// The score of one stored form: full when it is alike to the answer, else
/// half for a noun that matches once its article is set aside or a verb that
/// matches once its pronoun is, else none.
pub open spec fn form_score(form: Seq<char>, answer: Seq<char>, class: GramClass) -> Score {
    if alike(form, answer) {
        Score::Full
    } else if class == GramClass::Noun {
        smart_score(form, answer, articles())
    } else if class == GramClass::Verb {
        smart_score(form, answer, pronouns())
    } else {
        Score::Zero
    }
}

/// The scores of the forms, in order.
pub open spec fn form_scores(forms: Seq<Seq<char>>, answer: Seq<char>, class: GramClass) -> Seq<
    Score,
> {
    Seq::new(forms.len(), |i: int| form_score(forms[i], answer, class))
}

/// The score of a word: none for an empty answer, else the best over its
/// forms.
pub open spec fn word_score(forms: Seq<Seq<char>>, answer: Seq<char>, class: GramClass) -> Score {
    if answer.len() == 0 {
        Score::Zero
    } else {
        best(form_scores(forms, answer, class))
    }
}

/// Grades `answer` against the forms of `word`.
pub fn correct(word: &Word, answer: &String, gram_class: &GramClass) -> (r: Score)
    ensures
        r == word_score(word@.base, answer@, *gram_class),
{
    if answer.as_str().is_empty() {
        return Score::Zero;
    }
    let ghost scores = form_scores(word@.base, answer@, *gram_class);
    let mut top = Score::Zero;
    let mut i: usize = 0;
    while i < word.base.len()
        invariant
            i <= word.base@.len(),
            scores == form_scores(word@.base, answer@, *gram_class),
            top == best(scores.take(i as int)),
        decreases word.base@.len() - i,
    {
        let form = &word.base[i];
        let letters = chars_of(form.as_str());
        let score = if alike_text(&letters, answer.as_str()) {
            Score::Full
        } else if matches!(gram_class, GramClass::Noun) {
            let options = vec!["der ", "die ", "das "];
            assert(marker_texts(options@) =~= articles());
            smart_options(form, answer.as_str(), options)
        } else if matches!(gram_class, GramClass::Verb) {
            let options = vec!["jdn ", "jdm "];
            assert(marker_texts(options@) =~= pronouns());
            smart_options(form, answer.as_str(), options)
        } else {
            Score::Zero
        };
        assert(score == scores[i as int]);
        assert(scores.take(i + 1).drop_last() =~= scores.take(i as int));
        top = higher(top, score);
        i += 1;
    }
    assert(scores.take(i as int) =~= scores);
    top
}

} // verus!
