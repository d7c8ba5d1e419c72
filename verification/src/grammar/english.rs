//! Grading of English answers: a verb may come with `to`, a noun with an
//! article.

use vstd::prelude::*;
use crate::grammar::score::{best, higher, Score};
use crate::grammar::text::{alike, alike_text, chars_of, equal_from, has_prefix};
use crate::grammar::word::{GramClass, Word};

verus! {

/// Whether `form` is `marker` followed by exactly `answer`.
pub open spec fn strips_to(form: Seq<char>, marker: Seq<char>, answer: Seq<char>) -> bool {
    marker.is_prefix_of(form) && form.skip(marker.len() as int) == answer
}

/// The score of one stored form: full when it is alike to the answer, when
/// it is a verb that is `to` and the answer, or when it is a noun that is
/// `the` or `a` and the answer; else none.
pub open spec fn form_score(form: Seq<char>, answer: Seq<char>, class: GramClass) -> Score {
    if alike(form, answer) {
        Score::Full
    } else if class == GramClass::Verb && strips_to(form, "to "@, answer) {
        Score::Full
    } else if class == GramClass::Noun && (strips_to(form, "the "@, answer) || strips_to(
        form,
        "a "@,
        answer,
    )) {
        Score::Full
    } else {
        Score::Zero
    }
}

/// The scores of the forms, in order.
pub open spec fn form_scores(forms: Seq<Seq<char>>, answer: Seq<char>, class: GramClass) -> Seq<
    Score,
> {
    Seq::new(forms.len(), |i: int| form_score(forms[i], answer, class))
}

/// The score of a word: the best over its forms.
pub open spec fn word_score(forms: Seq<Seq<char>>, answer: Seq<char>, class: GramClass) -> Score {
    best(form_scores(forms, answer, class))
}

/// Whether `form` is the text `marker` followed by exactly `answer`.
fn stripped(form: &Vec<char>, marker: &str, answer: &Vec<char>) -> (r: bool)
    ensures
        r == strips_to(form@, marker@, answer@),
{
    let m = chars_of(marker);
    assert(answer@.skip(0) =~= answer@);
    has_prefix(form, &m) && equal_from(form, m.len(), answer, 0)
}

/// Grades `answer` against the forms of `word`.
pub fn correct(word: &Word, answer: &String, gram_class: &GramClass) -> (r: Score)
    ensures
        r == word_score(word@.base, answer@, *gram_class),
{
    let given = chars_of(answer.as_str());
    let ghost scores = form_scores(word@.base, answer@, *gram_class);
    let mut top = Score::Zero;
    let mut i: usize = 0;
    while i < word.base.len()
        invariant
            i <= word.base@.len(),
            given@ == answer@,
            scores == form_scores(word@.base, answer@, *gram_class),
            top == best(scores.take(i as int)),
        decreases word.base@.len() - i,
    {
        let letters = chars_of(word.base[i].as_str());
        let score = if alike_text(&letters, answer.as_str()) {
            Score::Full
        } else if matches!(gram_class, GramClass::Verb) && stripped(&letters, "to ", &given) {
            Score::Full
        } else if matches!(gram_class, GramClass::Noun) && (stripped(&letters, "the ", &given)
            || stripped(&letters, "a ", &given)) {
            Score::Full
        } else {
            Score::Zero
        };
        assert(score == scores[i as int]);
        assert(scores.take(i + 1).drop_last() =~= scores.take(i as int));
        top = higher(top, score);
        i += 1;
    }
    assert(scores.take(i as int) =~= scores);
    top
}

} // verus!
