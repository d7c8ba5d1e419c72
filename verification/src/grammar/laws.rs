//! What holds of the graders whatever the words and answers are.

use vstd::prelude::*;
use crate::grammar::english;
use crate::grammar::entry::{score_in, EntryView};
use crate::grammar::french;
use crate::grammar::german;
use crate::grammar::lang::Lang;
use crate::grammar::score::{best, lemma_best_is_highest, marker_match, Score};
use crate::grammar::text::alike;
use crate::grammar::word::{shown, GramClass, WordView};

verus! {

/// Every text is alike to itself.
pub proof fn lemma_alike_reflexive(a: Seq<char>)
    ensures
        alike(a, a),
{
}

/// A word whose forms all score `Zero` scores `Zero`, and a word with a
/// form that scores `Full` scores `Full`.
pub proof fn lemma_best_of_extremes(scores: Seq<Score>)
    ensures
        (forall|i: int| 0 <= i < scores.len() ==> scores[i] == Score::Zero) ==> best(scores)
            == Score::Zero,
        (exists|i: int| 0 <= i < scores.len() && scores[i] == Score::Full) ==> best(scores)
            == Score::Full,
{
    lemma_best_is_highest(scores);
    if forall|i: int| 0 <= i < scores.len() ==> scores[i] == Score::Zero {
        if best(scores) != Score::Zero {
            let i = choose|i: int| 0 <= i < scores.len() && scores[i] == best(scores);
            assert(scores[i] == Score::Zero);
        }
    }
    if exists|i: int| 0 <= i < scores.len() && scores[i] == Score::Full {
        let i = choose|i: int| 0 <= i < scores.len() && scores[i] == Score::Full;
        assert(scores[i].rank() <= best(scores).rank());
    }
}

/// Each stored form of either side of an entry is a fully correct answer for
/// that side, in every language and under every class. The French and German
/// graders refuse the empty answer, so there the form must not be empty.
pub proof fn lemma_stored_form_is_correct(entry: EntryView, element: int, lang: Lang, i: int)
    requires
        0 <= i < entry.side(element).base.len(),
        lang == Lang::French || lang == Lang::German ==> entry.side(element).base[i].len() > 0,
    ensures
        score_in(entry.side(element), entry.side(element).base[i], entry.class, lang)
            == Score::Full,
{
    let word = entry.side(element);
    let answer = word.base[i];
    lemma_alike_reflexive(answer);
    match lang {
        Lang::English => {
            let scores = english::form_scores(word.base, answer, entry.class);
            assert(scores[i] == Score::Full);
            lemma_best_of_extremes(scores);
        },
        Lang::French => {
            let scores = french::form_scores(word.base, answer, entry.class);
            assert(scores[i] == Score::Full);
            lemma_best_of_extremes(scores);
        },
        Lang::German => {
            let scores = german::form_scores(word.base, answer, entry.class);
            assert(scores[i] == Score::Full);
            lemma_best_of_extremes(scores);
        },
        Lang::Other => {
            assert(word.base[i] == answer);
        },
    }
}

/// Where a side of an entry has a single form and no description, what is
/// shown for that side is a fully correct answer for it, unless it is empty
/// and the grader is the French or the German one.
pub proof fn lemma_shown_form_is_correct(entry: EntryView, element: int, lang: Lang)
    requires
        entry.side(element).base.len() == 1,
        entry.side(element).desc.len() == 0,
        lang == Lang::French || lang == Lang::German ==> shown(entry.side(element)).len() > 0,
    ensures
        score_in(entry.side(element), shown(entry.side(element)), entry.class, lang)
            == Score::Full,
{
    lemma_stored_form_is_correct(entry, element, lang, 0);
}

/// A form that begins with a marker matches what follows the marker.
pub proof fn lemma_remainder_matches(form: Seq<char>, markers: Seq<Seq<char>>)
    requires
        markers.len() > 0,
        markers[0].len() <= form.len(),
        markers.contains(form.take(markers[0].len() as int)),
    ensures
        marker_match(form, form.skip(markers[0].len() as int), markers),
{
    lemma_alike_reflexive(form.skip(markers[0].len() as int));
}

/// A form that begins with a marker and goes on after it matches what
/// follows the marker behind any text of the marker's length: the first
/// characters of the answer are not looked at.
pub proof fn lemma_any_prefix_is_forgiven(
    form: Seq<char>,
    prefix: Seq<char>,
    markers: Seq<Seq<char>>,
)
    requires
        markers.len() > 0,
        markers[0].len() < form.len(),
        markers.contains(form.take(markers[0].len() as int)),
        prefix.len() == markers[0].len(),
    ensures
        marker_match(form, prefix + form.skip(markers[0].len() as int), markers),
{
    let size = markers[0].len() as int;
    let rest = form.skip(size);
    lemma_alike_reflexive(rest);
    assert((prefix + rest).skip(size) =~= rest);
}

/// The French and the German grader give nothing for the empty answer,
/// whatever the word and its class.
pub proof fn lemma_empty_answer_scores_zero(word: WordView, class: GramClass, lang: Lang)
    requires
        lang == Lang::French || lang == Lang::German,
    ensures
        score_in(word, Seq::<char>::empty(), class, lang) == Score::Zero,
{
}

/// The English grader gives nothing for the empty answer, provided that no
/// form is empty and none is a bare marker of its class.
pub proof fn lemma_english_empty_answer_scores_zero(word: WordView, class: GramClass)
    requires
        forall|i: int| 0 <= i < word.base.len() ==> (#[trigger] word.base[i]).len() > 0,
        class == GramClass::Verb ==> !word.base.contains("to "@),
        class == GramClass::Noun ==> !word.base.contains("the "@) && !word.base.contains("a "@),
    ensures
        score_in(word, Seq::<char>::empty(), class, Lang::English) == Score::Zero,
{
    let answer = Seq::<char>::empty();
    let scores = english::form_scores(word.base, answer, class);
    assert forall|i: int| 0 <= i < scores.len() implies scores[i] == Score::Zero by {
        let form = word.base[i];
        assert(form.len() > 0);
        assert forall|marker: Seq<char>| english::strips_to(form, marker, answer) implies form
            == marker by {
            assert(form.skip(marker.len() as int).len() == 0);
            assert(form =~= marker);
        }
        if class == GramClass::Verb && english::strips_to(form, "to "@, answer) {
            assert(word.base.contains("to "@));
        }
        if class == GramClass::Noun && english::strips_to(form, "the "@, answer) {
            assert(word.base.contains("the "@));
        }
        if class == GramClass::Noun && english::strips_to(form, "a "@, answer) {
            assert(word.base.contains("a "@));
        }
    }
    lemma_best_of_extremes(scores);
}

/// Whether a language has no tolerance rule for a class.
pub open spec fn strict(lang: Lang, class: GramClass) -> bool {
    match lang {
        Lang::English => class != GramClass::Verb && class != GramClass::Noun,
        Lang::French => class != GramClass::Noun,
        Lang::German => class != GramClass::Noun && class != GramClass::Verb,
        Lang::Other => false,
    }
}

/// Where a language has no tolerance rule for the class, an answer scores
/// `Full` if it is alike to one of the forms, and `Zero` otherwise; the
/// French and the German grader give `Zero` for the empty answer in any case.
pub proof fn lemma_strict_is_all_or_nothing(
    word: WordView,
    answer: Seq<char>,
    class: GramClass,
    lang: Lang,
)
    requires
        strict(lang, class),
    ensures
        score_in(word, answer, class, lang) == if (lang == Lang::English || answer.len() > 0) && (
        exists|i: int| 0 <= i < word.base.len() && alike(#[trigger] word.base[i], answer)) {
            Score::Full
        } else {
            Score::Zero
        },
{
    let scores = match lang {
        Lang::English => english::form_scores(word.base, answer, class),
        Lang::French => french::form_scores(word.base, answer, class),
        _ => german::form_scores(word.base, answer, class),
    };
    assert forall|i: int| 0 <= i < scores.len() implies scores[i] == if alike(
        word.base[i],
        answer,
    ) {
        Score::Full
    } else {
        Score::Zero
    } by {}
    lemma_best_of_extremes(scores);
    if exists|i: int| 0 <= i < word.base.len() && alike(#[trigger] word.base[i], answer) {
        let i = choose|i: int| 0 <= i < word.base.len() && alike(#[trigger] word.base[i], answer);
        assert(scores[i] == Score::Full);
    } else {
        assert forall|i: int| 0 <= i < scores.len() implies scores[i] == Score::Zero by {
            assert(!alike(word.base[i], answer));
        }
    }
}

} // verus!
