use ulang::grammar::{smart_options, Entry, GramClass, Lang, Score, SlotErr, Word};
use ulang::grammar::{english, french, german};

fn points(score: Score) -> f32 {
    f32::from(score.halves()) / 2.0
}

#[test]
fn english_verb() {
    let verb = Entry("to rise".into(), "s'élever".into(), GramClass::Verb);
    assert_eq!(points(verb.correct(&"to rise".into(), 0, &Lang::English)), 1.);
    assert_eq!(points(verb.correct(&"rise".into(), 0, &Lang::English)), 1.);
    assert_eq!(points(verb.correct(&"rse".into(), 0, &Lang::English)), 0.);
}

#[test]
fn english_noun() {
    let noun = Entry("the solution".into(), "la solution".into(), GramClass::Noun);
    assert_eq!(points(noun.correct(&"the solution".into(), 0, &Lang::English)), 1.);
    assert_eq!(points(noun.correct(&"solution".into(), 0, &Lang::English)), 1.);
    assert_eq!(points(noun.correct(&"solutio".into(), 0, &Lang::English)), 0.);
}

#[test]
fn german_noun() {
    let noun = Entry("die Kraft".into(), "la force".into(), GramClass::Noun);
    assert_eq!(points(noun.correct(&"die Kraft".into(), 0, &Lang::German)), 1.);
    assert_eq!(points(noun.correct(&"das Kraft".into(), 0, &Lang::German)), 0.5);
    assert_eq!(points(noun.correct(&"Kraft".into(), 0, &Lang::German)), 0.5);
}

#[test]
fn entry_test() {
    let entry = Entry(
        Word::new("the solution"),
        Word::new("la solution"),
        GramClass::Noun,
    );
    assert_eq!(
        points(entry.correct(&String::from("the solution"), 0, &Lang::English)),
        1.
    );
}

#[test]
fn score_counts_half_points() {
    assert_eq!(Score::Zero.halves(), 0);
    assert_eq!(Score::Half.halves(), 1);
    assert_eq!(Score::Full.halves(), 2);
}

#[test]
fn english_article_a() {
    let noun = Entry("a tree".into(), "un arbre".into(), GramClass::Noun);
    assert_eq!(noun.correct(&"tree".into(), 0, &Lang::English), Score::Full);
    assert_eq!(noun.correct(&"A Tree".into(), 0, &Lang::English), Score::Full);
    assert_eq!(noun.correct(&"the tree".into(), 0, &Lang::English), Score::Zero);
}

#[test]
fn english_remainder_is_case_sensitive() {
    let verb = Entry("to rise".into(), "monter".into(), GramClass::Verb);
    assert_eq!(verb.correct(&"Rise".into(), 0, &Lang::English), Score::Zero);
    assert_eq!(verb.correct(&"TO RISE".into(), 0, &Lang::English), Score::Full);
}

#[test]
fn english_marker_needs_its_class() {
    let as_noun = Entry("to rise".into(), "monter".into(), GramClass::Noun);
    assert_eq!(as_noun.correct(&"rise".into(), 0, &Lang::English), Score::Zero);
    let as_verb = Entry("the solution".into(), "la solution".into(), GramClass::Verb);
    assert_eq!(as_verb.correct(&"solution".into(), 0, &Lang::English), Score::Zero);
    let as_other = Entry("the solution".into(), "la solution".into(), GramClass::Other);
    assert_eq!(as_other.correct(&"solution".into(), 0, &Lang::English), Score::Zero);
}

#[test]
fn english_short_forms_do_not_fail() {
    let noun = Entry("ox".into(), "bœuf".into(), GramClass::Noun);
    assert_eq!(noun.correct(&"x".into(), 0, &Lang::English), Score::Zero);
    assert_eq!(noun.correct(&"ox".into(), 0, &Lang::English), Score::Full);
    let verb = Entry("go".into(), "aller".into(), GramClass::Verb);
    assert_eq!(verb.correct(&"".into(), 0, &Lang::English), Score::Zero);
}

#[test]
fn french_noun_articles() {
    let noun = Entry("the work".into(), "le travail".into(), GramClass::Noun);
    assert_eq!(points(noun.correct(&"le travail".into(), 1, &Lang::French)), 1.0);
    assert_eq!(points(noun.correct(&"travail".into(), 1, &Lang::French)), 0.5);
    assert_eq!(points(noun.correct(&"la travail".into(), 1, &Lang::French)), 0.5);
    assert_eq!(points(noun.correct(&"TRAVAIL".into(), 1, &Lang::French)), 0.5);
    assert_eq!(points(noun.correct(&"travai".into(), 1, &Lang::French)), 0.0);
}

#[test]
fn french_any_prefix_of_marker_length_is_forgiven() {
    let noun = Entry("the work".into(), "le travail".into(), GramClass::Noun);
    assert_eq!(points(noun.correct(&"xyztravail".into(), 1, &Lang::French)), 0.5);
    assert_eq!(points(noun.correct(&"éèàtravail".into(), 1, &Lang::French)), 0.5);
    assert_eq!(points(noun.correct(&"xytravail".into(), 1, &Lang::French)), 0.0);
    assert_eq!(points(noun.correct(&"xyzravail".into(), 1, &Lang::French)), 0.0);
}

#[test]
fn french_marker_is_matched_as_written() {
    let noun = Entry("the work".into(), "Le travail".into(), GramClass::Noun);
    assert_eq!(noun.correct(&"travail".into(), 1, &Lang::French), Score::Zero);
    assert_eq!(noun.correct(&"le travail".into(), 1, &Lang::French), Score::Full);
}

#[test]
fn french_short_forms_do_not_fail() {
    let noun = Entry("to".into(), "à".into(), GramClass::Noun);
    assert_eq!(noun.correct(&"a".into(), 1, &Lang::French), Score::Zero);
    assert_eq!(noun.correct(&"À".into(), 1, &Lang::French), Score::Zero);
    assert_eq!(noun.correct(&"à".into(), 1, &Lang::French), Score::Full);
    let bare = Entry("the".into(), "le ".into(), GramClass::Noun);
    assert_eq!(bare.correct(&"xyz".into(), 1, &Lang::French), Score::Zero);
}

#[test]
fn french_verb_has_no_tolerance() {
    let verb = Entry(
        "to rise".into(),
        Word::new_list(vec!["s'élever".into(), "monter".into()]),
        GramClass::Verb,
    );
    assert_eq!(points(verb.correct(&"s'élever".into(), 1, &Lang::French)), 1.0);
    assert_eq!(points(verb.correct(&"monter".into(), 1, &Lang::French)), 1.0);
    assert_eq!(points(verb.correct(&"MONTER".into(), 1, &Lang::French)), 1.0);
    assert_eq!(points(verb.correct(&"le monter".into(), 1, &Lang::French)), 0.0);
    assert_eq!(points(verb.correct(&"mont".into(), 1, &Lang::French)), 0.0);
}

#[test]
fn german_verb_pronouns() {
    let verb = Entry("jdn fragen".into(), "to ask".into(), GramClass::Verb);
    assert_eq!(verb.correct(&"jdn fragen".into(), 0, &Lang::German), Score::Full);
    assert_eq!(verb.correct(&"fragen".into(), 0, &Lang::German), Score::Half);
    assert_eq!(verb.correct(&"jdm fragen".into(), 0, &Lang::German), Score::Half);
    assert_eq!(verb.correct(&"frage".into(), 0, &Lang::German), Score::Zero);
    let noun = Entry("jdn fragen".into(), "to ask".into(), GramClass::Noun);
    assert_eq!(noun.correct(&"fragen".into(), 0, &Lang::German), Score::Zero);
}

#[test]
fn german_other_class_is_exact() {
    let adverb = Entry("die Kraft".into(), "la force".into(), GramClass::Adverb);
    assert_eq!(adverb.correct(&"Kraft".into(), 0, &Lang::German), Score::Zero);
    assert_eq!(adverb.correct(&"DIE KRAFT".into(), 0, &Lang::German), Score::Full);
}

#[test]
fn empty_answer() {
    let noun = Entry("the work".into(), "le travail".into(), GramClass::Noun);
    assert_eq!(points(noun.correct(&"".into(), 1, &Lang::French)), 0.0);
    assert_eq!(points(noun.correct(&"".into(), 1, &Lang::German)), 0.0);
    assert_eq!(points(noun.correct(&"".into(), 0, &Lang::English)), 0.0);
    let blank = Entry("".into(), "".into(), GramClass::Other);
    assert_eq!(blank.correct(&"".into(), 0, &Lang::French), Score::Zero);
    assert_eq!(blank.correct(&"".into(), 0, &Lang::German), Score::Zero);
    assert_eq!(blank.correct(&"".into(), 0, &Lang::English), Score::Full);
    assert_eq!(blank.correct(&"".into(), 0, &Lang::Other), Score::Full);
    let bare = Entry("to ".into(), "".into(), GramClass::Verb);
    assert_eq!(bare.correct(&"".into(), 0, &Lang::English), Score::Full);
}

#[test]
fn other_language_needs_the_form_itself() {
    let entry = Entry(
        Word::new_list(vec!["Hola".into(), "buenas".into()]),
        "hello".into(),
        GramClass::Other,
    );
    assert_eq!(entry.correct(&"Hola".into(), 0, &Lang::Other), Score::Full);
    assert_eq!(entry.correct(&"buenas".into(), 0, &Lang::Other), Score::Full);
    assert_eq!(entry.correct(&"hola".into(), 0, &Lang::Other), Score::Zero);
    assert_eq!(entry.correct(&"Hola / buenas".into(), 0, &Lang::Other), Score::Zero);
}

#[test]
fn best_form_counts() {
    let noun = Entry(
        Word::new_list(vec!["le travail".into(), "travail".into(), "boulot".into()]),
        "the work".into(),
        GramClass::Noun,
    );
    assert_eq!(noun.correct(&"travail".into(), 0, &Lang::French), Score::Full);
    assert_eq!(noun.correct(&"Boulot".into(), 0, &Lang::French), Score::Full);
    let other = Entry(
        Word::new_list(vec!["boulot".into(), "le travail".into(), "job".into()]),
        "the work".into(),
        GramClass::Noun,
    );
    assert_eq!(other.correct(&"travail".into(), 0, &Lang::French), Score::Half);
}

#[test]
fn class_of_the_pair_governs_both_sides() {
    let entry = Entry("the force".into(), "die Kraft".into(), GramClass::Noun);
    assert_eq!(entry.correct(&"force".into(), 0, &Lang::English), Score::Full);
    assert_eq!(entry.correct(&"Kraft".into(), 1, &Lang::German), Score::Half);
    assert_eq!(entry.correct(&"Kraft".into(), 0, &Lang::German), Score::Zero);
}

#[test]
fn stored_forms_score_full() {
    let entries = vec![
        Entry("yes".into(), "oui".into(), GramClass::Adverb),
        Entry("the work".into(), "le travail".into(), GramClass::Noun),
        Entry("to ask".into(), "jdn fragen".into(), GramClass::Verb),
        Entry(
            "to rise".into(),
            Word::new_list(vec!["s'élever".into(), "monter".into()]),
            GramClass::Verb,
        ),
        Entry(Word::parse("big / tall [of a person]"), "groß".into(), GramClass::Adjective),
    ];
    for entry in &entries {
        for lang in [Lang::English, Lang::French, Lang::German, Lang::Other] {
            for form in &entry.0.base {
                assert_eq!(entry.correct(form, 0, &lang), Score::Full);
            }
            for form in &entry.1.base {
                assert_eq!(entry.correct(form, 1, &lang), Score::Full);
            }
        }
    }
}

#[test]
fn graders_by_language() {
    let word = Word::new("die Kraft");
    let answer = String::from("Kraft");
    assert_eq!(german::correct(&word, &answer, &GramClass::Noun), Score::Half);
    assert_eq!(french::correct(&word, &answer, &GramClass::Noun), Score::Zero);
    assert_eq!(english::correct(&word, &answer, &GramClass::Noun), Score::Zero);
    let word = Word::new("la force");
    let answer = String::from("le force");
    assert_eq!(french::correct(&word, &answer, &GramClass::Noun), Score::Half);
    assert_eq!(french::correct(&word, &answer, &GramClass::Verb), Score::Zero);
    let word = Word::new("the force");
    let answer = String::from("force");
    assert_eq!(english::correct(&word, &answer, &GramClass::Noun), Score::Full);
    assert_eq!(english::correct(&word, &answer, &GramClass::Adjective), Score::Zero);
}

#[test]
fn smart_options_marker_rule() {
    let form = String::from("le travail");
    assert_eq!(smart_options(&form, "travail", vec!["le ", "la "]), Score::Half);
    assert_eq!(smart_options(&form, "Travail", vec!["le ", "la "]), Score::Half);
    assert_eq!(smart_options(&form, "la travail", vec!["le ", "la "]), Score::Half);
    assert_eq!(smart_options(&form, "xyztravail", vec!["le ", "la "]), Score::Half);
    assert_eq!(smart_options(&form, "le travail", vec!["le ", "la "]), Score::Half);
    assert_eq!(smart_options(&form, "xyzravail", vec!["le ", "la "]), Score::Zero);
    assert_eq!(smart_options(&form, "", vec!["le ", "la "]), Score::Zero);
    assert_eq!(smart_options(&form, "travail", vec!["la "]), Score::Zero);
    assert_eq!(smart_options(&form, "travail", vec!["der ", "die "]), Score::Zero);
    let short = String::from("le");
    assert_eq!(smart_options(&short, "le", vec!["le ", "la "]), Score::Zero);
    let bare = String::from("le ");
    assert_eq!(smart_options(&bare, "", vec!["le ", "la "]), Score::Half);
    assert_eq!(smart_options(&bare, "xyz", vec!["le ", "la "]), Score::Zero);
}

#[test]
fn slot_out_of_range_is_an_error() {
    let entry = Entry("yes".into(), "oui".into(), GramClass::Adverb);
    assert_eq!(entry.try_get(0), Ok(String::from("yes")));
    assert_eq!(entry.try_get(1), Ok(String::from("oui")));
    assert_eq!(entry.try_get(2), Err(SlotErr::Unavailable));
    let answer = String::from("oui");
    assert_eq!(entry.try_correct(&answer, 1, &Lang::French), Ok(Score::Full));
    assert_eq!(entry.try_correct(&answer, 0, &Lang::French), Ok(Score::Zero));
    assert_eq!(entry.try_correct(&answer, 2, &Lang::French), Err(SlotErr::Unavailable));
    assert_eq!(entry.try_correct(&answer, usize::MAX, &Lang::Other), Err(SlotErr::Unavailable));
}
