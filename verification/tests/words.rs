use ulang::grammar::{Entry, GramClass, Lang, Word};

#[test]
fn new_takes_the_text_as_it_stands() {
    let word = Word::new("big / tall [of a person]");
    assert_eq!(word.base, vec![String::from("big / tall [of a person]")]);
    assert_eq!(word.desc, "");
    let same: Word = "big / tall [of a person]".into();
    assert_eq!(same, word);
}

#[test]
fn new_list_takes_the_forms_as_they_stand() {
    let word = Word::new_list(vec!["a / b".into(), "c [d]".into()]);
    assert_eq!(word.base, vec![String::from("a / b"), String::from("c [d]")]);
    assert_eq!(word.desc, "");
}

#[test]
fn parse_plain_text() {
    let word = Word::parse("oui");
    assert_eq!(word.base, vec![String::from("oui")]);
    assert_eq!(word.desc, "");
    assert_eq!(word, Word::new("oui"));
}

#[test]
fn parse_alternatives() {
    let word = Word::parse("big / tall / large");
    assert_eq!(
        word.base,
        vec![String::from("big"), String::from("tall"), String::from("large")]
    );
    assert_eq!(word.desc, "");
}

#[test]
fn parse_gloss() {
    let word = Word::parse("big / tall [ of a person ]");
    assert_eq!(word.base, vec![String::from("big"), String::from("tall")]);
    assert_eq!(word.desc, "of a person");
}

#[test]
fn parse_gloss_takes_what_follows_with_it() {
    let word = Word::parse("bank [money] / shore [river] rest");
    assert_eq!(word.base, vec![String::from("bank")]);
    assert_eq!(word.desc, "money] / shore [river");
}

#[test]
fn parse_gloss_needs_a_character_inside() {
    let word = Word::parse("list [] / array");
    assert_eq!(word.base, vec![String::from("list []"), String::from("array")]);
    assert_eq!(word.desc, "");
    let word = Word::parse("list []] / array");
    assert_eq!(word.base, vec![String::from("list")]);
    assert_eq!(word.desc, "]");
}

#[test]
fn parse_gloss_stays_on_one_line() {
    let word = Word::parse("a [b\nc] d");
    assert_eq!(word.base, vec![String::from("a [b\nc] d")]);
    assert_eq!(word.desc, "");
    let word = Word::parse("a [b\nc] [d] e]\nf]");
    assert_eq!(word.base, vec![String::from("a [b\nc]")]);
    assert_eq!(word.desc, "d] e");
}

#[test]
fn parse_unclosed_bracket_is_text() {
    let word = Word::parse("a [b / c");
    assert_eq!(word.base, vec![String::from("a [b"), String::from("c")]);
    assert_eq!(word.desc, "");
}

#[test]
fn parse_trims_the_text() {
    let word = Word::parse("  oui \t");
    assert_eq!(word.base, vec![String::from("oui")]);
    let word = Word::parse("\u{a0}oui / si\u{3000}[ \t]");
    assert_eq!(word.base, vec![String::from("oui"), String::from("si")]);
    assert_eq!(word.desc, "");
}

#[test]
fn parse_delimiter_is_exact() {
    let word = Word::parse("a/b");
    assert_eq!(word.base, vec![String::from("a/b")]);
    let word = Word::parse("a /b / c\t/\td");
    assert_eq!(word.base, vec![String::from("a /b"), String::from("c\t/\td")]);
    let word = Word::parse("a / / b");
    assert_eq!(word.base, vec![String::from("a"), String::from("/ b")]);
    let word = Word::parse("a /  / b");
    assert_eq!(word.base, vec![String::from("a"), String::from(""), String::from("b")]);
}

#[test]
fn parse_keeps_one_form_at_least() {
    assert_eq!(Word::parse("").base, vec![String::new()]);
    assert_eq!(Word::parse("   ").base, vec![String::new()]);
    let word = Word::parse("[note]");
    assert_eq!(word.base, vec![String::new()]);
    assert_eq!(word.desc, "note");
}

#[test]
fn parse_counts_characters_not_bytes() {
    let word = Word::parse("élève / écolier [à l'école]");
    assert_eq!(word.base, vec![String::from("élève"), String::from("écolier")]);
    assert_eq!(word.desc, "à l'école");
}

#[test]
fn display_joins_forms_and_adds_gloss() {
    assert_eq!(Word::new("oui").display(), "oui");
    let word = Word::new_list(vec!["s'élever".into(), "monter".into()]);
    assert_eq!(word.display(), "s'élever / monter");
    let word = Word::parse("big / tall / large [ of a person ]");
    assert_eq!(word.display(), "big / tall / large [of a person]");
    let word = Word::parse("[note]");
    assert_eq!(word.display(), " [note]");
}

#[test]
fn display_then_parse_gives_the_word_back() {
    let word = Word::parse("big / tall [of a person]");
    assert_eq!(Word::parse(&word.display()), word);
}

#[test]
fn entry_get_shows_the_side() {
    let entry = Entry(
        Word::parse("to rise [sun]"),
        Word::new_list(vec!["s'élever".into(), "monter".into()]),
        GramClass::Verb,
    );
    assert_eq!(entry.get(0), "to rise [sun]");
    assert_eq!(entry.get(1), "s'élever / monter");
}

#[test]
fn gram_class_labels() {
    for label in ["noun", "Noun", "NOUN", "nom", "Nom", "n", "N"] {
        assert_eq!(GramClass::classify(label), GramClass::Noun);
    }
    for label in ["verb", "Verb", "verbe", "Verbe", "v", "V"] {
        assert_eq!(GramClass::classify(label), GramClass::Verb);
    }
    for label in ["adverb", "Adverb", "adv", "Adv", "adverbe", "ADVERBE"] {
        assert_eq!(GramClass::classify(label), GramClass::Adverb);
    }
    for label in ["adjectiv", "Adjectiv", "adj", "Adj", "adjectif", "Adjectif"] {
        assert_eq!(GramClass::classify(label), GramClass::Adjective);
    }
    for label in ["", "nouns", " noun", "adjective", "pronoun", "x"] {
        assert_eq!(GramClass::classify(label), GramClass::Other);
    }
    assert_eq!(GramClass::default(), GramClass::Other);
    assert_eq!(GramClass::from("nom"), GramClass::Noun);
}

#[test]
fn lang_labels() {
    for label in ["English", "english", "ENGLISH", "en", "EN", "en_US", "en_us", "en_GB"] {
        assert_eq!(Lang::classify(label), Lang::English);
    }
    for label in ["French", "french", "Français", "français", "Francais", "francais", "fr", "fr_FR"] {
        assert_eq!(Lang::classify(label), Lang::French);
    }
    for label in ["German", "german", "Deutsch", "deutsch", "DEUTSCH", "de", "de_DE"] {
        assert_eq!(Lang::classify(label), Lang::German);
    }
    for label in ["", "es", "Spanish", "en-US", "fr_CA", "english ", "anglais"] {
        assert_eq!(Lang::classify(label), Lang::Other);
    }
    assert_eq!(Lang::from("de"), Lang::German);
}

#[test]
fn lang_names() {
    assert_eq!(Lang::English.name(), "English");
    assert_eq!(Lang::French.name(), "Français");
    assert_eq!(Lang::German.name(), "Deutsch");
    assert_eq!(Lang::Other.name(), "Other");
    for lang in [Lang::English, Lang::French, Lang::German, Lang::Other] {
        assert_eq!(Lang::classify(lang.name()), lang);
    }
}
