//! Languages and the labels that name them.

use vstd::prelude::*;
use crate::grammar::text::{alike, alike_text, chars_of};

verus! {

/// A language with grading rules of its own, or any other.
#[derive(Debug, Clone, Copy, PartialEq, Eq, Structural)]
pub enum Lang {
    English,
    French,
    German,
    Other,
}

/// The language that a label names, whatever the case of its ASCII letters:
/// its English or native name, its code, or a regional tag; `Other` for a
/// label that names none.
pub open spec fn lang_of_label(label: Seq<char>) -> Lang {
    if alike(label, "english"@) || alike(label, "en"@) || alike(label, "en_US"@) || alike(
        label,
        "en_GB"@,
    ) {
        Lang::English
    } else if alike(label, "german"@) || alike(label, "deutsch"@) || alike(label, "de"@) || alike(
        label,
        "de_DE"@,
    ) {
        Lang::German
    } else if alike(label, "french"@) || alike(label, "français"@) || alike(label, "francais"@)
        || alike(label, "fr"@) || alike(label, "fr_FR"@) {
        Lang::French
    } else {
        Lang::Other
    }
}

/// The name under which a language is shown.
pub open spec fn lang_name(lang: Lang) -> Seq<char> {
    match lang {
        Lang::English => "English"@,
        Lang::German => "Deutsch"@,
        Lang::French => "Français"@,
        Lang::Other => "Other"@,
    }
}

impl Lang {
    /// Resolves a label to its language.
    pub fn classify(label: &str) -> (r: Lang)
        ensures
            r == lang_of_label(label@),
    {
        let l = chars_of(label);
        if alike_text(&l, "english") || alike_text(&l, "en") || alike_text(&l, "en_US")
            || alike_text(&l, "en_GB") {
            Lang::English
        } else if alike_text(&l, "german") || alike_text(&l, "deutsch") || alike_text(&l, "de")
            || alike_text(&l, "de_DE") {
            Lang::German
        } else if alike_text(&l, "french") || alike_text(&l, "français") || alike_text(
            &l,
            "francais",
        ) || alike_text(&l, "fr") || alike_text(&l, "fr_FR") {
            Lang::French
        } else {
            Lang::Other
        }
    }

    /// The name under which the language is shown.
    pub fn name(&self) -> (r: &'static str)
        ensures
            r@ == lang_name(*self),
    {
        match self {
            Lang::English => "English",
            Lang::German => "Deutsch",
            Lang::French => "Français",
            Lang::Other => "Other",
        }
    }
}

impl From<&str> for Lang {
    fn from(value: &str) -> (r: Lang) {
        Lang::classify(value)
    }
}

impl vstd::std_specs::convert::FromSpecImpl<&str> for Lang {
    open spec fn obeys_from_spec() -> bool {
        true
    }

    open spec fn from_spec(value: &str) -> Lang {
        lang_of_label(value@)
    }
}

} // verus!
