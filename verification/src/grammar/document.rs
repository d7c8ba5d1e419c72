//! Vocabulary documents: from JSON text to languages and entries.
//!
//! The JSON text is read by the `json` crate. What it yields is copied into a
//! `Node` of this library, and the shape of the document is checked on that.

use vstd::prelude::*;
use json::JsonValue;
use crate::grammar::entry::{Entry, EntryView};
use crate::grammar::lang::{lang_of_label, Lang};
use crate::grammar::text::chars_of;
use crate::grammar::word::{class_of_label, parse_text, GramClass, Word, WordView};

verus! {

/// Why a vocabulary document was refused.
#[derive(Debug, Clone, Copy, PartialEq, Eq, Structural)]
pub enum GramErr {
    /// An entry, or a word or class in it, has a shape that is not supported.
    JsonErr,
    /// The languages are not two names, or the list of entries is no list.
    LangErr,
    /// The text is no JSON at all.
    Unknown,
}

/// A JSON value as mathematics. Numbers and booleans carry nothing that a
/// vocabulary document uses, so they are all `Other`.
pub enum Tree {
    Null,
    Text(Seq<char>),
    List(Seq<Tree>),
    Record(Map<Seq<char>, Tree>),
    Other,
}

/// A JSON value as far as a vocabulary document is read: objects, numbers and
/// booleans are all `Other`.
#[derive(Debug, PartialEq, Eq)]
pub enum Node {
    Null,
    Text(String),
    List(Vec<Node>),
    Other,
}

impl View for Node {
    type V = Tree;

    open spec fn view(&self) -> Tree
        decreases self,
    {
        match self {
            Node::Null => Tree::Null,
            Node::Text(s) => Tree::Text(s@),
            Node::List(items) => Tree::List(
                Seq::new(
                    items@.len(),
                    |i: int|
                        if 0 <= i < items@.len() {
                            items@[i]@
                        } else {
                            Tree::Null
                        },
                ),
            ),
            Node::Other => Tree::Other,
        }
    }
}

/// The two fields of a vocabulary document, each `Null` where it is absent.
#[derive(Debug, PartialEq, Eq)]
pub struct Document {
    pub lang: Node,
    pub list: Node,
}

/// What a database holds: the languages of the two sides, and the entries in
/// the order of the document.
pub struct DatabaseView {
    pub first: Lang,
    pub second: Lang,
    pub entries: Seq<EntryView>,
}

/// `t` with every object in it replaced by `Other`.
pub open spec fn prune(t: Tree) -> Tree
    decreases t,
{
    match t {
        Tree::List(items) => Tree::List(
            Seq::new(
                items.len(),
                |i: int|
                    if 0 <= i < items.len() {
                        prune(items[i])
                    } else {
                        Tree::Null
                    },
            ),
        ),
        Tree::Record(_) => Tree::Other,
        _ => t,
    }
}

/// The member `key` of `t`: `Null` where `t` is no object or has no such
/// member.
pub open spec fn member(t: Tree, key: Seq<char>) -> Tree {
    match t {
        Tree::Record(fields) if fields.contains_key(key) => fields[key],
        _ => Tree::Null,
    }
}

/// The element `i` of `t`: `Null` where `t` is no array or has no such
/// element.
pub open spec fn element(t: Tree, i: int) -> Tree {
    match t {
        Tree::List(items) if 0 <= i < items.len() => items[i],
        _ => Tree::Null,
    }
}

/// The word that a JSON value denotes: a text is read as a word with gloss
/// and alternatives, a non-empty array of texts gives the forms as they
/// stand, and nothing else is a word.
pub open spec fn word_of(t: Tree) -> Result<WordView, GramErr> {
    match t {
        Tree::Text(s) => Ok(parse_text(s)),
        Tree::List(items) => if items.len() > 0 && forall|i: int|
            0 <= i < items.len() ==> #[trigger] items[i] is Text {
            Ok(
                WordView {
                    base: Seq::new(items.len(), |i: int| items[i]->Text_0),
                    desc: Seq::empty(),
                },
            )
        } else {
            Err(GramErr::JsonErr)
        },
        _ => Err(GramErr::JsonErr),
    }
}

/// The class that a JSON value denotes: `Other` for null, the class of the
/// label for a text, and nothing else is a class.
pub open spec fn class_of(t: Tree) -> Result<GramClass, GramErr> {
    match t {
        Tree::Null => Ok(GramClass::Other),
        Tree::Text(s) => Ok(class_of_label(s)),
        _ => Err(GramErr::JsonErr),
    }
}

/// The entry that a JSON value denotes: an array of two words and a class,
/// where the class may be left out.
pub open spec fn entry_of(t: Tree) -> Result<EntryView, GramErr> {
    match t {
        Tree::List(items) if 2 <= items.len() <= 3 => match (
            word_of(items[0]),
            word_of(items[1]),
            class_of(element(t, 2)),
        ) {
            (Ok(first), Ok(second), Ok(class)) => Ok(EntryView { first, second, class }),
            _ => Err(GramErr::JsonErr),
        },
        _ => Err(GramErr::JsonErr),
    }
}

/// The languages that a JSON value names: an array of two texts, each
/// resolved as a label.
pub open spec fn names_of(lang: Tree) -> Option<(Lang, Lang)> {
    match lang {
        Tree::List(names) if names.len() == 2 && names[0] is Text && names[1] is Text => Some(
            (lang_of_label(names[0]->Text_0), lang_of_label(names[1]->Text_0)),
        ),
        _ => None,
    }
}

/// The database that the two fields of a document denote. The languages must
/// be an array of two texts and the list an array, else the document is
/// refused with `LangErr`; then every element of the list must be an entry,
/// else it is refused with `JsonErr`.
pub open spec fn database_of(lang: Tree, list: Tree) -> Result<DatabaseView, GramErr> {
    match (names_of(lang), list) {
        (Some(names), Tree::List(items)) => if forall|i: int|
            0 <= i < items.len() ==> #[trigger] entry_of(items[i]) is Ok {
            Ok(
                DatabaseView {
                    first: names.0,
                    second: names.1,
                    entries: Seq::new(items.len(), |i: int| entry_of(items[i])->Ok_0),
                },
            )
        } else {
            Err(GramErr::JsonErr)
        },
        _ => Err(GramErr::LangErr),
    }
}

/// The views of a sequence of entries.
pub open spec fn entry_views(entries: Seq<Entry>) -> Seq<EntryView> {
    Seq::new(entries.len(), |i: int| entries[i]@)
}

/// What the result of a parse holds.
pub open spec fn outcome(r: Result<([Lang; 2], Vec<Entry>), GramErr>) -> Result<
    DatabaseView,
    GramErr,
> {
    match r {
        Ok(db) => Ok(
            DatabaseView { first: db.0@[0], second: db.0@[1], entries: entry_views(db.1@) },
        ),
        Err(e) => Err(e),
    }
}

/// Reads a word from a JSON value.
pub fn parse_word(raw: &Node) -> (r: Result<Word, GramErr>)
    ensures
        match r {
            Ok(w) => w.wf() && word_of(raw@) == Ok::<WordView, GramErr>(w@),
            Err(e) => word_of(raw@) == Err::<WordView, GramErr>(e),
        },
{
    match raw {
        Node::Text(s) => Ok(Word::parse(s.as_str())),
        Node::List(items) => {
            let ghost trees = raw@->List_0;
            if items.len() == 0 {
                return Err(GramErr::JsonErr);
            }
            let mut words: Vec<String> = Vec::new();
            let mut i: usize = 0;
            while i < items.len()
                invariant
                    i <= items@.len(),
                    raw@ == Tree::List(trees),
                    trees.len() == items@.len(),
                    forall|k: int| 0 <= k < items@.len() ==> trees[k] == (#[trigger] items@[k])@,
                    words@.len() == i,
                    forall|k: int| 0 <= k < i ==> #[trigger] trees[k] == Tree::Text(words@[k]@),
                decreases items@.len() - i,
            {
                match &items[i] {
                    Node::Text(s) => {
                        words.push(s.clone());
                    },
                    _ => {
                        assert(!(trees[i as int] is Text));
                        return Err(GramErr::JsonErr);
                    },
                }
                i += 1;
            }
            let w = Word::new_list(words);
            assert(w@.base =~= word_of(raw@)->Ok_0.base);
            Ok(w)
        },
        _ => Err(GramErr::JsonErr),
    }
}

/// Reads an entry from a JSON value.
pub fn parse_entry(raw: &Node) -> (r: Result<Entry, GramErr>)
    ensures
        match r {
            Ok(entry) => entry.wf() && entry_of(raw@) == Ok::<EntryView, GramErr>(entry@),
            Err(e) => entry_of(raw@) == Err::<EntryView, GramErr>(e),
        },
{
    match raw {
        Node::List(items) => {
            if items.len() < 2 || items.len() > 3 {
                return Err(GramErr::JsonErr);
            }
            assert(raw@->List_0[0] == items@[0]@ && raw@->List_0[1] == items@[1]@);
            let first = match parse_word(&items[0]) {
                Ok(word) => word,
                Err(_) => {
                    return Err(GramErr::JsonErr);
                },
            };
            let second = match parse_word(&items[1]) {
                Ok(word) => word,
                Err(_) => {
                    return Err(GramErr::JsonErr);
                },
            };
            let class = if items.len() == 3 {
                assert(raw@->List_0[2] == items@[2]@);
                match &items[2] {
                    Node::Null => GramClass::default(),
                    Node::Text(label) => GramClass::classify(label.as_str()),
                    _ => {
                        return Err(GramErr::JsonErr);
                    },
                }
            } else {
                GramClass::default()
            };
            Ok(Entry(first, second, class))
        },
        _ => Err(GramErr::JsonErr),
    }
}

/// Reads the languages and the entries from the two fields of a document.
pub fn parse_document(doc: &Document) -> (r: Result<([Lang; 2], Vec<Entry>), GramErr>)
    ensures
        outcome(r) == database_of(doc.lang@, doc.list@),
        r matches Ok(db) ==> forall|i: int| 0 <= i < db.1@.len() ==> (#[trigger] db.1@[i]).wf(),
{
    let (names, items) = match (&doc.lang, &doc.list) {
        (Node::List(names), Node::List(items)) => (names, items),
        _ => {
            return Err(GramErr::LangErr);
        },
    };
    if names.len() != 2 {
        return Err(GramErr::LangErr);
    }
    assert(doc.lang@->List_0[0] == names@[0]@ && doc.lang@->List_0[1] == names@[1]@);
    let first = match &names[0] {
        Node::Text(label) => Lang::classify(label.as_str()),
        _ => {
            return Err(GramErr::LangErr);
        },
    };
    let second = match &names[1] {
        Node::Text(label) => Lang::classify(label.as_str()),
        _ => {
            return Err(GramErr::LangErr);
        },
    };
    let ghost trees = doc.list@->List_0;
    let mut list: Vec<Entry> = Vec::new();
    let mut i: usize = 0;
    while i < items.len()
        invariant
            i <= items@.len(),
            names_of(doc.lang@) == Some((first, second)),
            doc.list@ == Tree::List(trees),
            trees.len() == items@.len(),
            forall|k: int| 0 <= k < items@.len() ==> trees[k] == (#[trigger] items@[k])@,
            list@.len() == i,
            forall|k: int| 0 <= k < i ==> (#[trigger] list@[k]).wf(),
            forall|k: int|
                0 <= k < i ==> entry_of(#[trigger] trees[k]) == Ok::<EntryView, GramErr>(list@[k]@),
        decreases items@.len() - i,
    {
        match parse_entry(&items[i]) {
            Ok(entry) => {
                list.push(entry);
            },
            Err(_) => {
                assert(!(entry_of(trees[i as int]) is Ok));
                return Err(GramErr::JsonErr);
            },
        }
        i += 1;
    }
    let r = Ok(([first, second], list));
    assert(outcome(r)->Ok_0.entries =~= database_of(doc.lang@, doc.list@)->Ok_0.entries);
    r
}

/// Pruning does not change what word a value denotes.
pub proof fn lemma_word_of_pruned(t: Tree)
    ensures
        word_of(prune(t)) == word_of(t),
{
    reveal_with_fuel(prune, 2);
    match t {
        Tree::List(items) => {
            let pruned = prune(t)->List_0;
            assert forall|i: int| 0 <= i < items.len() implies (#[trigger] pruned[i] is Text)
                == (items[i] is Text) && (items[i] is Text ==> pruned[i] == items[i]) by {}
            if word_of(t) is Ok {
                assert(word_of(prune(t)) is Ok);
                assert(word_of(prune(t))->Ok_0.base =~= word_of(t)->Ok_0.base);
            } else if items.len() > 0 {
                let i = choose|i: int| 0 <= i < items.len() && !(#[trigger] items[i] is Text);
                assert(!(pruned[i] is Text));
            }
        },
        _ => {},
    }
}

/// Pruning does not change what entry a value denotes.
pub proof fn lemma_entry_of_pruned(t: Tree)
    ensures
        entry_of(prune(t)) == entry_of(t),
{
    match t {
        Tree::List(items) => {
            if 2 <= items.len() <= 3 {
                lemma_word_of_pruned(items[0]);
                lemma_word_of_pruned(items[1]);
                assert(prune(t)->List_0[0] == prune(items[0]));
                assert(prune(t)->List_0[1] == prune(items[1]));
                if items.len() == 3 {
                    assert(prune(t)->List_0[2] == prune(items[2]));
                }
            }
        },
        _ => {},
    }
}

/// Pruning does not change what database two fields denote.
pub proof fn lemma_database_of_pruned(lang: Tree, list: Tree)
    ensures
        database_of(prune(lang), prune(list)) == database_of(lang, list),
{
    reveal_with_fuel(prune, 2);
    assert(names_of(prune(lang)) == names_of(lang)) by {
        if let Tree::List(names) = lang {
            if names.len() == 2 {
                assert(prune(lang)->List_0[0] == prune(names[0]));
                assert(prune(lang)->List_0[1] == prune(names[1]));
            }
        }
    }
    if let Tree::List(items) = list {
        let pruned = prune(list)->List_0;
        assert forall|i: int| 0 <= i < items.len() implies entry_of(#[trigger] pruned[i])
            == entry_of(items[i]) by {
            lemma_entry_of_pruned(items[i]);
        }
        if names_of(lang) is Some {
            if database_of(lang, list) is Ok {
                assert forall|i: int| 0 <= i < pruned.len() implies #[trigger] entry_of(
                    pruned[i],
                ) is Ok by {
                    assert(entry_of(items[i]) is Ok);
                }
                assert(database_of(prune(lang), prune(list))->Ok_0.entries =~= database_of(
                    lang,
                    list,
                )->Ok_0.entries);
            } else {
                let i = choose|i: int|
                    0 <= i < items.len() && !(#[trigger] entry_of(items[i]) is Ok);
                assert(!(entry_of(pruned[i]) is Ok));
            }
        }
    }
}

/// `json::JsonValue`, the value that the `json` crate reads from a text.
/// Nothing inside it is visible here; `tree_of` names what it holds.
#[verifier::external_type_specification]
#[verifier::external_body]
pub struct ExJsonValue(json::JsonValue);

/// `json::Error`, the reason why the `json` crate refused a text. It is
/// passed on and never looked into.
#[verifier::external_type_specification]
#[verifier::external_body]
pub struct ExJsonError(json::Error);

/// What `json::parse` makes of a text: the value it reads, or nothing where
/// it reports an error.
pub uninterp spec fn json_text(source: Seq<char>) -> Option<Tree>;

/// What a `JsonValue` holds: `Null` for null, `Text` for a string, short or
/// long, `List` for an array, `Record` for an object, and `Other` for a number
/// or a boolean.
pub uninterp spec fn tree_of(value: JsonValue) -> Tree;

/// Calls `json::parse`, which reads a whole text as one JSON value. Its
/// result depends on the text alone: the value read, named by `json_text`, or
/// an error. It counts the digits of a fraction in a 16-bit exponent and does
/// not guard that count, so a text with a longer run of digits is left out.
#[verifier::external_body]
fn read_json(source: &str) -> (r: Result<JsonValue, json::Error>)
    requires
        readable(source@),
    ensures
        match r {
            Ok(value) => json_text(source@) == Some(tree_of(value)),
            Err(_) => json_text(source@) is None,
        },
{
    json::parse(source)
}

/// `JsonValue::is_null` tells whether the value is `null`.
pub assume_specification[ JsonValue::is_null ](value: &JsonValue) -> (b: bool)
    ensures
        b == (tree_of(*value) is Null),
;

/// `JsonValue::is_array` tells whether the value is an array.
pub assume_specification[ JsonValue::is_array ](value: &JsonValue) -> (b: bool)
    ensures
        b == (tree_of(*value) is List),
;

/// `JsonValue::len` gives the number of elements of an array, and 0 for a
/// value that is neither an array nor an object. (For an object it counts the
/// members, of which nothing is claimed here.)
pub assume_specification[ JsonValue::len ](value: &JsonValue) -> (n: usize)
    ensures
        tree_of(*value) matches Tree::List(items) ==> n == items.len(),
        !(tree_of(*value) is List) && !(tree_of(*value) is Record) ==> n == 0,
;

/// `JsonValue::as_str` gives the text of a string, and nothing for any other
/// value.
pub assume_specification<'a>[ JsonValue::as_str ](value: &'a JsonValue) -> (r: Option<&'a str>)
    ensures
        match r {
            Some(s) => tree_of(*value) == Tree::Text(s@),
            None => !(tree_of(*value) is Text),
        },
;

/// Indexing a `JsonValue` by a number gives the element at that place of an
/// array, and `null` where the value is no array or the place is beyond its
/// end.
#[verifier::external_body]
fn item(value: &JsonValue, i: usize) -> (r: &JsonValue)
    ensures
        tree_of(*r) == element(tree_of(*value), i as int),
{
    &value[i]
}

/// Indexing a `JsonValue` by a key gives the member of an object under that
/// key, and `null` where the value is no object or has no such member.
#[verifier::external_body]
fn field<'a>(value: &'a JsonValue, key: &str) -> (r: &'a JsonValue)
    ensures
        tree_of(*r) == member(tree_of(*value), key@),
{
    &value[key]
}

/// Copies a JSON value into a `Node`.
fn lift(value: &JsonValue) -> (node: Node)
    ensures
        node@ == prune(tree_of(*value)),
    decreases tree_of(*value),
{
    if value.is_null() {
        Node::Null
    } else if value.is_array() {
        let n: usize = value.len();
        let ghost trees = tree_of(*value)->List_0;
        let mut items: Vec<Node> = Vec::new();
        let mut i: usize = 0;
        while i < n
            invariant
                tree_of(*value) == Tree::List(trees),
                n == trees.len(),
                i <= n,
                items@.len() == i,
                forall|k: int| 0 <= k < i ==> (#[trigger] items@[k])@ == prune(trees[k]),
            decreases n - i,
        {
            let child = lift(item(value, i));
            items.push(child);
            i += 1;
        }
        let node = Node::List(items);
        assert(node@->List_0 =~= prune(tree_of(*value))->List_0);
        node
    } else {
        match value.as_str() {
            Some(text) => Node::Text(text.to_owned()),
            None => Node::Other,
        }
    }
}

/// The longest run of digits that a text may hold and still be read.
pub const MAX_DIGITS: usize = 32767;

/// Whether `c` is one of the digits `0` to `9`.
pub open spec fn is_digit(c: char) -> bool {
    '0' <= c && c <= '9'
}

/// Whether the `n` characters of `s` from position `i` on are all digits.
pub open spec fn digits_at(s: Seq<char>, i: int, n: int) -> bool {
    &&& 0 <= i && i + n <= s.len()
    &&& forall|k: int| i <= k < i + n ==> is_digit(#[trigger] s[k])
}

/// Whether more than `MAX_DIGITS` digits stand in a row from position `i`
/// of `s` on.
pub open spec fn long_run_at(s: Seq<char>, i: int) -> bool {
    digits_at(s, i, MAX_DIGITS + 1)
}

/// Whether no run of digits in `s`, wherever it stands, is longer than
/// `MAX_DIGITS`.
pub open spec fn readable(s: Seq<char>) -> bool {
    forall|i: int| !long_run_at(s, i)
}

/// Tells whether a text holds no run of digits longer than `MAX_DIGITS`.
pub fn is_readable(source: &str) -> (r: bool)
    ensures
        r == readable(source@),
{
    let s = chars_of(source);
    let mut run: usize = 0;
    let mut i: usize = 0;
    while i < s.len()
        invariant
            s@ == source@,
            i <= s@.len(),
            run <= MAX_DIGITS,
            run <= i,
            forall|k: int| i - run <= k < i ==> is_digit(#[trigger] s@[k]),
            run < i ==> !is_digit(s@[i - run - 1]),
            forall|j: int| j + MAX_DIGITS + 1 <= i ==> !long_run_at(s@, j),
        decreases s@.len() - i,
    {
        let c = s[i];
        if '0' <= c && c <= '9' {
            if run == MAX_DIGITS {
                assert(long_run_at(s@, i - run));
                return false;
            }
            run += 1;
        } else {
            run = 0;
        }
        i += 1;
        assert forall|j: int| j + MAX_DIGITS + 1 <= i implies !long_run_at(s@, j) by {
            if j + MAX_DIGITS + 1 == i && 0 <= j {
                assert(run < i);
                assert(!is_digit(s@[i - run - 1]));
            }
        }
    }
    true
}

/// The database that a text denotes: `Unknown` where the text holds too long
/// a run of digits or is no JSON, else what its members `lang` and `list`
/// denote.
pub open spec fn database_of_text(source: Seq<char>) -> Result<DatabaseView, GramErr> {
    if !readable(source) {
        Err(GramErr::Unknown)
    } else {
        match json_text(source) {
            Some(root) => database_of(member(root, "lang"@), member(root, "list"@)),
            None => Err(GramErr::Unknown),
        }
    }
}

/// Reads a vocabulary document: the languages of the two sides and the
/// entries, or the reason why the document is refused. A text with a run of
/// more than `MAX_DIGITS` digits is refused unread.
pub fn parse(raw: &String) -> (r: Result<([Lang; 2], Vec<Entry>), GramErr>)
    ensures
        outcome(r) == database_of_text(raw@),
        r matches Ok(db) ==> forall|i: int| 0 <= i < db.1@.len() ==> (#[trigger] db.1@[i]).wf(),
{
    if !is_readable(raw.as_str()) {
        return Err(GramErr::Unknown);
    }
    match read_json(raw.as_str()) {
        Ok(data) => {
            let doc = Document { lang: lift(field(&data, "lang")), list: lift(field(&data, "list")) };
            proof {
                lemma_database_of_pruned(
                    member(tree_of(data), "lang"@),
                    member(tree_of(data), "list"@),
                );
            }
            parse_document(&doc)
        },
        Err(_) => Err(GramErr::Unknown),
    }
}

} // verus!
