//! The vocabulary model and the answer graders.

pub mod document;
pub mod english;
pub mod entry;
pub mod french;
pub mod german;
pub mod lang;
pub mod laws;
pub mod score;
pub mod text;
pub mod word;

pub use document::{
    is_readable, parse, parse_document, parse_entry, parse_word, Document, GramErr, Node, MAX_DIGITS,
};
pub use entry::{Entry, EntryView, SlotErr};
pub use lang::Lang;
pub use score::{smart_options, Score};
pub use word::{GramClass, Word, WordView};
