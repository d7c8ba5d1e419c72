//! Vocabulary drill core: bilingual word pairs, a parser for vocabulary
//! documents, and grammar-tolerant grading of a typed answer.

pub mod grammar;
