//! A lexical scanner for a small scripting language, verified with Verus.
//!
//! [`tokenize`] turns source text into the sequence of tokens it is made of.
//! What that sequence is, for every text, is defined in [`tokenizer::grammar`].

pub mod tokenizer;

pub use tokenizer::{tokenize, Token, TokenizerError};
