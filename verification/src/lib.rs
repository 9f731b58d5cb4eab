//! A lexical scanner for a small C-like scripting language.

mod cursor;
pub mod diagnostic;
pub mod number;
pub mod scanner;
pub mod text;
pub mod token;
