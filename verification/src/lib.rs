//! A small Markdown tokenizer and HTML renderer.
//!
//! [`parse`] turns the text of a document into a sequence of block tokens
//! and [`tokens_to_html`] turns such a sequence into HTML. Every function
//! carries a contract over a mathematical model of the text (`Seq<char>`)
//! that Verus checks.

pub mod inline;
pub mod line;
pub mod parser;
pub mod render;
pub mod repr;
pub mod text;
pub mod token;

pub use parser::parse;
pub use render::tokens_to_html;
pub use token::{Metadata, Token, Tokens};
