//! A parser for a markdown-like dialect: front matter, block grammar and
//! inline grammar, with a renderer to HTML.
//!
//! Each grammar rule is stated as a spec function over positions in a
//! character sequence (`inline_spec`, `block_spec`), and the executable
//! parsers (`inline`, `block`) are proved to compute exactly those rules.
pub mod ast;
pub mod text;
pub mod scan;
pub mod lex;
pub mod combinator;
pub mod inline_spec;
pub mod inline;
pub mod inline_laws;
pub mod block_spec;
pub mod block;
pub mod block_laws;
pub mod front_matter;
pub mod document;
pub mod html;
pub mod page;
pub mod images;
pub mod serve;
