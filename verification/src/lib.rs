//! Layout formatter and style linter for C-like shader sources.
//!
//! The crate rewrites shader text to a canonical layout and then checks
//! naming, prefix and documentation conventions on the declarations it finds.
//!
//! [`formatter::Formatter::format`] is the way in. It runs four stages, each
//! of which can also be called by itself:
//!
//! - [`layout`]: indentation, braces, brackets, blank lines and directives,
//!   decided character by character;
//! - [`parser::lexer`]: from the text that the layout pass wrote to tokens;
//! - [`parser::grammar`]: from tokens to structs, functions and variables;
//! - [`lint`]: the rules for names, prefixes and documentation.
//!
//! [`config`] holds the rules and reads them from the entries of a rules
//! file, [`scan`] reports what formatting would change, and [`helpers`]
//! turns byte offsets into lines and columns.
//!
//! Every stage has a model, a function on sequences of characters or
//! tokens that says what the stage computes, and the code of the stage is
//! proved to compute just that. What holds of every output is proved of the
//! models: see [`layout::laws`], [`layout::braces`] and [`layout::settle`].

pub mod config;
pub mod formatter;
pub mod helpers;
pub mod layout;
pub mod lint;
pub mod parser;
pub mod rules;
pub mod scan;
pub mod text;
