//! The front end of a small schema language: a tokenizer that tags every
//! token with its line and column, and a recursive-descent parser that turns
//! the tokens into an ordered tree of key/value entries, with macro
//! definitions (`macro name($p) = value`) and macro call sites
//! (`@name(args) = value`) recorded as entries keyed by their signature.
//!
//! Both stages are proved to compute functions stated over mathematical
//! models: `lexer::lex_spec` and `parser::parse_spec`.

pub mod diagnostic;
pub mod error;
pub mod keyvalue;
pub mod lexer;
pub mod parsed_file;
pub mod parser;
pub mod text;
pub mod token;
