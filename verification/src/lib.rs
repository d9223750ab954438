//! A small expression language, from text to value: a lexer, a parser that
//! climbs operator precedence, a syntax tree with its printed form, and an
//! evaluator over scopes that closures can capture.
//!
//! Every function carries a contract over the mathematical value of what it
//! takes and returns: texts are sequences of characters, each data type has
//! a view, and the work of each component is a function on those views
//! ([`lexer::next_token_spec`], [`parser::parse_spec`],
//! [`eval::semantics::eval_spec`]). Two round trips are proved of them:
//! [`relex`] for spelling tokens and lexing them again, [`reparse`] for
//! printing a tree and parsing it again. Of evaluation, [`eval::marks`]
//! proves that the mark of a `return` stays inside the evaluator, and
//! [`eval::depth`] that the limit on nested calls changes nothing below it.

pub mod ast;
pub mod eval;
pub mod lexer;
pub mod object;
pub mod parser;
pub mod printer;
pub mod relex;
pub mod reparse;
pub mod text;
pub mod token;
