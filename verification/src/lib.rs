//! Execution core of a small line-oriented scripting language.
//!
//! A script is a sequence of lines. [`parser::parse_lines`] turns them into
//! a tree of [`ast::Statement`]s, [`diagnostics::run_tcas`] checks the tree
//! before anything runs, and [`eval::eval_all`] checks and then runs it.
//! Nothing here reads files, prints or ends the process: scripts come in as
//! lines, and findings, printed lines and failures go back as values.
//!
//! Every function is verified against a contract that is stated over the
//! mathematical value of its arguments: character sequences for text,
//! [`ast::StatementView`] for trees.

pub mod ast;
pub mod text;
pub mod token;
pub mod parser;
pub mod diagnostics;
pub mod eval;
