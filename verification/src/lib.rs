//! A line-oriented command shell, front end first.
//!
//! The core turns text into directives in two stages: [`lex`] scans text into
//! tokens, and [`parse`] reads the tokens through a [`lookahead`] cursor and
//! builds commands, redirections, connectors, heredocs and strings. [`laws`]
//! states what holds of the parser for every input.
//!
//! Around the core stand the decisions of the programs that use it, free of
//! any input and output: the options and the lines of the interactive
//! [`shell`], how a directive is [`run`], and the built-in commands of
//! [`qiish`] with [`cat`], [`cp`], [`rm`] and the [`listing`] of directories.
//! [`text`] holds what they share for working on characters.

pub mod cat;
pub mod cp;
pub mod laws;
pub mod lex;
pub mod link;
pub mod listing;
pub mod lookahead;
pub mod options;
pub mod parse;
pub mod qiish;
pub mod rm;
pub mod run;
pub mod shell;
pub mod text;
