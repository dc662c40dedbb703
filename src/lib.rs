//! An interactive evaluation engine for a compiled language: snippets are
//! accumulated into a program that is rebuilt, compiled and run on every turn.
pub mod text;
pub mod complete;
pub mod source;
pub mod compile;
pub mod repl;
