//! A tree-walking interpreter for a small dynamically typed scripting
//! language, with machine-checked contracts.
//!
//! Source text goes through four stages:
//!
//! - [`lexer`] turns characters, read through a [`cursor`], into
//!   [`token`]s;
//! - [`parser`] turns tokens into the statements and expressions of
//!   [`ast`], exactly as [`grammar`] says, and collects the errors of the
//!   statements that do not parse;
//! - [`interpreter`] executes statements against the scopes of an
//!   [`environment`], exactly as [`semantics`] says;
//! - [`runner`] keeps one interpreter for a whole session.
//!
//! Numbers are IEEE-754 doubles. The library holds them as bits and asks
//! its host for every operation on them through [`number::Arithmetic`]; it
//! prints nothing itself and hands printed lines and error messages back to
//! its caller.

pub mod ast;
pub mod callable;
pub mod cursor;
pub mod environment;
pub mod grammar;
pub mod interpreter;
pub mod lexer;
pub mod number;
pub mod parser;
pub mod runner;
pub mod semantics;
pub mod token;
