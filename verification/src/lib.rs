//! hiker: a small language for stating architectural intent.
//!
//! The pipeline is lexer -> parser -> checker, plus an interpreter for laws
//! (`eval`), a model of extracted codebase facts (`facts`) and the conformance
//! pass that evaluates laws over those facts (`verify`).
pub mod text;
pub mod lexer;
pub mod layout;
pub mod ast;
pub mod parser;
pub mod checker;
pub mod eval;
pub mod facts;
pub mod verify;
pub mod pipeline;
pub mod backends;
