//! The core of a small interactive command interpreter: the line scanner that
//! decides whether input is complete, the tokenizer and command parser, the
//! interpreter's state machine, the builtin registry with its dispatch rules,
//! and the pure computations behind the builtin commands.

pub mod text;
pub mod scan;
pub mod lexer;
pub mod parse;
pub mod token;
pub mod exec;
pub mod shell;
pub mod builtins;
pub mod prompt;
pub mod listing;
