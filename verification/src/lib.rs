//! Core logic of a chat-bot command router.
//!
//! The heart is the arithmetic expression interpreter behind the
//! calculator command: [`lexer`] turns raw text into tokens, [`parser`]
//! parses and evaluates them in one recursive-descent pass, and
//! [`render`] turns the result into a display string.  Numbers are
//! exact rationals with `i64` components ([`num`]); every stage is
//! specified against a mathematical model of the grammar and proved
//! against it.
//!
//! Around the interpreter stand the other computations the router
//! needs: a base64 codec ([`codec`]), command-line splitting and the
//! help table ([`command`]), text transformations ([`text`]), and the
//! bot's shared state with the guessing game's rules ([`state`]).

pub mod num;
pub mod token;
pub mod lexer;
pub mod parser;
pub mod render;
pub mod codec;
pub mod command;
pub mod state;
pub mod text;

pub use num::Value;
