//! A command-line token dispatcher: it walks a sequence of argument tokens,
//! classifies each one as a long flag, a short-flag cluster or a positional
//! argument, and routes it to a handler that may pull flag values from the
//! stream on demand.

pub mod token;
pub mod source;
pub mod parser;
pub mod laws;

pub use parser::{ArgumentParser, DEFAULT_VERSION, parse};
pub use source::{ParseError, ValueSource};
pub use token::{Origin, ShortCall, TokenClass, classify};
