//! A lexer for a small expression language of logic gates over numbered
//! terminals, such as `(0 AND 1)`.
//!
//! [`tokenize`] turns a whole input text into a sequence of [`Token`]s or
//! reports the first [`LexingError`]. What it returns is stated over the
//! mathematical model in [`lexer::tokens_of`].

pub mod chars;
pub mod error;
pub mod gate;
pub mod laws;
pub mod lexer;
pub mod rules;
pub mod std_specs;
pub mod token;

pub use error::LexingError;
pub use gate::Gate;
pub use lexer::tokenize;
pub use token::{TerminalId, Token};
