//! A recursive-descent parser that turns a stream of typed, positioned
//! tokens into a structured document value, reporting a precise, located
//! diagnostic on the first grammar violation.
//!
//! The tokenizer that produces the stream is an external collaborator: this
//! crate starts from a `Vec<Token>` and either builds a `Json` value or
//! returns a `ParseError` naming the offending token.

pub mod error;
pub mod json;
pub mod laws;
pub mod parser;
pub mod semantics;
pub mod token;

pub use error::{ParseError, ParseErrorType};
pub use json::Json;
pub use parser::{check_trailing_comma, expect, expect_key, parse, ParseContext};
pub use token::{Token, TokenType};
