//! Lexical analysis for the Lume language: source text in, located tokens
//! (or one located error) out.
pub mod error;
pub mod fault;
pub mod guarantees;
pub mod lexer;
pub mod literal;
pub mod number;
pub mod scan;
pub mod separators;
pub mod span;
pub mod text;
pub mod token;

pub use error::LumeError;
pub use lexer::lex;
pub use number::i64_from_radix;
pub use span::Span;
pub use token::{Token, keyword_or_ident};
