//! A lexer for a lightweight inline-tagging notation: free text interspersed
//! with bracketed references such as `[user:42]` or `[article:7]`.
//!
//! The lexer is a pull-based cursor over the input. Each call to
//! [`TokenIter::next`] yields either a literal text run, a classified tag, a
//! recoverable error carrying the line at which the offending bracket began,
//! or the end-of-input signal. Malformed tags never abort the traversal.

pub mod digits;
pub mod grammar;
pub mod lexer;
pub mod position;

pub use grammar::Tag;
pub use grammar::TagParseErr;
pub use lexer::Token;
pub use lexer::TokenIter;
pub use lexer::TokenizeErr;
pub use position::Position;
