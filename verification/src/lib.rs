//! A small lexer engine: an ordered table of token rules is run over an
//! input string left to right; at each position the rule with the longest
//! match wins (earlier rules win ties), whitespace is skipped between
//! tokens, and the result is either the full token sequence or a lexical
//! error pointing at the first unmatched character.

pub mod lexer;
pub mod rules;
pub mod span;
pub mod text;
pub mod token;
