//! A line-oriented lexical scanner: one line of text in, an ordered sequence
//! of classified tokens (integer literals and lowercase-letter names) out.
//!
//! The scan model in `scan` says, over sequences of characters, exactly which
//! tokens a line holds and where a scan stops; the executable lexer in
//! `lexer` is proved to return precisely that. The laws in `laws` state the
//! scanner's general properties as proved theorems.

pub mod laws;
pub mod lexer;
pub mod scan;
pub mod token;
