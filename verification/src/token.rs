//! The data model of the scanner: tokens, source positions, and the reasons
//! a scan can stop early.

use vstd::prelude::*;

verus! {

/// A classified unit of scanned text: a run of decimal digits read as a
/// base-10 integer, or a run of lowercase ASCII letters kept as a name.
#[derive(Debug, PartialEq, Eq)]
pub enum Token {
    Number(i32),
    Name(String),
}

/// The mathematical content of a token: an unbounded integer for a number,
/// a sequence of characters for a name.
pub enum TokenView {
    Number(int),
    Name(Seq<char>),
}

impl View for Token {
    type V = TokenView;

    open spec fn view(&self) -> TokenView {
        match self {
            Token::Number(n) => TokenView::Number(*n as int),
            Token::Name(s) => TokenView::Name(s@),
        }
    }
}

/// The views of a sequence of tokens, in order.
pub open spec fn token_views(ts: Seq<Token>) -> Seq<TokenView> {
    ts.map_values(|t: Token| t@)
}

/// How far scanning has progressed within the current line: `start` is the
/// offset where the current token's scan began, `end` the offset just after
/// the last character consumed, and `line` the line number the tokens belong
/// to (always zero here, since one call scans exactly one line).
#[derive(Debug, Clone, Copy, PartialEq, Eq, Structural)]
pub struct Position {
    pub start: u32,
    pub end: u32,
    pub line: u32,
}

impl Position {
    /// A position is well formed when the current token's start does not lie
    /// past the scanning frontier.
    pub open spec fn wf(&self) -> bool {
        self.start <= self.end
    }

    /// The position at the beginning of a fresh line.
    pub fn new() -> (p: Position)
        ensures
            p == (Position { start: 0, end: 0, line: 0 }),
            p.wf(),
    {
        Position { start: 0, end: 0, line: 0 }
    }
}

/// A token together with the position that was current when the token was
/// recognized.
#[derive(Debug, PartialEq, Eq)]
pub struct TokenData {
    pub token: Token,
    pub position: Position,
}

impl TokenData {
    pub open spec fn wf(&self) -> bool {
        self.position.wf()
    }

    pub fn new(token: Token, position: Position) -> (d: TokenData)
        requires
            position.wf(),
        ensures
            d.token == token,
            d.position == position,
            d.wf(),
    {
        TokenData { token, position }
    }
}

/// Why a scan stopped before the end of the line: a character outside the
/// accepted set was met, or a digit run's value does not fit in 32 signed
/// bits.
#[derive(Debug, Clone, Copy, PartialEq, Eq, Structural)]
pub enum ScanError {
    UnrecognizedCharacter(char),
    NumericOverflow,
}

} // verus!
