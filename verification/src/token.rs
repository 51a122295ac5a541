//! Tokens: what the lexer hands to the parser.
use vstd::prelude::*;

verus! {

/// The kinds of token. `Error` marks a character that begins no token, `Eof`
/// the end of the source.
#[derive(Copy, Clone, Debug, PartialEq, Eq, Structural)]
pub enum TokenKind {
    LeftParen,
    RightParen,
    Minus,
    Plus,
    Slash,
    Star,
    Bang,
    Number,
    True,
    False,
    Nil,
    Identifier,
    Error,
    Eof,
}

/// A token: its kind, the place of its text in the source (counted in
/// characters) and the line it stands on.
#[derive(Copy, Clone, Debug, PartialEq, Eq, Structural)]
pub struct Token {
    pub kind: TokenKind,
    pub start: usize,
    pub length: usize,
    pub line: usize,
}

impl Token {
    /// Whether the token's text lies inside `source`.
    pub open spec fn within(self, source: Seq<char>) -> bool {
        self.start + self.length <= source.len()
    }

    /// The token's text: the characters of `source` that it covers, or nothing
    /// where it reaches beyond the source.
    pub open spec fn text(self, source: Seq<char>) -> Seq<char> {
        if self.within(source) {
            source.subrange(self.start as int, self.start + self.length)
        } else {
            Seq::empty()
        }
    }
}

} // verus!
