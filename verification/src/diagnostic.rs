//! What the compiler reports of a source that it cannot compile.
use vstd::prelude::*;
use crate::token::Token;

verus! {

/// Why a source was refused.
#[derive(Copy, Clone, Debug, PartialEq, Eq, Structural)]
pub enum Reason {
    /// A token that begins no expression stands where one must begin.
    ExpectExpression,
    /// A group was not closed.
    ExpectRightParen,
    /// Something follows the expression.
    ExpectEnd,
    /// A character that begins no token.
    UnexpectedCharacter,
    /// The source holds more than 256 numbers.
    TooManyConstants,
}

/// A refusal: the token at which the compiler gave up, that token's text,
/// and the reason.
#[derive(Clone, Debug, PartialEq, Eq)]
pub struct Diagnostic {
    pub token: Token,
    pub lexeme: Vec<char>,
    pub reason: Reason,
}

pub ghost struct DiagnosticView {
    pub token: Token,
    pub lexeme: Seq<char>,
    pub reason: Reason,
}

impl View for Diagnostic {
    type V = DiagnosticView;

    open spec fn view(&self) -> DiagnosticView {
        DiagnosticView { token: self.token, lexeme: self.lexeme@, reason: self.reason }
    }
}

impl Reason {
    pub open spec fn message_text(self) -> Seq<char> {
        match self {
            Reason::ExpectExpression => "Expect expression."@,
            Reason::ExpectRightParen => "Expect ')' after expression."@,
            Reason::ExpectEnd => "Expect end of expression."@,
            Reason::UnexpectedCharacter => "Unexpected character."@,
            Reason::TooManyConstants => "Too many constants in one chunk."@,
        }
    }

    /// The reason in words.
    pub fn message(&self) -> (text: &'static str)
        ensures
            text@ == self.message_text(),
    {
        match self {
            Reason::ExpectExpression => "Expect expression.",
            Reason::ExpectRightParen => "Expect ')' after expression.",
            Reason::ExpectEnd => "Expect end of expression.",
            Reason::UnexpectedCharacter => "Unexpected character.",
            Reason::TooManyConstants => "Too many constants in one chunk.",
        }
    }
}

} // verus!
