//! The table that drives the parser: for each kind of token, what it begins,
//! what it continues, and how tightly it binds.
use vstd::prelude::*;
use crate::token::TokenKind;

verus! {

/// How tightly an operator binds, from loosest to tightest.
#[derive(Copy, Clone, Debug, PartialEq, Eq, Structural)]
pub enum Precedence {
    Lowest,
    Assignment,
    Or,
    And,
    Equality,
    Comparison,
    Term,
    Factor,
    Unary,
    Call,
    Primary,
}

/// The rules of the grammar.
#[derive(Copy, Clone, Debug, PartialEq, Eq, Structural)]
pub enum ParseFn {
    Absent,
    Grouping,
    Unary,
    Binary,
    Number,
    Literal,
}

/// One row of the table.
#[derive(Copy, Clone, Debug, PartialEq, Eq, Structural)]
pub struct ParseRule {
    pub prefix: ParseFn,
    pub infix: ParseFn,
    pub precedence: Precedence,
}

impl Precedence {
    /// The place of a level in the order: `Lowest` is 0, `Primary` is 10.
    pub open spec fn rank(self) -> nat {
        match self {
            Precedence::Lowest => 0,
            Precedence::Assignment => 1,
            Precedence::Or => 2,
            Precedence::And => 3,
            Precedence::Equality => 4,
            Precedence::Comparison => 5,
            Precedence::Term => 6,
            Precedence::Factor => 7,
            Precedence::Unary => 8,
            Precedence::Call => 9,
            Precedence::Primary => 10,
        }
    }

    /// The next tighter level; `Primary` is the tightest.
    pub open spec fn tighter(self) -> Precedence {
        match self {
            Precedence::Lowest => Precedence::Assignment,
            Precedence::Assignment => Precedence::Or,
            Precedence::Or => Precedence::And,
            Precedence::And => Precedence::Equality,
            Precedence::Equality => Precedence::Comparison,
            Precedence::Comparison => Precedence::Term,
            Precedence::Term => Precedence::Factor,
            Precedence::Factor => Precedence::Unary,
            Precedence::Unary => Precedence::Call,
            Precedence::Call => Precedence::Primary,
            Precedence::Primary => Precedence::Primary,
        }
    }

    pub fn level(&self) -> (n: u8)
        ensures
            n == self.rank(),
    {
        match self {
            Precedence::Lowest => 0,
            Precedence::Assignment => 1,
            Precedence::Or => 2,
            Precedence::And => 3,
            Precedence::Equality => 4,
            Precedence::Comparison => 5,
            Precedence::Term => 6,
            Precedence::Factor => 7,
            Precedence::Unary => 8,
            Precedence::Call => 9,
            Precedence::Primary => 10,
        }
    }

    pub fn next(&self) -> (up: Precedence)
        ensures
            up == self.tighter(),
    {
        match self {
            Precedence::Lowest => Precedence::Assignment,
            Precedence::Assignment => Precedence::Or,
            Precedence::Or => Precedence::And,
            Precedence::And => Precedence::Equality,
            Precedence::Equality => Precedence::Comparison,
            Precedence::Comparison => Precedence::Term,
            Precedence::Term => Precedence::Factor,
            Precedence::Factor => Precedence::Unary,
            Precedence::Unary => Precedence::Call,
            Precedence::Call => Precedence::Primary,
            Precedence::Primary => Precedence::Primary,
        }
    }
}

/// The table.
pub open spec fn rule_of(kind: TokenKind) -> ParseRule {
    match kind {
        TokenKind::LeftParen => ParseRule {
            prefix: ParseFn::Grouping,
            infix: ParseFn::Absent,
            precedence: Precedence::Lowest,
        },
        TokenKind::Minus => ParseRule {
            prefix: ParseFn::Unary,
            infix: ParseFn::Binary,
            precedence: Precedence::Term,
        },
        TokenKind::Plus => ParseRule {
            prefix: ParseFn::Absent,
            infix: ParseFn::Binary,
            precedence: Precedence::Term,
        },
        TokenKind::Star => ParseRule {
            prefix: ParseFn::Absent,
            infix: ParseFn::Binary,
            precedence: Precedence::Factor,
        },
        TokenKind::Slash => ParseRule {
            prefix: ParseFn::Absent,
            infix: ParseFn::Binary,
            precedence: Precedence::Factor,
        },
        TokenKind::Bang => ParseRule {
            prefix: ParseFn::Unary,
            infix: ParseFn::Absent,
            precedence: Precedence::Lowest,
        },
        TokenKind::Number => ParseRule {
            prefix: ParseFn::Number,
            infix: ParseFn::Absent,
            precedence: Precedence::Lowest,
        },
        TokenKind::True => ParseRule {
            prefix: ParseFn::Literal,
            infix: ParseFn::Absent,
            precedence: Precedence::Lowest,
        },
        TokenKind::False => ParseRule {
            prefix: ParseFn::Literal,
            infix: ParseFn::Absent,
            precedence: Precedence::Lowest,
        },
        TokenKind::Nil => ParseRule {
            prefix: ParseFn::Literal,
            infix: ParseFn::Absent,
            precedence: Precedence::Lowest,
        },
        _ => ParseRule { prefix: ParseFn::Absent, infix: ParseFn::Absent, precedence: Precedence::Lowest },
    }
}

/// The row of the table for a kind of token.
pub fn get_rule(kind: TokenKind) -> (rule: ParseRule)
    ensures
        rule == rule_of(kind),
{
    match kind {
        TokenKind::LeftParen => ParseRule {
            prefix: ParseFn::Grouping,
            infix: ParseFn::Absent,
            precedence: Precedence::Lowest,
        },
        TokenKind::Minus => ParseRule {
            prefix: ParseFn::Unary,
            infix: ParseFn::Binary,
            precedence: Precedence::Term,
        },
        TokenKind::Plus => ParseRule {
            prefix: ParseFn::Absent,
            infix: ParseFn::Binary,
            precedence: Precedence::Term,
        },
        TokenKind::Star => ParseRule {
            prefix: ParseFn::Absent,
            infix: ParseFn::Binary,
            precedence: Precedence::Factor,
        },
        TokenKind::Slash => ParseRule {
            prefix: ParseFn::Absent,
            infix: ParseFn::Binary,
            precedence: Precedence::Factor,
        },
        TokenKind::Bang => ParseRule {
            prefix: ParseFn::Unary,
            infix: ParseFn::Absent,
            precedence: Precedence::Lowest,
        },
        TokenKind::Number => ParseRule {
            prefix: ParseFn::Number,
            infix: ParseFn::Absent,
            precedence: Precedence::Lowest,
        },
        TokenKind::True | TokenKind::False | TokenKind::Nil => ParseRule {
            prefix: ParseFn::Literal,
            infix: ParseFn::Absent,
            precedence: Precedence::Lowest,
        },
        _ => ParseRule { prefix: ParseFn::Absent, infix: ParseFn::Absent, precedence: Precedence::Lowest },
    }
}

/// Only the four binary operators continue an expression, and none of them
/// binds as tightly as a unary operator.
pub proof fn infix_rules(kind: TokenKind)
    ensures
        rule_of(kind).infix == ParseFn::Binary || rule_of(kind).infix == ParseFn::Absent,
        rule_of(kind).infix == ParseFn::Binary <==> rule_of(kind).precedence != Precedence::Lowest,
        rule_of(kind).infix == ParseFn::Binary <==> (kind == TokenKind::Plus || kind
            == TokenKind::Minus || kind == TokenKind::Star || kind == TokenKind::Slash),
        rule_of(kind).precedence.rank() < Precedence::Unary.rank(),
{
}

} // verus!
