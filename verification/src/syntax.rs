//! The grammar: what the parser makes of a sequence of tokens, as a tree,
//! and the bytecode that stands for a tree.
//!
//! ```text
//! program    := expression EOF
//! expression := term
//! term       := factor (("+" | "-") factor)*
//! factor     := unary (("*" | "/") unary)*
//! unary      := ("-" | "!") unary | primary
//! primary    := NUMBER | "true" | "false" | "nil" | "(" expression ")"
//! ```
use vstd::prelude::*;
use crate::bytecodes::{join_is_associative, ChunkView};
use crate::diagnostic::{DiagnosticView, Reason};
use crate::opcode::OpCode;
use crate::parser_rules::{infix_rules, rule_of, ParseFn, Precedence};
use crate::token::{Token, TokenKind};

verus! {

/// The most constants that a chunk can name: an index is one byte.
pub const MAX_CONSTANTS: usize = 256;

/// An expression, with the tokens that it was read from.
pub ghost enum Expr {
    Number { token: Token },
    Literal { token: Token },
    Grouping { open: Token, inner: Box<Expr>, close: Token },
    Unary { operator: Token, operand: Box<Expr> },
    Binary { left: Box<Expr>, operator: Token, right: Box<Expr> },
}

/// The instruction for `true`, `false` and `nil`.
pub open spec fn literal_op(kind: TokenKind) -> OpCode {
    match kind {
        TokenKind::True => OpCode::OpTrue,
        TokenKind::False => OpCode::OpFalse,
        _ => OpCode::OpNil,
    }
}

/// The instruction for a unary `-` or `!`.
pub open spec fn unary_op(kind: TokenKind) -> OpCode {
    match kind {
        TokenKind::Minus => OpCode::OpNegate,
        _ => OpCode::OpNot,
    }
}

/// The instruction for a binary `+`, `-`, `*` or `/`.
pub open spec fn binary_op(kind: TokenKind) -> OpCode {
    match kind {
        TokenKind::Plus => OpCode::OpAdd,
        TokenKind::Minus => OpCode::OpSubtract,
        TokenKind::Star => OpCode::OpMultiple,
        _ => OpCode::OpDivide,
    }
}

impl Expr {
    /// How many numbers the expression holds.
    pub open spec fn numbers(self) -> nat
        decreases self,
    {
        match self {
            Expr::Number { .. } => 1,
            Expr::Literal { .. } => 0,
            Expr::Grouping { inner, .. } => inner.numbers(),
            Expr::Unary { operand, .. } => operand.numbers(),
            Expr::Binary { left, right, .. } => left.numbers() + right.numbers(),
        }
    }

    /// The tokens of the expression, as they stand in the source.
    pub open spec fn tokens(self) -> Seq<Token>
        decreases self,
    {
        match self {
            Expr::Number { token } => seq![token],
            Expr::Literal { token } => seq![token],
            Expr::Grouping { open, inner, close } => seq![open] + inner.tokens() + seq![close],
            Expr::Unary { operator, operand } => seq![operator] + operand.tokens(),
            Expr::Binary { left, operator, right } => left.tokens() + seq![operator]
                + right.tokens(),
        }
    }

    /// How tightly the expression holds together: a binary expression as its
    /// operator does, a unary one as `Unary`, every other one as `Primary`.
    pub open spec fn tightness(self) -> Precedence {
        match self {
            Expr::Binary { operator, .. } => rule_of(operator.kind).precedence,
            Expr::Unary { .. } => Precedence::Unary,
            _ => Precedence::Primary,
        }
    }

    /// Whether the tree is one of the grammar: each node has a token of its
    /// kind, the operand of a unary operator is no bare binary expression,
    /// the left operand of a binary operator binds at least as tightly as
    /// the operator and the right operand more tightly.
    pub open spec fn well_formed(self) -> bool
        decreases self,
    {
        match self {
            Expr::Number { token } => token.kind == TokenKind::Number,
            Expr::Literal { token } => rule_of(token.kind).prefix == ParseFn::Literal,
            Expr::Grouping { open, inner, close } => {
                &&& open.kind == TokenKind::LeftParen
                &&& close.kind == TokenKind::RightParen
                &&& inner.well_formed()
            },
            Expr::Unary { operator, operand } => {
                &&& rule_of(operator.kind).prefix == ParseFn::Unary
                &&& operand.well_formed()
                &&& operand.tightness().rank() >= Precedence::Unary.rank()
            },
            Expr::Binary { left, operator, right } => {
                &&& rule_of(operator.kind).infix == ParseFn::Binary
                &&& left.well_formed()
                &&& right.well_formed()
                &&& left.tightness().rank() >= rule_of(operator.kind).precedence.rank()
                &&& right.tightness().rank() > rule_of(operator.kind).precedence.rank()
            },
        }
    }

    /// The bytecode of the expression, in a chunk that holds `base` constants
    /// before it: operands first, left before right, then the operator. Each
    /// byte has the line of the token that it is written for.
    pub open spec fn emitted(self, source: Seq<char>, base: nat) -> ChunkView
        decreases self,
    {
        match self {
            Expr::Number { token } => ChunkView::constant(token.text(source)).join(
                ChunkView::byte(OpCode::OpConstant.encode(), token.line),
            ).join(ChunkView::byte(base as u8, token.line)),
            Expr::Literal { token } => ChunkView::byte(literal_op(token.kind).encode(), token.line),
            Expr::Grouping { inner, .. } => inner.emitted(source, base),
            Expr::Unary { operator, operand } => operand.emitted(source, base).join(
                ChunkView::byte(unary_op(operator.kind).encode(), operator.line),
            ),
            Expr::Binary { left, operator, right } => left.emitted(source, base).join(
                right.emitted(source, base + left.numbers()),
            ).join(ChunkView::byte(binary_op(operator.kind).encode(), operator.line)),
        }
    }
}

/// The bytecode of some expressions, one after the other.
pub open spec fn emitted_all(done: Seq<Expr>, source: Seq<char>, base: nat) -> ChunkView
    decreases done.len(),
{
    if done.len() == 0 {
        ChunkView::empty()
    } else {
        done[0].emitted(source, base).join(
            emitted_all(done.drop_first(), source, base + done[0].numbers()),
        )
    }
}

/// The bytecode of a tree has a line for each byte of code, and as many
/// constants as the tree holds numbers.
pub proof fn emitted_counts(tree: Expr, source: Seq<char>, base: nat)
    ensures
        tree.emitted(source, base).aligned(),
        tree.emitted(source, base).constants.len() == tree.numbers(),
    decreases tree,
{
    match tree {
        Expr::Grouping { inner, .. } => {
            emitted_counts(*inner, source, base);
        },
        Expr::Unary { operand, .. } => {
            emitted_counts(*operand, source, base);
        },
        Expr::Binary { left, right, .. } => {
            emitted_counts(*left, source, base);
            emitted_counts(*right, source, base + left.numbers());
        },
        _ => {},
    }
}

/// The bytecode of some expressions is that of the first and then that of
/// the others.
pub proof fn emitted_all_unfolds(first: Expr, others: Seq<Expr>, source: Seq<char>, base: nat)
    ensures
        emitted_all(seq![first] + others, source, base) == first.emitted(source, base).join(
            emitted_all(others, source, base + first.numbers()),
        ),
        emitted_all(seq![first], source, base) == first.emitted(source, base),
        emitted_all(Seq::empty(), source, base) == ChunkView::empty(),
{
    assert((seq![first] + others).drop_first() =~= others);
    assert(seq![first].drop_first() =~= Seq::<Expr>::empty());
    assert(emitted_all(Seq::empty(), source, base + first.numbers()) == ChunkView::empty());
    join_is_associative(first.emitted(source, base), ChunkView::empty(), ChunkView::empty());
}

/// What the parser makes of some tokens: a tree and the tokens behind it, or
/// the token at which it gave up, with the reason and the expressions that
/// were complete by then.
pub ghost enum Parsed {
    Tree { tree: Expr, rest: Seq<Token> },
    Failed { done: Seq<Expr>, at: Token, reason: Reason },
}

/// The first of some tokens; behind the last token there is only `Eof`.
pub open spec fn head(ts: Seq<Token>) -> Token {
    if ts.len() > 0 {
        ts[0]
    } else {
        Token { kind: TokenKind::Eof, start: 0, length: 0, line: 0 }
    }
}

/// The tokens behind the first.
pub open spec fn tail(ts: Seq<Token>) -> Seq<Token> {
    if ts.len() > 0 {
        ts.drop_first()
    } else {
        ts
    }
}

/// The reason that is told of a failure at `at`. At a token of kind `Error`
/// it is always the character that the lexer could not read.
pub open spec fn told(at: Token, reason: Reason) -> Reason {
    if at.kind == TokenKind::Error {
        Reason::UnexpectedCharacter
    } else {
        reason
    }
}

/// A failure at the token `at`.
pub open spec fn failure(done: Seq<Expr>, at: Token, reason: Reason) -> Parsed {
    Parsed::Failed { done, at, reason: told(at, reason) }
}

/// The refusal that stands for a failure at `at`.
pub open spec fn refusal(at: Token, reason: Reason, source: Seq<char>) -> DiagnosticView {
    DiagnosticView { token: at, lexeme: at.text(source), reason }
}

/// An expression that begins with the first token: a number, a literal, a
/// group or a unary operator with its operand. `base` is the number of
/// constants that the chunk holds already.
pub open spec fn parse_prefix(ts: Seq<Token>, base: nat) -> Parsed
    decreases ts.len(), 0nat,
{
    let first = head(ts);
    match rule_of(first.kind).prefix {
        ParseFn::Number => if base >= MAX_CONSTANTS {
            failure(Seq::empty(), first, Reason::TooManyConstants)
        } else {
            Parsed::Tree { tree: Expr::Number { token: first }, rest: tail(ts) }
        },
        ParseFn::Literal => Parsed::Tree { tree: Expr::Literal { token: first }, rest: tail(ts) },
        ParseFn::Grouping => match parse_precedence(tail(ts), Precedence::Assignment, base) {
            Parsed::Tree { tree, rest } => if head(rest).kind == TokenKind::RightParen {
                Parsed::Tree {
                    tree: Expr::Grouping { open: first, inner: Box::new(tree), close: head(rest) },
                    rest: tail(rest),
                }
            } else {
                failure(seq![tree], head(rest), Reason::ExpectRightParen)
            },
            failed => failed,
        },
        ParseFn::Unary => match parse_precedence(tail(ts), Precedence::Unary, base) {
            Parsed::Tree { tree, rest } => Parsed::Tree {
                tree: Expr::Unary { operator: first, operand: Box::new(tree) },
                rest,
            },
            failed => failed,
        },
        _ => failure(Seq::empty(), first, Reason::ExpectExpression),
    }
}

/// An expression whose binary operators all bind at least as tightly as
/// `level`: what begins with the first token, carried on by every such
/// operator that follows.
///
/// The test on the lengths is there to show that the definition ends; it
/// never fails (`parse_precedence_sound`).
pub open spec fn parse_precedence(ts: Seq<Token>, level: Precedence, base: nat) -> Parsed
    decreases ts.len(), 1nat,
{
    match parse_prefix(ts, base) {
        Parsed::Tree { tree, rest } => if rest.len() < ts.len() {
            parse_infix(rest, level, tree, base)
        } else {
            Parsed::Tree { tree, rest }
        },
        failed => failed,
    }
}

/// Carries the expression `left` on: while the next token is a binary
/// operator that binds at least as tightly as `level`, the expression so far
/// becomes the operator's left operand, and what binds more tightly than the
/// operator its right operand. `base` is the number of constants before
/// `left`.
///
/// The test on the lengths is there to show that the definition ends; it
/// never fails (`parse_precedence_sound`).
pub open spec fn parse_infix(ts: Seq<Token>, level: Precedence, left: Expr, base: nat) -> Parsed
    decreases ts.len(), 2nat,
{
    let operator = head(ts);
    let rule = rule_of(operator.kind);
    if rule.infix == ParseFn::Binary && level.rank() <= rule.precedence.rank() {
        match parse_precedence(tail(ts), rule.precedence.tighter(), base + left.numbers()) {
            Parsed::Tree { tree, rest } => if rest.len() < ts.len() {
                parse_infix(
                    rest,
                    level,
                    Expr::Binary { left: Box::new(left), operator, right: Box::new(tree) },
                    base,
                )
            } else {
                Parsed::Tree { tree, rest }
            },
            Parsed::Failed { done, at, reason } => Parsed::Failed {
                done: seq![left] + done,
                at,
                reason,
            },
        }
    } else {
        Parsed::Tree { tree: left, rest: ts }
    }
}

/// A whole program: one expression, and then the end of the source.
pub open spec fn parse_program(ts: Seq<Token>) -> Parsed {
    match parse_precedence(ts, Precedence::Assignment, 0) {
        Parsed::Tree { tree, rest } => if head(rest).kind == TokenKind::Eof {
            Parsed::Tree { tree, rest }
        } else {
            failure(seq![tree], head(rest), Reason::ExpectEnd)
        },
        failed => failed,
    }
}

/// The chunk of a program: for a tree its bytecode and `OpReturn`, written
/// for the `Eof` token; for a failure the bytecode of what was complete.
pub open spec fn program_code(parsed: Parsed, source: Seq<char>) -> ChunkView {
    match parsed {
        Parsed::Tree { tree, rest } => tree.emitted(source, 0).join(
            ChunkView::byte(OpCode::OpReturn.encode(), head(rest).line),
        ),
        Parsed::Failed { done, .. } => emitted_all(done, source, 0),
    }
}

/// The refusal of a program, if it is refused.
pub open spec fn program_fault(parsed: Parsed, source: Seq<char>) -> Option<DiagnosticView> {
    match parsed {
        Parsed::Tree { .. } => None,
        Parsed::Failed { at, reason, .. } => Some(refusal(at, reason, source)),
    }
}

/// What the parser accepts is a tree of the grammar, made of the tokens that
/// it has read, in their order, and what it leaves begins with a token that
/// cannot carry the tree on.
pub open spec fn sound(ts: Seq<Token>, level: Precedence, base: nat, parsed: Parsed) -> bool {
    parsed matches Parsed::Tree { tree, rest } ==> {
        &&& tree.well_formed()
        &&& ts == tree.tokens() + rest
        &&& rest.len() < ts.len()
        &&& base + tree.numbers() <= MAX_CONSTANTS
        &&& tree.tightness().rank() >= level.rank() || tree.tightness().rank()
            >= Precedence::Unary.rank()
        &&& rule_of(head(rest).kind).infix == ParseFn::Binary ==> rule_of(
            head(rest).kind,
        ).precedence.rank() < level.rank()
    }
}

pub proof fn parse_prefix_sound(ts: Seq<Token>, base: nat)
    requires
        base <= MAX_CONSTANTS,
    ensures
        parse_prefix(ts, base) matches Parsed::Tree { tree, rest } ==> {
            &&& tree.well_formed()
            &&& ts == tree.tokens() + rest
            &&& rest.len() < ts.len()
            &&& base + tree.numbers() <= MAX_CONSTANTS
            &&& tree.tightness().rank() >= Precedence::Unary.rank()
        },
    decreases ts.len(), 0nat,
{
    let first = head(ts);
    match rule_of(first.kind).prefix {
        ParseFn::Number => {
            if base < MAX_CONSTANTS {
                assert(ts =~= seq![first] + tail(ts));
            }
        },
        ParseFn::Literal => {
            assert(ts =~= seq![first] + tail(ts));
        },
        ParseFn::Grouping => {
            parse_precedence_sound(tail(ts), Precedence::Assignment, base);
            match parse_precedence(tail(ts), Precedence::Assignment, base) {
                Parsed::Tree { tree, rest } => {
                    if head(rest).kind == TokenKind::RightParen {
                        assert(ts =~= seq![first] + tail(ts));
                        assert(rest =~= seq![head(rest)] + tail(rest));
                        assert(tail(ts) == tree.tokens() + rest);
                        assert(ts =~= seq![first] + tree.tokens() + seq![head(rest)] + tail(rest));
                    }
                },
                _ => {},
            }
        },
        ParseFn::Unary => {
            parse_precedence_sound(tail(ts), Precedence::Unary, base);
            match parse_precedence(tail(ts), Precedence::Unary, base) {
                Parsed::Tree { tree, rest } => {
                    assert(ts =~= seq![first] + tail(ts));
                    assert(ts =~= seq![first] + tree.tokens() + rest);
                },
                _ => {},
            }
        },
        _ => {},
    }
}

pub proof fn parse_precedence_sound(ts: Seq<Token>, level: Precedence, base: nat)
    requires
        base <= MAX_CONSTANTS,
    ensures
        sound(ts, level, base, parse_precedence(ts, level, base)),
    decreases ts.len(), 1nat,
{
    parse_prefix_sound(ts, base);
    match parse_prefix(ts, base) {
        Parsed::Tree { tree, rest } => {
            infix_rules(head(rest).kind);
            parse_infix_sound(rest, level, tree, base);
            match parse_infix(rest, level, tree, base) {
                Parsed::Tree { tree: whole, rest: after } => {
                    assert(ts =~= whole.tokens() + after);
                },
                _ => {},
            }
        },
        _ => {},
    }
}

pub proof fn parse_infix_sound(ts: Seq<Token>, level: Precedence, left: Expr, base: nat)
    requires
        left.well_formed(),
        base + left.numbers() <= MAX_CONSTANTS,
        left.tightness().rank() >= level.rank() || left.tightness().rank()
            >= Precedence::Unary.rank(),
        rule_of(head(ts).kind).infix == ParseFn::Binary ==> rule_of(head(ts).kind).precedence.rank()
            <= left.tightness().rank(),
    ensures
        parse_infix(ts, level, left, base) matches Parsed::Tree { tree, rest } ==> {
            &&& tree.well_formed()
            &&& left.tokens() + ts == tree.tokens() + rest
            &&& rest.len() <= ts.len()
            &&& base + tree.numbers() <= MAX_CONSTANTS
            &&& tree.tightness().rank() >= level.rank() || tree.tightness().rank()
                >= Precedence::Unary.rank()
            &&& rule_of(head(rest).kind).infix == ParseFn::Binary ==> rule_of(
                head(rest).kind,
            ).precedence.rank() < level.rank()
        },
    decreases ts.len(), 2nat,
{
    let operator = head(ts);
    let rule = rule_of(operator.kind);
    if rule.infix == ParseFn::Binary && level.rank() <= rule.precedence.rank() {
        infix_rules(operator.kind);
        let up = rule.precedence.tighter();
        parse_precedence_sound(tail(ts), up, base + left.numbers());
        match parse_precedence(tail(ts), up, base + left.numbers()) {
            Parsed::Tree { tree, rest } => {
                let joined = Expr::Binary {
                    left: Box::new(left),
                    operator,
                    right: Box::new(tree),
                };
                infix_rules(head(rest).kind);
                assert(joined.well_formed());
                parse_infix_sound(rest, level, joined, base);
                assert(left.tokens() + ts =~= joined.tokens() + rest) by {
                    assert(ts =~= seq![operator] + tail(ts));
                }
            },
            _ => {},
        }
    }
}

} // verus!
