//! The parser. It climbs by precedence and writes bytecode as it goes: no
//! tree is built.
use vstd::prelude::*;
use crate::bytecodes::{join_is_associative, Bytecodes, ChunkView};
use crate::diagnostic::{Diagnostic, DiagnosticView, Reason};
use crate::lexer::{tokens, tokens_end, Lexer};
use crate::opcode::OpCode;
use crate::parser_rules::{get_rule, rule_of, ParseFn, Precedence};
use crate::syntax::{
    binary_op, emitted_all, emitted_all_unfolds, emitted_counts, head, parse_infix, parse_precedence,
    parse_precedence_sound, parse_prefix, parse_prefix_sound, parse_program, program_code,
    program_fault, refusal, tail, told, Expr, Parsed, MAX_CONSTANTS,
};
use crate::token::{Token, TokenKind};

verus! {

/// The state of a parse: the lexer, the token to be read next and the one
/// read last, the two error flags, and the chunk that is written.
pub struct Parser {
    lexer: Lexer,
    current: Token,
    previous: Token,
    had_error: bool,
    panic_mode: bool,
    chunk: Bytecodes,
}

/// How a step of the parser answers to the grammar. For a tree: the step
/// succeeds, the tree's tokens are read, and its bytecode is written behind
/// what the chunk held. For a failure: the step fails, the bytecode of the
/// complete expressions is written, and the chunk is marked with the
/// refusal.
pub open spec fn outcome(pre: Parser, post: Parser, ok: bool, parsed: Parsed) -> bool {
    let base = pre.chunk().constants.len();
    let source = pre.source();
    &&& post.wf()
    &&& post.source() == source
    &&& match parsed {
        Parsed::Tree { tree, rest } => {
            &&& ok
            &&& post.pending() == rest
            &&& post.chunk() == pre.chunk().join(tree.emitted(source, base))
            &&& post.fault() is None
        },
        Parsed::Failed { done, at, reason } => {
            &&& !ok
            &&& post.chunk() == pre.chunk().join(emitted_all(done, source, base))
            &&& post.fault() == Some(refusal(at, reason, source))
        },
    }
}

impl Parser {
    /// The source that is parsed.
    pub closed spec fn source(&self) -> Seq<char> {
        self.lexer.source()
    }

    /// The tokens that are still to be read, up to `Eof`.
    pub closed spec fn pending(&self) -> Seq<Token> {
        if self.current.kind == TokenKind::Eof {
            seq![self.current]
        } else {
            seq![self.current] + self.lexer.pending()
        }
    }

    /// The token that was read last.
    pub closed spec fn previous(&self) -> Token {
        self.previous
    }

    /// What has been written.
    pub closed spec fn chunk(&self) -> ChunkView {
        self.chunk@
    }

    /// The refusal, once there is one.
    pub closed spec fn fault(&self) -> Option<DiagnosticView> {
        self.chunk.fault()
    }

    /// The invariant of the parser: the chunk is well formed and holds no
    /// more constants than an index can name; the error flag is set exactly
    /// when the chunk is marked with a refusal; and the parser panics only
    /// after an error.
    pub closed spec fn wf(&self) -> bool {
        &&& self.chunk.wf()
        &&& self.chunk@.constants.len() <= MAX_CONSTANTS
        &&& self.had_error == (self.chunk.fault() is Some)
        &&& self.panic_mode ==> self.had_error
    }

    /// The tokens that are still to be read end with `Eof` and hold no other
    /// `Eof`.
    pub proof fn pending_ends(&self)
        ensures
            self.pending().len() >= 1,
            self.pending().last().kind == TokenKind::Eof,
            forall|i: int|
                0 <= i < self.pending().len() - 1 ==> (#[trigger] self.pending()[i]).kind
                    != TokenKind::Eof,
    {
        if self.current.kind != TokenKind::Eof {
            tokens_end(self.lexer.source(), self.lexer.position());
            let rest = self.lexer.pending();
            let all = self.pending();
            assert forall|i: int| 0 <= i < all.len() - 1 implies (#[trigger] all[i]).kind
                != TokenKind::Eof by {
                if i > 0 {
                    assert(all[i] == rest[i - 1]);
                }
            }
        }
    }

    /// A parser at the first token of `source`, with an empty chunk.
    pub fn new(source: &str) -> (parser: Parser)
        ensures
            parser.wf(),
            parser.source() == source@,
            parser.pending() == tokens(source@),
            parser.chunk() == ChunkView::empty(),
            parser.fault() is None,
    {
        let mut lexer = Lexer::new(source);
        let first = lexer.scan_token();
        Parser {
            lexer,
            current: first,
            previous: first,
            had_error: false,
            panic_mode: false,
            chunk: Bytecodes::new(),
        }
    }

    /// Whether an error was reported.
    pub fn had_error(&self) -> (b: bool)
        requires
            self.wf(),
        ensures
            b == (self.fault() is Some),
    {
        self.had_error
    }

    /// Gives up the chunk.
    pub fn finish(self) -> (chunk: Bytecodes)
        requires
            self.wf(),
        ensures
            chunk@ == self.chunk(),
            chunk.fault() == self.fault(),
            chunk.wf(),
    {
        self.chunk
    }

    /// Reads one token: the next token becomes the last, and the lexer is
    /// asked for another. At `Eof` the parser stays where it is.
    pub fn advance(&mut self)
        requires
            old(self).wf(),
        ensures
            final(self).wf(),
            final(self).source() == old(self).source(),
            final(self).chunk() == old(self).chunk(),
            final(self).fault() == old(self).fault(),
            final(self).previous() == head(old(self).pending()),
            head(old(self).pending()).kind != TokenKind::Eof ==> final(self).pending() == tail(
                old(self).pending(),
            ),
            head(old(self).pending()).kind == TokenKind::Eof ==> final(self).pending() == old(
                self,
            ).pending(),
    {
        self.previous = self.current;
        if self.current.kind != TokenKind::Eof {
            self.current = self.lexer.scan_token();
            proof {
                assert(old(self).pending().drop_first() =~= old(self).lexer.pending());
            }
        }
    }

    /// Reports an error at `token` and lets the parser panic. While it
    /// panics, and once the chunk is marked with a refusal, nothing more is
    /// reported.
    fn error_at(&mut self, token: Token, reason: Reason)
        requires
            old(self).wf(),
        ensures
            final(self).wf(),
            final(self).source() == old(self).source(),
            final(self).chunk() == old(self).chunk(),
            final(self).pending() == old(self).pending(),
            old(self).fault() is Some ==> final(self).fault() == old(self).fault(),
            old(self).fault() is None ==> final(self).fault() == Some(
                refusal(token, told(token, reason), old(self).source()),
            ),
    {
        if self.panic_mode || self.had_error {
            return ;
        }
        self.panic_mode = true;
        self.had_error = true;
        let lexeme = self.lexer.lexeme(&token);
        let shown = if token.kind == TokenKind::Error {
            Reason::UnexpectedCharacter
        } else {
            reason
        };
        self.chunk.mark_invalid(Diagnostic { token, lexeme, reason: shown });
    }

    /// Ends a panic: the tokens up to the end of the source are dropped.
    pub fn synchronize(&mut self)
        requires
            old(self).wf(),
        ensures
            final(self).wf(),
            final(self).source() == old(self).source(),
            final(self).chunk() == old(self).chunk(),
            final(self).fault() == old(self).fault(),
            final(self).pending() == seq![old(self).pending().last()],
    {
        self.panic_mode = false;
        while self.current.kind != TokenKind::Eof
            invariant
                self.wf(),
                self.source() == old(self).source(),
                self.chunk() == old(self).chunk(),
                self.fault() == old(self).fault(),
                self.pending().len() >= 1,
                self.pending().last() == old(self).pending().last(),
            decreases self.pending().len(),
        {
            proof {
                self.pending_ends();
            }
            self.advance();
        }
    }

    /// Reads the next token if it is of the kind `kind`; else reports
    /// `reason` at it.
    pub fn consume(&mut self, kind: TokenKind, reason: Reason) -> (ok: bool)
        requires
            old(self).wf(),
            old(self).fault() is None,
        ensures
            final(self).wf(),
            final(self).source() == old(self).source(),
            final(self).chunk() == old(self).chunk(),
            ok == (head(old(self).pending()).kind == kind),
            ok ==> final(self).fault() is None && final(self).previous() == head(
                old(self).pending(),
            ),
            ok && kind != TokenKind::Eof ==> final(self).pending() == tail(old(self).pending()),
            ok && kind == TokenKind::Eof ==> final(self).pending() == old(self).pending(),
            !ok ==> final(self).fault() == Some(
                refusal(
                    head(old(self).pending()),
                    told(head(old(self).pending()), reason),
                    old(self).source(),
                ),
            ),
    {
        if self.current.kind == kind {
            self.advance();
            true
        } else {
            let at = self.current;
            self.error_at(at, reason);
            false
        }
    }

    /// Writes one byte of code, for a token on `line`.
    fn emit_byte(&mut self, byte: u8, line: usize)
        requires
            old(self).wf(),
        ensures
            final(self).wf(),
            final(self).source() == old(self).source(),
            final(self).pending() == old(self).pending(),
            final(self).previous() == old(self).previous(),
            final(self).fault() == old(self).fault(),
            final(self).chunk() == old(self).chunk().join(ChunkView::byte(byte, line)),
    {
        self.chunk.write_byte(byte, line);
    }

    /// The rule for a number, which was read last: its text becomes a
    /// constant, and `OpConstant` with the constant's index is written.
    fn number(&mut self) -> (ok: bool)
        requires
            old(self).wf(),
            old(self).fault() is None,
            rule_of(old(self).previous().kind).prefix == ParseFn::Number,
        ensures
            outcome(
                *old(self),
                *final(self),
                ok,
                parse_prefix(seq![old(self).previous()] + old(self).pending(), old(self).chunk().constants.len()),
            ),
    {
        let token = self.previous;
        proof {
            let ts = seq![token] + self.pending();
            assert(head(ts) == token);
            assert(tail(ts) =~= self.pending());
            join_is_associative(self.chunk(), ChunkView::empty(), ChunkView::empty());
        }
        if self.chunk.constants_len() >= MAX_CONSTANTS {
            self.error_at(token, Reason::TooManyConstants);
            return false;
        }
        let text = self.lexer.lexeme(&token);
        let ghost written = ChunkView::constant(text@);
        let ghost first = ChunkView::byte(OpCode::OpConstant.encode(), token.line);
        let index: usize = self.chunk.write_constant(text);
        self.chunk.write_byte(u8::from(OpCode::OpConstant), token.line);
        self.chunk.write_byte(index as u8, token.line);
        proof {
            let second = ChunkView::byte(index as u8, token.line);
            join_is_associative(old(self).chunk(), written, first);
            join_is_associative(old(self).chunk(), written.join(first), second);
        }
        true
    }

    /// The rule for `true`, `false` and `nil`, one of which was read last.
    fn literal(&mut self) -> (ok: bool)
        requires
            old(self).wf(),
            old(self).fault() is None,
            rule_of(old(self).previous().kind).prefix == ParseFn::Literal,
        ensures
            outcome(
                *old(self),
                *final(self),
                ok,
                parse_prefix(seq![old(self).previous()] + old(self).pending(), old(self).chunk().constants.len()),
            ),
    {
        let token = self.previous;
        proof {
            let ts = seq![token] + self.pending();
            assert(head(ts) == token);
            assert(tail(ts) =~= self.pending());
        }
        let op = match token.kind {
            TokenKind::True => OpCode::OpTrue,
            TokenKind::False => OpCode::OpFalse,
            _ => OpCode::OpNil,
        };
        self.chunk.write_byte(u8::from(op), token.line);
        true
    }

    /// The rule for a group, whose `(` was read last: an expression, and then
    /// `)`.
    fn grouping(&mut self) -> (ok: bool)
        requires
            old(self).wf(),
            old(self).fault() is None,
            rule_of(old(self).previous().kind).prefix == ParseFn::Grouping,
        ensures
            outcome(
                *old(self),
                *final(self),
                ok,
                parse_prefix(seq![old(self).previous()] + old(self).pending(), old(self).chunk().constants.len()),
            ),
        decreases old(self).pending().len(), 3nat,
    {
        let ghost open = self.previous;
        let ghost ts = seq![open] + self.pending();
        let ghost base = self.chunk().constants.len();
        let ghost inner = parse_precedence(self.pending(), Precedence::Assignment, base);
        proof {
            assert(head(ts) == open);
            assert(tail(ts) =~= self.pending());
            parse_precedence_sound(self.pending(), Precedence::Assignment, base);
        }
        if !self.expression() {
            return false;
        }
        proof {
            emitted_all_unfolds(inner->tree, Seq::empty(), old(self).source(), base);
            emitted_counts(inner->tree, old(self).source(), base);
        }
        self.consume(TokenKind::RightParen, Reason::ExpectRightParen)
    }

    /// The rule for a unary operator, which was read last: its operand, and
    /// then `OpNegate` or `OpNot`.
    fn unary(&mut self) -> (ok: bool)
        requires
            old(self).wf(),
            old(self).fault() is None,
            rule_of(old(self).previous().kind).prefix == ParseFn::Unary,
        ensures
            outcome(
                *old(self),
                *final(self),
                ok,
                parse_prefix(seq![old(self).previous()] + old(self).pending(), old(self).chunk().constants.len()),
            ),
        decreases old(self).pending().len(), 3nat,
    {
        let operator = self.previous;
        let ghost base = self.chunk().constants.len();
        proof {
            let ts = seq![operator] + self.pending();
            assert(head(ts) == operator);
            assert(tail(ts) =~= self.pending());
            parse_precedence_sound(self.pending(), Precedence::Unary, base);
        }
        if !self.parse_precedence(Precedence::Unary) {
            return false;
        }
        let op = match operator.kind {
            TokenKind::Minus => OpCode::OpNegate,
            _ => OpCode::OpNot,
        };
        proof {
            let tree = parse_precedence(old(self).pending(), Precedence::Unary, base)->tree;
            emitted_counts(tree, old(self).source(), base);
            join_is_associative(
                old(self).chunk(),
                tree.emitted(old(self).source(), base),
                ChunkView::byte(op.encode(), operator.line),
            );
        }
        self.emit_byte(u8::from(op), operator.line);
        true
    }

    /// The rule for a binary operator, which was read last, behind its left
    /// operand: the right operand, of what binds more tightly than the
    /// operator, and then the operator's instruction.
    fn binary(&mut self) -> (ok: bool)
        requires
            old(self).wf(),
            old(self).fault() is None,
            rule_of(old(self).previous().kind).infix == ParseFn::Binary,
        ensures
            final(self).wf(),
            final(self).source() == old(self).source(),
            match parse_precedence(
                old(self).pending(),
                rule_of(old(self).previous().kind).precedence.tighter(),
                old(self).chunk().constants.len(),
            ) {
                Parsed::Tree { tree, rest } => {
                    &&& ok
                    &&& final(self).pending() == rest
                    &&& final(self).fault() is None
                    &&& final(self).chunk() == old(self).chunk().join(
                        tree.emitted(old(self).source(), old(self).chunk().constants.len()),
                    ).join(
                        ChunkView::byte(
                            binary_op(old(self).previous().kind).encode(),
                            old(self).previous().line,
                        ),
                    )
                },
                failed => outcome(*old(self), *final(self), ok, failed),
            },
        decreases old(self).pending().len(), 3nat,
    {
        let operator = self.previous;
        let rule = get_rule(operator.kind);
        let ghost base = self.chunk().constants.len();
        proof {
            parse_precedence_sound(self.pending(), rule.precedence.tighter(), base);
        }
        if !self.parse_precedence(rule.precedence.next()) {
            return false;
        }
        let op = match operator.kind {
            TokenKind::Plus => OpCode::OpAdd,
            TokenKind::Minus => OpCode::OpSubtract,
            TokenKind::Star => OpCode::OpMultiple,
            _ => OpCode::OpDivide,
        };
        proof {
            let tree = parse_precedence(old(self).pending(), rule.precedence.tighter(), base)->tree;
            emitted_counts(tree, old(self).source(), base);
        }
        self.emit_byte(u8::from(op), operator.line);
        true
    }

    /// Whether the next token carries on an expression at `level`.
    fn continues(&self, level: Precedence) -> (b: bool)
        ensures
            b == (rule_of(head(self.pending()).kind).infix == ParseFn::Binary && level.rank()
                <= rule_of(head(self.pending()).kind).precedence.rank()),
    {
        let rule = get_rule(self.current.kind);
        rule.infix == ParseFn::Binary && level.level() <= rule.precedence.level()
    }

    /// Parses an expression whose binary operators bind at least as tightly
    /// as `level`, and writes its bytecode.
    pub fn parse_precedence(&mut self, level: Precedence) -> (ok: bool)
        requires
            old(self).wf(),
            old(self).fault() is None,
        ensures
            outcome(
                *old(self),
                *final(self),
                ok,
                parse_precedence(old(self).pending(), level, old(self).chunk().constants.len()),
            ),
        decreases old(self).pending().len(), 1nat,
    {
        let ghost ts = self.pending();
        let ghost base = self.chunk().constants.len();
        let ghost source = self.source();
        let ghost begun = parse_prefix(ts, base);
        proof {
            parse_prefix_sound(ts, base);
        }
        self.advance();
        let first = self.previous;
        proof {
            assert(ts.len() > 0);
            assert(first.kind != TokenKind::Eof ==> seq![first] + self.pending() =~= ts);
            join_is_associative(self.chunk(), ChunkView::empty(), ChunkView::empty());
        }
        let begun_ok = match get_rule(first.kind).prefix {
            ParseFn::Number => self.number(),
            ParseFn::Literal => self.literal(),
            ParseFn::Grouping => self.grouping(),
            ParseFn::Unary => self.unary(),
            _ => {
                self.error_at(first, Reason::ExpectExpression);
                false
            },
        };
        if !begun_ok {
            return false;
        }
        let ghost mut left: Expr = begun->tree;
        proof {
            emitted_counts(left, source, base);
        }
        while self.continues(level)
            invariant
                self.wf(),
                self.fault() is None,
                self.source() == source,
                source == old(self).source(),
                ts == old(self).pending(),
                base == old(self).chunk().constants.len(),
                base <= MAX_CONSTANTS,
                self.pending().len() < ts.len(),
                self.chunk() == old(self).chunk().join(left.emitted(source, base)),
                self.chunk().constants.len() == base + left.numbers(),
                parse_precedence(ts, level, base) == parse_infix(self.pending(), level, left, base),
            decreases self.pending().len(),
        {
            let ghost here = self.pending();
            let ghost operator = head(here);
            let ghost up = rule_of(operator.kind).precedence.tighter();
            let ghost right = parse_precedence(tail(here), up, base + left.numbers());
            proof {
                parse_precedence_sound(tail(here), up, base + left.numbers());
            }
            self.advance();
            if !self.binary() {
                proof {
                    let done = right->done;
                    emitted_all_unfolds(left, done, source, base);
                    join_is_associative(
                        old(self).chunk(),
                        left.emitted(source, base),
                        emitted_all(done, source, base + left.numbers()),
                    );
                }
                return false;
            }
            proof {
                let tree = right->tree;
                let joined = Expr::Binary {
                    left: Box::new(left),
                    operator,
                    right: Box::new(tree),
                };
                emitted_counts(tree, source, base + left.numbers());
                join_is_associative(
                    old(self).chunk(),
                    left.emitted(source, base),
                    tree.emitted(source, base + left.numbers()),
                );
                join_is_associative(
                    old(self).chunk(),
                    left.emitted(source, base).join(tree.emitted(source, base + left.numbers())),
                    ChunkView::byte(binary_op(operator.kind).encode(), operator.line),
                );
                left = joined;
            }
        }
        true
    }

    /// Parses an expression.
    pub fn expression(&mut self) -> (ok: bool)
        requires
            old(self).wf(),
            old(self).fault() is None,
        ensures
            outcome(
                *old(self),
                *final(self),
                ok,
                parse_precedence(
                    old(self).pending(),
                    Precedence::Assignment,
                    old(self).chunk().constants.len(),
                ),
            ),
        decreases old(self).pending().len(), 2nat,
    {
        self.parse_precedence(Precedence::Assignment)
    }

    /// Parses a program into a fresh parser's chunk: an expression, the end
    /// of the source, and `OpReturn`. After an error the rest of the source
    /// is dropped.
    pub fn program(&mut self) -> (ok: bool)
        requires
            old(self).wf(),
            old(self).fault() is None,
            old(self).chunk() == ChunkView::empty(),
        ensures
            final(self).wf(),
            final(self).source() == old(self).source(),
            ok == (final(self).fault() is None),
            final(self).chunk() == program_code(
                parse_program(old(self).pending()),
                old(self).source(),
            ),
            final(self).fault() == program_fault(
                parse_program(old(self).pending()),
                old(self).source(),
            ),
            final(self).pending().len() == 1,
            final(self).pending()[0].kind == TokenKind::Eof,
    {
        let ghost parsed = parse_precedence(self.pending(), Precedence::Assignment, 0);
        proof {
            parse_precedence_sound(self.pending(), Precedence::Assignment, 0);
            self.pending_ends();
        }
        if !self.expression() {
            proof {
                join_is_associative(
                    emitted_all(parsed->done, old(self).source(), 0),
                    ChunkView::empty(),
                    ChunkView::empty(),
                );
            }
            proof {
                self.pending_ends();
            }
            self.synchronize();
            return false;
        }
        proof {
            let tree = parsed->tree;
            emitted_counts(tree, old(self).source(), 0);
            emitted_all_unfolds(tree, Seq::empty(), old(self).source(), 0);
            join_is_associative(
                tree.emitted(old(self).source(), 0),
                ChunkView::empty(),
                ChunkView::empty(),
            );
        }
        proof {
            self.pending_ends();
        }
        if !self.consume(TokenKind::Eof, Reason::ExpectEnd) {
            proof {
                self.pending_ends();
            }
            self.synchronize();
            return false;
        }
        let line: usize = self.previous.line;
        self.emit_byte(u8::from(OpCode::OpReturn), line);
        true
    }
}

} // verus!
