//! What a program means, and that the machine computes it.
//!
//! The machine does no arithmetic of its own: the numbers come from its
//! caller. What a run comes to is therefore stated for every caller: for
//! every way of answering the machine's requests, and in particular for
//! every way of making numbers, a `Numerics`.
use vstd::prelude::*;
use crate::bytecodes::ChunkView;
use crate::compiler::{compiled, refused};
use crate::lexer::tokens;
use crate::opcode::OpCode;
use crate::parser_rules::Precedence;
use crate::syntax::{
    binary_op, emitted_counts, head, literal_op, parse_precedence_sound, parse_program, unary_op,
    Expr, Parsed, MAX_CONSTANTS,
};
use crate::token::{Token, TokenKind};
use crate::value::{RuntimeErrorKind, Value};
use crate::vm::{
    advance, answered, idle, resume, step, step_moves_on, Action, Halt, Outcome, Request,
    RuntimeError, State, Step, STACK_MAX,
};

verus! {

/// The answers of a caller: the number that it gives when the machine has
/// stopped before the place `place` with a request.
pub type Answers = spec_fn(int, Request) -> u64;

/// A way of making numbers: from the text of a constant, and from an
/// arithmetic instruction and its two operands.
pub ghost struct Numerics {
    pub constant: spec_fn(Seq<char>) -> u64,
    pub arithmetic: spec_fn(OpCode, u64, u64) -> u64,
}

impl Numerics {
    /// The number that answers a request of a machine that runs `chunk`.
    pub open spec fn answer(self, chunk: ChunkView, request: Request) -> u64 {
        match request {
            Request::Constant { index } => (self.constant)(chunk.constants[index as int]),
            Request::Arithmetic { op, left, right } => (self.arithmetic)(op, left, right),
        }
    }

    /// The answers of a caller who makes numbers in this way, wherever the
    /// machine stops.
    pub open spec fn answers(self, chunk: ChunkView) -> Answers {
        |place: int, request: Request| self.answer(chunk, request)
    }
}

/// The end of the run from the state `s`, for a caller who, as long as the
/// machine asks for a number, resumes it with the number that `answers`
/// gives.
#[verifier::opaque]
pub open spec fn finish(chunk: ChunkView, s: State, answers: Answers) -> Halt
    decreases chunk.code.len() - s.ip,
{
    let halt = advance(chunk, s);
    match halt.action {
        Action::Compute(request) => if s.ip < halt.state.ip <= chunk.code.len()
            && halt.state.stack.len() < STACK_MAX {
            finish(chunk, answered(halt.state, answers(halt.state.ip, request)), answers)
        } else {
            resume(chunk, halt.state, answers(halt.state.ip, request))
        },
        Action::Finish(_) => halt,
    }
}

/// The value of `true`, `false` or `nil`.
pub open spec fn literal_value(kind: TokenKind) -> Value {
    match kind {
        TokenKind::True => Value::Bool(true),
        TokenKind::False => Value::Bool(false),
        _ => Value::Nil,
    }
}

/// The bits of a number.
pub open spec fn bits_of(value: Value) -> u64 {
    match value {
        Value::Number(bits) => bits,
        _ => 0,
    }
}

/// A value that is pushed on `depth` values, or the failure to push it on a
/// full stack, on the line `line`.
pub open spec fn pushed(depth: nat, line: usize, value: Value) -> Result<Value, RuntimeError> {
    if depth >= STACK_MAX {
        Err(RuntimeError { kind: RuntimeErrorKind::StackOverflow, line })
    } else {
        Ok(value)
    }
}

/// What a unary operator makes of the value of its operand: `-` changes the
/// sign of a number and fails on any other value, `!` gives `true` for a
/// falsey value and `false` for any other.
pub open spec fn unary_value(operator: Token, value: Value) -> Result<Value, RuntimeError> {
    if operator.kind == TokenKind::Minus {
        match value {
            Value::Number(bits) => Ok(Value::Number(Value::negated(bits))),
            _ => Err(
                RuntimeError { kind: RuntimeErrorKind::OperandNotNumber, line: operator.line },
            ),
        }
    } else {
        Ok(Value::Bool(value.falsey()))
    }
}

/// What a binary operator makes of the values of its operands: of two
/// numbers the number `bits`, which its caller made of them, of any other
/// values a failure.
pub open spec fn binary_value(operator: Token, left: Value, right: Value, bits: u64) -> Result<
    Value,
    RuntimeError,
> {
    if left is Number && right is Number {
        Ok(Value::Number(bits))
    } else {
        Err(RuntimeError { kind: RuntimeErrorKind::OperandNotNumber, line: operator.line })
    }
}

/// The value of an expression that is computed with `depth` values on the
/// stack below it, or the failure of the computation. Operands are computed
/// from left to right, and each takes one place on the stack; an operator
/// fails on the line of its token where an operand is no number.
pub open spec fn value_of(tree: Expr, source: Seq<char>, depth: nat, numerics: Numerics) -> Result<
    Value,
    RuntimeError,
>
    decreases tree,
{
    match tree {
        Expr::Number { token } => pushed(
            depth,
            token.line,
            Value::Number((numerics.constant)(token.text(source))),
        ),
        Expr::Literal { token } => pushed(depth, token.line, literal_value(token.kind)),
        Expr::Grouping { inner, .. } => value_of(*inner, source, depth, numerics),
        Expr::Unary { operator, operand } => match value_of(*operand, source, depth, numerics) {
            Ok(value) => unary_value(operator, value),
            Err(error) => Err(error),
        },
        Expr::Binary { left, operator, right } => match value_of(*left, source, depth, numerics) {
            Ok(first) => match value_of(*right, source, depth + 1, numerics) {
                Ok(second) => binary_value(
                    operator,
                    first,
                    second,
                    (numerics.arithmetic)(
                        binary_op(operator.kind),
                        bits_of(first),
                        bits_of(second),
                    ),
                ),
                Err(error) => Err(error),
            },
            Err(error) => Err(error),
        },
    }
}

/// What a run makes of an expression whose bytecode stands at `at`, with its
/// constants from `base` on and `depth` values on the stack below it, for a
/// caller who answers as `answers` does. The machine stops behind the
/// instruction that needs a number.
pub open spec fn computed(
    tree: Expr,
    source: Seq<char>,
    at: int,
    base: nat,
    depth: nat,
    answers: Answers,
) -> Result<Value, RuntimeError>
    decreases tree,
{
    match tree {
        Expr::Number { token } => pushed(
            depth,
            token.line,
            Value::Number(answers(at + 2, Request::Constant { index: base as u8 })),
        ),
        Expr::Literal { token } => pushed(depth, token.line, literal_value(token.kind)),
        Expr::Grouping { inner, .. } => computed(*inner, source, at, base, depth, answers),
        Expr::Unary { operator, operand } => match computed(
            *operand,
            source,
            at,
            base,
            depth,
            answers,
        ) {
            Ok(value) => unary_value(operator, value),
            Err(error) => Err(error),
        },
        Expr::Binary { left, operator, right } => match computed(
            *left,
            source,
            at,
            base,
            depth,
            answers,
        ) {
            Ok(first) => match computed(
                *right,
                source,
                at + left.emitted(source, base).code.len(),
                base + left.numbers(),
                depth + 1,
                answers,
            ) {
                Ok(second) => binary_value(
                    operator,
                    first,
                    second,
                    answers(
                        at + tree.emitted(source, base).code.len(),
                        Request::Arithmetic {
                            op: binary_op(operator.kind),
                            left: bits_of(first),
                            right: bits_of(second),
                        },
                    ),
                ),
                Err(error) => Err(error),
            },
            Err(error) => Err(error),
        },
    }
}

/// Whether `part` stands in `chunk`: its code and lines from `ip` on, its
/// constants from `base` on.
pub open spec fn placed(chunk: ChunkView, part: ChunkView, ip: int, base: int) -> bool {
    &&& chunk.aligned()
    &&& part.aligned()
    &&& 0 <= ip
    &&& ip + part.code.len() <= chunk.code.len()
    &&& 0 <= base
    &&& base + part.constants.len() <= chunk.constants.len()
    &&& chunk.code.subrange(ip, ip + part.code.len()) == part.code
    &&& chunk.lines.subrange(ip, ip + part.code.len()) == part.lines
    &&& chunk.constants.subrange(base, base + part.constants.len()) == part.constants
}

/// How a run goes on behind an expression: with the expression's value on
/// the stack, or not at all.
pub open spec fn carried_on(
    chunk: ChunkView,
    value: Result<Value, RuntimeError>,
    ip: int,
    stack: Seq<Value>,
    answers: Answers,
) -> Halt {
    match value {
        Ok(value) => finish(chunk, State { ip, stack: stack.push(value) }, answers),
        Err(error) => Halt { action: Action::Finish(Outcome::Failed(error)), state: idle() },
    }
}

proof fn advance_moves_on(chunk: ChunkView, s: State)
    ensures
        advance(chunk, s).action is Compute ==> s.ip < advance(chunk, s).state.ip
            <= chunk.code.len(),
    decreases chunk.code.len() - s.ip,
{
    step_moves_on(chunk, s);
    match step(chunk, s) {
        Step::Next(next) => {
            advance_moves_on(chunk, next);
        },
        _ => {},
    }
}

/// The run to its end is what a caller gets who starts the machine and, as
/// long as it asks for a number, resumes it with the number that `answers`
/// gives.
pub proof fn finish_follows_answers(chunk: ChunkView, s: State, answers: Answers)
    ensures
        finish(chunk, s, answers) == (match advance(chunk, s).action {
            Action::Compute(request) => if advance(chunk, s).state.stack.len() < STACK_MAX {
                finish(
                    chunk,
                    answered(
                        advance(chunk, s).state,
                        answers(advance(chunk, s).state.ip, request),
                    ),
                    answers,
                )
            } else {
                resume(
                    chunk,
                    advance(chunk, s).state,
                    answers(advance(chunk, s).state.ip, request),
                )
            },
            Action::Finish(_) => advance(chunk, s),
        }),
{
    reveal(finish);
    advance_moves_on(chunk, s);
}

/// The run to its end, one instruction at a time.
pub proof fn finish_by_steps(chunk: ChunkView, s: State, answers: Answers)
    ensures
        finish(chunk, s, answers) == (match step(chunk, s) {
            Step::Next(next) => finish(chunk, next, answers),
            Step::Ask(request, next) => if next.stack.len() < STACK_MAX {
                finish(chunk, answered(next, answers(next.ip, request)), answers)
            } else {
                resume(chunk, next, answers(next.ip, request))
            },
            Step::Return(value, next) => Halt {
                action: Action::Finish(Outcome::Returned(value)),
                state: next,
            },
            Step::Abort(error) => Halt {
                action: Action::Finish(Outcome::Failed(error)),
                state: idle(),
            },
        }),
{
    reveal(finish);
    step_moves_on(chunk, s);
    advance_moves_on(chunk, s);
    match step(chunk, s) {
        Step::Next(next) => {
            advance_moves_on(chunk, next);
            assert(advance(chunk, s) == advance(chunk, next));
        },
        _ => {},
    }
}

proof fn placed_parts(chunk: ChunkView, a: ChunkView, b: ChunkView, ip: int, base: int)
    requires
        placed(chunk, a.join(b), ip, base),
        a.aligned(),
    ensures
        placed(chunk, a, ip, base),
        placed(chunk, b, ip + a.code.len(), base + a.constants.len()),
{
    let ab = a.join(b);
    let n = a.code.len() as int;
    let m = b.code.len() as int;
    let p = a.constants.len() as int;
    let q = b.constants.len() as int;
    assert(ab.code.len() == n + m);
    assert(ab.constants.len() == p + q);
    assert forall|i: int| 0 <= i < n + m implies chunk.code[ip + i] == ab.code[i]
        && chunk.lines[ip + i] == ab.lines[i] by {
        assert(chunk.code.subrange(ip, ip + n + m)[i] == chunk.code[ip + i]);
        assert(chunk.lines.subrange(ip, ip + n + m)[i] == chunk.lines[ip + i]);
    }
    assert forall|k: int| 0 <= k < p + q implies chunk.constants[base + k] == ab.constants[k] by {
        assert(chunk.constants.subrange(base, base + p + q)[k] == chunk.constants[base + k]);
    }
    assert(chunk.code.subrange(ip, ip + n) =~= a.code) by {
        assert forall|i: int| 0 <= i < n implies chunk.code.subrange(ip, ip + n)[i]
            == a.code[i] by {
            assert(chunk.code[ip + i] == ab.code[i]);
        }
    }
    assert(chunk.lines.subrange(ip, ip + n) =~= a.lines) by {
        assert forall|i: int| 0 <= i < n implies chunk.lines.subrange(ip, ip + n)[i]
            == a.lines[i] by {
            assert(chunk.lines[ip + i] == ab.lines[i]);
        }
    }
    assert(chunk.constants.subrange(base, base + p) =~= a.constants) by {
        assert forall|k: int| 0 <= k < p implies chunk.constants.subrange(base, base + p)[k]
            == a.constants[k] by {
            assert(chunk.constants[base + k] == ab.constants[k]);
        }
    }
    assert(chunk.code.subrange(ip + n, ip + n + m) =~= b.code) by {
        assert forall|i: int| 0 <= i < m implies chunk.code.subrange(ip + n, ip + n + m)[i]
            == b.code[i] by {
            assert(chunk.code[ip + (n + i)] == ab.code[n + i]);
        }
    }
    assert(chunk.lines.subrange(ip + n, ip + n + m) =~= b.lines) by {
        assert forall|i: int| 0 <= i < m implies chunk.lines.subrange(ip + n, ip + n + m)[i]
            == b.lines[i] by {
            assert(chunk.lines[ip + (n + i)] == ab.lines[n + i]);
        }
    }
    assert(chunk.constants.subrange(base + p, base + p + q) =~= b.constants) by {
        assert forall|k: int| 0 <= k < q implies chunk.constants.subrange(
            base + p,
            base + p + q,
        )[k] == b.constants[k] by {
            assert(chunk.constants[base + (p + k)] == ab.constants[p + k]);
        }
    }
}

proof fn placed_byte(chunk: ChunkView, byte: u8, line: usize, ip: int, base: int)
    requires
        placed(chunk, ChunkView::byte(byte, line), ip, base),
    ensures
        0 <= ip < chunk.code.len(),
        chunk.code[ip] == byte,
        chunk.lines[ip] == line,
{
    assert(chunk.code.subrange(ip, ip + 1)[0] == chunk.code[ip]);
    assert(chunk.lines.subrange(ip, ip + 1)[0] == chunk.lines[ip]);
}

/// A run that stands before `OpConstant` and the index of a constant.
proof fn number_runs(
    chunk: ChunkView,
    token: Token,
    source: Seq<char>,
    ip: int,
    base: nat,
    stack: Seq<Value>,
    answers: Answers,
)
    requires
        placed(chunk, (Expr::Number { token }).emitted(source, base), ip, base as int),
        base < MAX_CONSTANTS,
        stack.len() <= STACK_MAX,
    ensures
        finish(chunk, State { ip, stack }, answers) == carried_on(
            chunk,
            computed(Expr::Number { token }, source, ip, base, stack.len(), answers),
            ip + 2,
            stack,
            answers,
        ),
        (Expr::Number { token }).emitted(source, base).code.len() == 2,
        chunk.constants[base as int] == token.text(source),
{
    let s = State { ip, stack };
    let text = ChunkView::constant(token.text(source));
    let first = ChunkView::byte(OpCode::OpConstant.encode(), token.line);
    let second = ChunkView::byte(base as u8, token.line);
    placed_parts(chunk, text.join(first), second, ip, base as int);
    placed_parts(chunk, text, first, ip, base as int);
    placed_byte(chunk, OpCode::OpConstant.encode(), token.line, ip, (base + 1) as int);
    placed_byte(chunk, base as u8, token.line, ip + 1, (base + 1) as int);
    let index = base as int;
    assert(chunk.constants.subrange(index, index + 1)[0] == chunk.constants[index]);
    finish_by_steps(chunk, s, answers);
    if stack.len() < STACK_MAX {
        let next = State { ip: ip + 2, stack };
        assert(step(chunk, s) == Step::Ask(Request::Constant { index: base as u8 }, next));
    }
}

/// A run that stands before the instruction of a literal.
proof fn literal_runs(
    chunk: ChunkView,
    token: Token,
    source: Seq<char>,
    ip: int,
    base: nat,
    stack: Seq<Value>,
    answers: Answers,
)
    requires
        placed(chunk, (Expr::Literal { token }).emitted(source, base), ip, base as int),
        stack.len() <= STACK_MAX,
    ensures
        finish(chunk, State { ip, stack }, answers) == carried_on(
            chunk,
            computed(Expr::Literal { token }, source, ip, base, stack.len(), answers),
            ip + 1,
            stack,
            answers,
        ),
{
    let s = State { ip, stack };
    placed_byte(chunk, literal_op(token.kind).encode(), token.line, ip, base as int);
    finish_by_steps(chunk, s, answers);
}

/// A run that stands before the instruction of a unary operator, with the
/// operand's value on the stack.
proof fn unary_runs(
    chunk: ChunkView,
    operator: Token,
    at: int,
    stack: Seq<Value>,
    value: Value,
    answers: Answers,
)
    requires
        chunk.aligned(),
        0 <= at < chunk.code.len(),
        chunk.code[at] == unary_op(operator.kind).encode(),
        chunk.lines[at] == operator.line,
    ensures
        finish(chunk, State { ip: at, stack: stack.push(value) }, answers) == carried_on(
            chunk,
            unary_value(operator, value),
            at + 1,
            stack,
            answers,
        ),
{
    let then = State { ip: at, stack: stack.push(value) };
    finish_by_steps(chunk, then, answers);
    assert(then.stack.drop_last() =~= stack);
    assert(then.stack.last() == value);
}

/// A run that stands before the instruction of a binary operator, with the
/// values of both operands on the stack.
proof fn binary_runs(
    chunk: ChunkView,
    operator: Token,
    at: int,
    stack: Seq<Value>,
    left: Value,
    right: Value,
    answers: Answers,
)
    requires
        chunk.aligned(),
        0 <= at < chunk.code.len(),
        chunk.code[at] == binary_op(operator.kind).encode(),
        chunk.lines[at] == operator.line,
        stack.len() < STACK_MAX,
    ensures
        finish(chunk, State { ip: at, stack: stack.push(left).push(right) }, answers)
            == carried_on(
            chunk,
            binary_value(
                operator,
                left,
                right,
                answers(
                    at + 1,
                    Request::Arithmetic {
                        op: binary_op(operator.kind),
                        left: bits_of(left),
                        right: bits_of(right),
                    },
                ),
            ),
            at + 1,
            stack,
            answers,
        ),
{
    let then = State { ip: at, stack: stack.push(left).push(right) };
    finish_by_steps(chunk, then, answers);
    assert(then.stack.drop_last().drop_last() =~= stack);
    assert(then.stack[then.stack.len() - 2] == left);
    assert(then.stack[then.stack.len() - 1] == right);
    assert(OpCode::decode(chunk.code[at]) == binary_op(operator.kind));
}

/// The machine computes expressions. Where the bytecode of `tree` stands in
/// a chunk at `ip`, the run from `ip` goes on behind that bytecode with what
/// is computed for `tree` on the stack, or fails as that computation does:
/// on a stack that is full, or at an operator whose operand is no number.
pub proof fn expression_runs(
    chunk: ChunkView,
    tree: Expr,
    source: Seq<char>,
    ip: int,
    base: nat,
    stack: Seq<Value>,
    answers: Answers,
)
    requires
        placed(chunk, tree.emitted(source, base), ip, base as int),
        base + tree.numbers() <= MAX_CONSTANTS,
        stack.len() <= STACK_MAX,
    ensures
        finish(chunk, State { ip, stack }, answers) == carried_on(
            chunk,
            computed(tree, source, ip, base, stack.len(), answers),
            ip + tree.emitted(source, base).code.len(),
            stack,
            answers,
        ),
        computed(tree, source, ip, base, stack.len(), answers) is Ok ==> stack.len() < STACK_MAX,
        computed(tree, source, ip, base, stack.len(), answers) matches Err(error) ==> error.kind
            == RuntimeErrorKind::StackOverflow || error.kind == RuntimeErrorKind::OperandNotNumber,
    decreases tree,
{
    match tree {
        Expr::Number { token } => {
            number_runs(chunk, token, source, ip, base, stack, answers);
        },
        Expr::Literal { token } => {
            literal_runs(chunk, token, source, ip, base, stack, answers);
        },
        Expr::Grouping { inner, .. } => {
            expression_runs(chunk, *inner, source, ip, base, stack, answers);
        },
        Expr::Unary { operator, operand } => {
            let inner = operand.emitted(source, base);
            let last = ChunkView::byte(unary_op(operator.kind).encode(), operator.line);
            emitted_counts(*operand, source, base);
            placed_parts(chunk, inner, last, ip, base as int);
            let at = ip + inner.code.len();
            placed_byte(
                chunk,
                unary_op(operator.kind).encode(),
                operator.line,
                at,
                (base + inner.constants.len()) as int,
            );
            expression_runs(chunk, *operand, source, ip, base, stack, answers);
            match computed(*operand, source, ip, base, stack.len(), answers) {
                Ok(value) => {
                    unary_runs(chunk, operator, at, stack, value, answers);
                },
                Err(_) => {},
            }
        },
        Expr::Binary { left, operator, right } => {
            let first = left.emitted(source, base);
            let second = right.emitted(source, base + left.numbers());
            let last = ChunkView::byte(binary_op(operator.kind).encode(), operator.line);
            emitted_counts(*left, source, base);
            emitted_counts(*right, source, base + left.numbers());
            placed_parts(chunk, first.join(second), last, ip, base as int);
            placed_parts(chunk, first, second, ip, base as int);
            let at = ip + first.code.len() + second.code.len();
            placed_byte(
                chunk,
                binary_op(operator.kind).encode(),
                operator.line,
                at,
                (base + first.constants.len() + second.constants.len()) as int,
            );
            expression_runs(chunk, *left, source, ip, base, stack, answers);
            match computed(*left, source, ip, base, stack.len(), answers) {
                Ok(a) => {
                    expression_runs(
                        chunk,
                        *right,
                        source,
                        ip + first.code.len(),
                        base + left.numbers(),
                        stack.push(a),
                        answers,
                    );
                    match computed(
                        *right,
                        source,
                        ip + first.code.len(),
                        base + left.numbers(),
                        stack.len() + 1,
                        answers,
                    ) {
                        Ok(b) => {
                            binary_runs(chunk, operator, at, stack, a, b, answers);
                        },
                        Err(_) => {},
                    }
                },
                Err(_) => {},
            }
        },
    }
}

/// For a caller who makes numbers as `numerics` does, what is computed for
/// an expression is the expression's value.
pub proof fn computed_is_value(
    chunk: ChunkView,
    tree: Expr,
    source: Seq<char>,
    ip: int,
    base: nat,
    depth: nat,
    numerics: Numerics,
)
    requires
        placed(chunk, tree.emitted(source, base), ip, base as int),
        base + tree.numbers() <= MAX_CONSTANTS,
    ensures
        computed(tree, source, ip, base, depth, numerics.answers(chunk)) == value_of(
            tree,
            source,
            depth,
            numerics,
        ),
    decreases tree,
{
    match tree {
        Expr::Number { token } => {
            number_runs(chunk, token, source, ip, base, Seq::empty(), numerics.answers(chunk));
        },
        Expr::Literal { token } => {},
        Expr::Grouping { inner, .. } => {
            computed_is_value(chunk, *inner, source, ip, base, depth, numerics);
        },
        Expr::Unary { operator, operand } => {
            let inner = operand.emitted(source, base);
            let last = ChunkView::byte(unary_op(operator.kind).encode(), operator.line);
            emitted_counts(*operand, source, base);
            placed_parts(chunk, inner, last, ip, base as int);
            computed_is_value(chunk, *operand, source, ip, base, depth, numerics);
        },
        Expr::Binary { left, operator, right } => {
            let first = left.emitted(source, base);
            let second = right.emitted(source, base + left.numbers());
            let last = ChunkView::byte(binary_op(operator.kind).encode(), operator.line);
            emitted_counts(*left, source, base);
            emitted_counts(*right, source, base + left.numbers());
            placed_parts(chunk, first.join(second), last, ip, base as int);
            placed_parts(chunk, first, second, ip, base as int);
            computed_is_value(chunk, *left, source, ip, base, depth, numerics);
            computed_is_value(
                chunk,
                *right,
                source,
                ip + first.code.len(),
                base + left.numbers(),
                depth + 1,
                numerics,
            );
        },
    }
}

/// The stack is in balance. Whatever numbers its caller answers with, a run
/// of a compiled program ends in one of two ways: `OpReturn` takes the one
/// value that the stack holds, and leaves the stack empty, at the end of the
/// code; or the run fails, on a full stack or at an operator whose operand is
/// no number, and leaves the machine idle. No run of a compiled program
/// finds the stack too short, a byte that is no instruction, a constant that
/// is not there, or the code at its end.
pub proof fn run_is_balanced(source: Seq<char>, answers: Answers)
    requires
        refused(source) is None,
    ensures
        parse_program(tokens(source)) matches Parsed::Tree { tree, .. } && finish(
            compiled(source),
            idle(),
            answers,
        ) == (match computed(tree, source, 0, 0, 0, answers) {
            Ok(value) => Halt {
                action: Action::Finish(Outcome::Returned(value)),
                state: State { ip: compiled(source).code.len() as int, stack: Seq::empty() },
            },
            Err(error) => Halt { action: Action::Finish(Outcome::Failed(error)), state: idle() },
        }) && (computed(tree, source, 0, 0, 0, answers) matches Err(error) ==> error.kind
            == RuntimeErrorKind::StackOverflow || error.kind == RuntimeErrorKind::OperandNotNumber),
{
    let ts = tokens(source);
    parse_precedence_sound(ts, Precedence::Assignment, 0);
    let tree = parse_program(ts)->tree;
    let chunk = compiled(source);
    let body = tree.emitted(source, 0);
    program_is_placed(source);
    expression_runs(chunk, tree, source, 0, 0, Seq::empty(), answers);
    match computed(tree, source, 0, 0, 0, answers) {
        Ok(value) => {
            let then = State { ip: body.code.len() as int, stack: Seq::<Value>::empty().push(value) };
            finish_by_steps(chunk, then, answers);
            assert(chunk.code[body.code.len() as int] == OpCode::OpReturn.encode());
            assert(then.stack.drop_last() =~= Seq::<Value>::empty());
        },
        Err(_) => {},
    }
}

/// The bytecode of a program's tree stands at the beginning of its chunk.
proof fn program_is_placed(source: Seq<char>)
    requires
        refused(source) is None,
    ensures
        parse_program(tokens(source)) matches Parsed::Tree { tree, rest } && placed(
            compiled(source),
            tree.emitted(source, 0),
            0,
            0,
        ) && tree.numbers() <= MAX_CONSTANTS && compiled(source) == tree.emitted(source, 0).join(
            ChunkView::byte(OpCode::OpReturn.encode(), head(rest).line),
        ),
{
    let ts = tokens(source);
    parse_precedence_sound(ts, Precedence::Assignment, 0);
    let tree = parse_program(ts)->tree;
    let body = tree.emitted(source, 0);
    let chunk = compiled(source);
    emitted_counts(tree, source, 0);
    assert(chunk.code.subrange(0, body.code.len() as int) =~= body.code);
    assert(chunk.lines.subrange(0, body.code.len() as int) =~= body.lines);
    assert(chunk.constants.subrange(0, body.constants.len() as int) =~= body.constants);
}

/// The machine computes the value of a program. For a caller who makes
/// numbers as `numerics` does, a run of a compiled program returns the value
/// of the program's expression, and leaves the stack empty; or it fails as
/// the computation of that value fails.
pub proof fn program_runs(source: Seq<char>, numerics: Numerics)
    requires
        refused(source) is None,
    ensures
        parse_program(tokens(source)) matches Parsed::Tree { tree, .. } && finish(
            compiled(source),
            idle(),
            numerics.answers(compiled(source)),
        ) == (match value_of(tree, source, 0, numerics) {
            Ok(value) => Halt {
                action: Action::Finish(Outcome::Returned(value)),
                state: State { ip: compiled(source).code.len() as int, stack: Seq::empty() },
            },
            Err(error) => Halt { action: Action::Finish(Outcome::Failed(error)), state: idle() },
        }),
{
    let tree = parse_program(tokens(source))->tree;
    program_is_placed(source);
    run_is_balanced(source, numerics.answers(compiled(source)));
    computed_is_value(compiled(source), tree, source, 0, 0, 0, numerics);
}

} // verus!
