//! The stack machine.
//!
//! The machine holds numbers as bits and does no arithmetic on them but to
//! change a sign. Where a run needs a number made, from the text of a
//! constant or from two operands, the machine stops and says what it needs;
//! its caller computes the number and hands it back, and the run goes on.
use vstd::prelude::*;
use crate::bytecodes::{Bytecodes, ChunkView};
use crate::diagnostic::DiagnosticView;
use crate::opcode::OpCode;
use crate::value::{RuntimeErrorKind, Value};

verus! {

/// The most values that the stack holds.
pub const STACK_MAX: usize = 256;

/// How an interpretation ended.
#[derive(Copy, Clone, Debug, PartialEq, Eq, Structural)]
pub enum InterpretResult {
    InterpretOk,
    InterpretCompileError,
    InterpretRuntimeError,
}

/// A failed run: what went wrong, and the line of the instruction at which
/// it did.
#[derive(Copy, Clone, Debug, PartialEq, Eq, Structural)]
pub struct RuntimeError {
    pub kind: RuntimeErrorKind,
    pub line: usize,
}

/// A number that the machine needs from its caller.
#[derive(Copy, Clone, Debug, PartialEq, Eq, Structural)]
pub enum Request {
    /// The number that the text of the constant at `index` stands for.
    Constant { index: u8 },
    /// The result of `op`, one of the four arithmetic instructions, on the
    /// numbers `left` and `right`.
    Arithmetic { op: OpCode, left: u64, right: u64 },
}

/// The end of a run.
#[derive(Copy, Clone, Debug, PartialEq, Eq, Structural)]
pub enum Outcome {
    /// `OpReturn` took this value from the stack. The caller prints it.
    Returned(Value),
    /// The chunk is marked invalid and was not run.
    Rejected,
    /// The run failed.
    Failed(RuntimeError),
}

/// What the machine asks of its caller.
#[derive(Copy, Clone, Debug, PartialEq, Eq, Structural)]
pub enum Action {
    /// Compute the number and come back with `Event::Answer`.
    Compute(Request),
    /// The run is over.
    Finish(Outcome),
}

/// What the caller tells the machine.
#[derive(Copy, Clone, Debug, PartialEq, Eq, Structural)]
pub enum Event {
    /// Run the chunk from its beginning, on an empty stack.
    Start,
    /// The number that the last `Action::Compute` asked for.
    Answer(u64),
}

impl Outcome {
    pub open spec fn status(self) -> InterpretResult {
        match self {
            Outcome::Returned(_) => InterpretResult::InterpretOk,
            Outcome::Rejected => InterpretResult::InterpretCompileError,
            Outcome::Failed(_) => InterpretResult::InterpretRuntimeError,
        }
    }

    /// The status that the outcome stands for.
    pub fn result(&self) -> (status: InterpretResult)
        ensures
            status == self.status(),
    {
        match self {
            Outcome::Returned(_) => InterpretResult::InterpretOk,
            Outcome::Rejected => InterpretResult::InterpretCompileError,
            Outcome::Failed(_) => InterpretResult::InterpretRuntimeError,
        }
    }
}

/// The state of the machine: the place of the next instruction, and the
/// stack, whose top is its last value.
pub ghost struct State {
    pub ip: int,
    pub stack: Seq<Value>,
}

/// What one instruction does.
pub ghost enum Step {
    /// The run goes on in this state.
    Next(State),
    /// The machine needs a number; pushed on this state's stack, the run
    /// goes on.
    Ask(Request, State),
    /// `OpReturn` took the value from the stack and left this state.
    Return(Value, State),
    /// The run fails.
    Abort(RuntimeError),
}

/// A machine that has stopped: why, and in which state.
pub ghost struct Halt {
    pub action: Action,
    pub state: State,
}

/// The state in which every run begins, and in which a failed run leaves
/// the machine.
pub open spec fn idle() -> State {
    State { ip: 0, stack: Seq::empty() }
}

/// The line of the byte of code at `ip`; 0 where the chunk has none.
pub open spec fn line_of(chunk: ChunkView, ip: int) -> usize {
    if 0 <= ip < chunk.lines.len() {
        chunk.lines[ip]
    } else {
        0
    }
}

/// A failure of the instruction at `ip`.
pub open spec fn abort(chunk: ChunkView, ip: int, kind: RuntimeErrorKind) -> Step {
    Step::Abort(RuntimeError { kind, line: line_of(chunk, ip) })
}

/// The instruction at `s.ip` pushes `value`.
pub open spec fn push(chunk: ChunkView, s: State, value: Value) -> Step {
    if s.stack.len() >= STACK_MAX {
        abort(chunk, s.ip, RuntimeErrorKind::StackOverflow)
    } else {
        Step::Next(State { ip: s.ip + 1, stack: s.stack.push(value) })
    }
}

/// What the instruction at `s.ip` does to the state `s`.
pub open spec fn step(chunk: ChunkView, s: State) -> Step {
    let depth = s.stack.len() as int;
    if !(0 <= s.ip < chunk.code.len()) {
        abort(chunk, s.ip - 1, RuntimeErrorKind::CodeExhausted)
    } else {
        match OpCode::decode(chunk.code[s.ip]) {
            OpCode::OpReturn => if depth < 1 {
                abort(chunk, s.ip, RuntimeErrorKind::StackUnderflow)
            } else {
                Step::Return(s.stack.last(), State { ip: s.ip + 1, stack: s.stack.drop_last() })
            },
            OpCode::OpConstant => if s.ip + 1 >= chunk.code.len() {
                abort(chunk, s.ip, RuntimeErrorKind::CodeExhausted)
            } else if chunk.code[s.ip + 1] >= chunk.constants.len() {
                abort(chunk, s.ip, RuntimeErrorKind::BadConstant)
            } else if depth >= STACK_MAX {
                abort(chunk, s.ip, RuntimeErrorKind::StackOverflow)
            } else {
                Step::Ask(
                    Request::Constant { index: chunk.code[s.ip + 1] },
                    State { ip: s.ip + 2, stack: s.stack },
                )
            },
            OpCode::OpNil => push(chunk, s, Value::Nil),
            OpCode::OpTrue => push(chunk, s, Value::Bool(true)),
            OpCode::OpFalse => push(chunk, s, Value::Bool(false)),
            OpCode::OpNegate => if depth < 1 {
                abort(chunk, s.ip, RuntimeErrorKind::StackUnderflow)
            } else {
                match s.stack.last() {
                    Value::Number(bits) => Step::Next(
                        State {
                            ip: s.ip + 1,
                            stack: s.stack.drop_last().push(Value::Number(Value::negated(bits))),
                        },
                    ),
                    _ => abort(chunk, s.ip, RuntimeErrorKind::OperandNotNumber),
                }
            },
            OpCode::OpNot => if depth < 1 {
                abort(chunk, s.ip, RuntimeErrorKind::StackUnderflow)
            } else {
                Step::Next(
                    State {
                        ip: s.ip + 1,
                        stack: s.stack.drop_last().push(Value::Bool(s.stack.last().falsey())),
                    },
                )
            },
            OpCode::OpUnKnown => abort(chunk, s.ip, RuntimeErrorKind::UnknownOpcode),
            op => if depth < 2 {
                abort(chunk, s.ip, RuntimeErrorKind::StackUnderflow)
            } else {
                match (s.stack[depth - 2], s.stack[depth - 1]) {
                    (Value::Number(left), Value::Number(right)) => Step::Ask(
                        Request::Arithmetic { op, left, right },
                        State { ip: s.ip + 1, stack: s.stack.drop_last().drop_last() },
                    ),
                    _ => abort(chunk, s.ip, RuntimeErrorKind::OperandNotNumber),
                }
            },
        }
    }
}

/// Runs from the state `s` until the machine needs a number or the run is
/// over. A failed run leaves the machine idle.
///
/// The test on the two places is there to show that the definition ends; it
/// never fails (`step_moves_on`).
pub open spec fn advance(chunk: ChunkView, s: State) -> Halt
    decreases chunk.code.len() - s.ip,
{
    match step(chunk, s) {
        Step::Next(next) => if s.ip < next.ip {
            advance(chunk, next)
        } else {
            Halt { action: Action::Finish(Outcome::Rejected), state: idle() }
        },
        Step::Ask(request, next) => Halt { action: Action::Compute(request), state: next },
        Step::Return(value, next) => Halt {
            action: Action::Finish(Outcome::Returned(value)),
            state: next,
        },
        Step::Abort(error) => Halt { action: Action::Finish(Outcome::Failed(error)), state: idle() },
    }
}

/// The state `s` with the number `bits` on its stack.
pub open spec fn answered(s: State, bits: u64) -> State {
    State { ip: s.ip, stack: s.stack.push(Value::Number(bits)) }
}

/// Goes on from the state `s` with the number that was asked for. On a full
/// stack, which no request leaves, the run fails.
pub open spec fn resume(chunk: ChunkView, s: State, bits: u64) -> Halt {
    if s.stack.len() >= STACK_MAX {
        Halt {
            action: Action::Finish(
                Outcome::Failed(
                    RuntimeError {
                        kind: RuntimeErrorKind::StackOverflow,
                        line: line_of(chunk, s.ip - 1),
                    },
                ),
            ),
            state: idle(),
        }
    } else {
        advance(chunk, answered(s, bits))
    }
}

/// What the machine does on an event. A chunk that is marked invalid is not
/// run, whatever the event. `Start` runs the chunk from its beginning on an
/// empty stack; `Answer` pushes the number and goes on.
pub open spec fn react(
    chunk: ChunkView,
    fault: Option<DiagnosticView>,
    s: State,
    event: Event,
) -> Halt {
    if fault is Some {
        Halt { action: Action::Finish(Outcome::Rejected), state: idle() }
    } else {
        match event {
            Event::Start => advance(chunk, idle()),
            Event::Answer(bits) => resume(chunk, s, bits),
        }
    }
}

/// Every instruction but a failing one moves the machine forward.
pub proof fn step_moves_on(chunk: ChunkView, s: State)
    ensures
        step(chunk, s) matches Step::Next(next) ==> s.ip < next.ip <= chunk.code.len(),
        step(chunk, s) matches Step::Ask(_, next) ==> s.ip < next.ip <= chunk.code.len(),
        step(chunk, s) matches Step::Return(_, next) ==> s.ip < next.ip <= chunk.code.len(),
{
}

/// The machine: the place of the next instruction, and the stack.
pub struct VM {
    ip: usize,
    stack: Vec<Value>,
}

impl View for VM {
    type V = State;

    closed spec fn view(&self) -> State {
        State { ip: self.ip as int, stack: self.stack@ }
    }
}

fn line_at(chunk: &Bytecodes, ip: usize) -> (line: usize)
    ensures
        line == line_of(chunk@, ip as int),
{
    match chunk.read_line(ip) {
        Some(line) => line,
        None => 0,
    }
}

impl VM {
    /// An idle machine.
    pub fn new() -> (machine: VM)
        ensures
            machine@ == idle(),
    {
        VM { ip: 0, stack: Vec::new() }
    }

    /// Releases the stack. The machine is idle again.
    pub fn free(&mut self)
        ensures
            final(self)@ == idle(),
    {
        self.stack = Vec::new();
        self.ip = 0;
    }

    /// The values on the stack, the top last.
    pub fn stack(&self) -> (values: &Vec<Value>)
        ensures
            values@ == self@.stack,
    {
        &self.stack
    }

    /// Fails the run: the stack is emptied, and the machine is idle.
    fn fail(&mut self, kind: RuntimeErrorKind, line: usize) -> (action: Action)
        ensures
            final(self)@ == idle(),
            action == Action::Finish(Outcome::Failed(RuntimeError { kind, line })),
    {
        self.stack.clear();
        self.ip = 0;
        Action::Finish(Outcome::Failed(RuntimeError { kind, line }))
    }

    /// The dispatch loop: reads and executes instructions until the machine
    /// needs a number or the run is over.
    fn execute(&mut self, chunk: &Bytecodes) -> (action: Action)
        ensures
            (Halt { action, state: final(self)@ }) == advance(chunk@, old(self)@),
    {
        let size: usize = chunk.len();
        loop
            invariant
                size == chunk@.code.len(),
                advance(chunk@, self@) == advance(chunk@, old(self)@),
            decreases chunk@.code.len() - self.ip,
        {
            let ip: usize = self.ip;
            let depth: usize = self.stack.len();
            let ghost before = self@;
            proof {
                step_moves_on(chunk@, before);
            }
            let byte: u8 = match chunk.read_byte(ip) {
                Some(byte) => byte,
                None => {
                    let line: usize = if ip == 0 {
                        0
                    } else {
                        line_at(chunk, ip - 1)
                    };
                    return self.fail(RuntimeErrorKind::CodeExhausted, line);
                },
            };
            let line: usize = line_at(chunk, ip);
            match OpCode::from(byte) {
                OpCode::OpReturn => {
                    if depth < 1 {
                        return self.fail(RuntimeErrorKind::StackUnderflow, line);
                    }
                    let value: Value = self.stack[depth - 1];
                    self.stack.pop();
                    self.ip = ip + 1;
                    return Action::Finish(Outcome::Returned(value));
                },
                OpCode::OpConstant => {
                    let index: u8 = match chunk.read_byte(ip + 1) {
                        Some(index) => index,
                        None => {
                            return self.fail(RuntimeErrorKind::CodeExhausted, line);
                        },
                    };
                    if index as usize >= chunk.constants_len() {
                        return self.fail(RuntimeErrorKind::BadConstant, line);
                    }
                    if depth >= STACK_MAX {
                        return self.fail(RuntimeErrorKind::StackOverflow, line);
                    }
                    self.ip = ip + 2;
                    return Action::Compute(Request::Constant { index });
                },
                OpCode::OpNil => {
                    if depth >= STACK_MAX {
                        return self.fail(RuntimeErrorKind::StackOverflow, line);
                    }
                    self.stack.push(Value::Nil);
                    self.ip = ip + 1;
                },
                OpCode::OpTrue => {
                    if depth >= STACK_MAX {
                        return self.fail(RuntimeErrorKind::StackOverflow, line);
                    }
                    self.stack.push(Value::Bool(true));
                    self.ip = ip + 1;
                },
                OpCode::OpFalse => {
                    if depth >= STACK_MAX {
                        return self.fail(RuntimeErrorKind::StackOverflow, line);
                    }
                    self.stack.push(Value::Bool(false));
                    self.ip = ip + 1;
                },
                OpCode::OpNegate => {
                    if depth < 1 {
                        return self.fail(RuntimeErrorKind::StackUnderflow, line);
                    }
                    match self.stack[depth - 1].as_number() {
                        Ok(bits) => {
                            self.stack.pop();
                            self.stack.push(Value::Number(Value::negate(bits)));
                            self.ip = ip + 1;
                        },
                        Err(kind) => {
                            return self.fail(kind, line);
                        },
                    }
                },
                OpCode::OpNot => {
                    if depth < 1 {
                        return self.fail(RuntimeErrorKind::StackUnderflow, line);
                    }
                    let falsey: bool = self.stack[depth - 1].is_falsey();
                    self.stack.pop();
                    self.stack.push(Value::Bool(falsey));
                    self.ip = ip + 1;
                },
                OpCode::OpUnKnown => {
                    return self.fail(RuntimeErrorKind::UnknownOpcode, line);
                },
                op => {
                    if depth < 2 {
                        return self.fail(RuntimeErrorKind::StackUnderflow, line);
                    }
                    let left: Value = self.stack[depth - 2];
                    let right: Value = self.stack[depth - 1];
                    match (left, right) {
                        (Value::Number(left), Value::Number(right)) => {
                            self.stack.pop();
                            self.stack.pop();
                            self.ip = ip + 1;
                            return Action::Compute(Request::Arithmetic { op, left, right });
                        },
                        _ => {
                            return self.fail(RuntimeErrorKind::OperandNotNumber, line);
                        },
                    }
                },
            }
        }
    }

    /// Runs a chunk from its beginning, until the machine needs a number or
    /// the run is over. A chunk that is marked invalid is not run.
    pub fn interpret(&mut self, chunk: &Bytecodes) -> (action: Action)
        ensures
            (Halt { action, state: final(self)@ }) == react(
                chunk@,
                chunk.fault(),
                old(self)@,
                Event::Start,
            ),
    {
        self.stack.clear();
        self.ip = 0;
        if !chunk.is_valid() {
            return Action::Finish(Outcome::Rejected);
        }
        self.execute(chunk)
    }

    /// Goes on with the number that the machine asked for.
    pub fn resume(&mut self, chunk: &Bytecodes, bits: u64) -> (action: Action)
        ensures
            (Halt { action, state: final(self)@ }) == react(
                chunk@,
                chunk.fault(),
                old(self)@,
                Event::Answer(bits),
            ),
    {
        if !chunk.is_valid() {
            self.stack.clear();
            self.ip = 0;
            return Action::Finish(Outcome::Rejected);
        }
        if self.stack.len() >= STACK_MAX {
            let line: usize = if self.ip == 0 {
                0
            } else {
                line_at(chunk, self.ip - 1)
            };
            return self.fail(RuntimeErrorKind::StackOverflow, line);
        }
        self.stack.push(Value::Number(bits));
        self.execute(chunk)
    }
}

} // verus!
