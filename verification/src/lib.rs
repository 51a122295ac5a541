//! A single-pass compiler and stack machine for a small expression language.
//!
//! A source text is cut into tokens, parsed by precedence climbing and written
//! out as bytecode while it is parsed; the bytecode runs on a stack machine.
use vstd::prelude::*;

pub mod bytecodes;
pub mod compiler;
pub mod debug;
pub mod diagnostic;
pub mod lexer;
pub mod opcode;
pub mod parser;
pub mod parser_rules;
pub mod properties;
pub mod semantics;
pub mod syntax;
pub mod token;
pub mod value;
pub mod vm;

use crate::bytecodes::Bytecodes;
use crate::compiler::{compiled, refused, Compiler};
use crate::vm::{react, Action, Event, Halt, VM};

verus! {

/// Compiles a source text to a chunk.
pub fn compile(input: String) -> (code: Bytecodes)
    ensures
        code.wf(),
        code@ == compiled(input@),
        code.fault() == refused(input@),
{
    Compiler::new(input).compile()
}

/// Lets a machine run a chunk, as far as it gets without its caller: on
/// `Event::Start` from the beginning, on `Event::Answer` from where it
/// stopped to ask for the number that the event brings.
pub fn run(machine: &mut VM, code: &Bytecodes, event: Event) -> (action: Action)
    ensures
        (Halt { action, state: final(machine)@ }) == react(code@, code.fault(), old(machine)@, event),
{
    match event {
        Event::Start => machine.interpret(code),
        Event::Answer(bits) => machine.resume(code, bits),
    }
}

} // verus!
