//! The disassembler: a chunk as a listing, one row for each instruction.
use vstd::prelude::*;
use crate::bytecodes::{Bytecodes, ChunkView};
use crate::opcode::OpCode;
use crate::vm::line_of;

verus! {

/// One row of a listing: an instruction, where it stands, and its line.
#[derive(Copy, Clone, Debug, PartialEq, Eq)]
pub struct Row {
    /// The place of the instruction in the code.
    pub offset: usize,
    /// The line of the instruction.
    pub line: usize,
    /// Whether the byte before the instruction has the same line; a listing
    /// then shows `|` in place of the line.
    pub same_line: bool,
    /// The byte of the instruction.
    pub byte: u8,
    /// The instruction; `OpUnKnown` where `byte` encodes none.
    pub op: OpCode,
    /// The index behind `OpConstant`, if the code holds it.
    pub operand: Option<u8>,
}

/// Whether the instruction at `offset` has an operand in the code.
pub open spec fn has_operand(chunk: ChunkView, offset: int) -> bool {
    OpCode::decode(chunk.code[offset]) == OpCode::OpConstant && offset + 1 < chunk.code.len()
}

/// The row of the instruction at `offset`.
pub open spec fn row_at(chunk: ChunkView, offset: int) -> Row {
    Row {
        offset: offset as usize,
        line: line_of(chunk, offset),
        same_line: offset > 0 && line_of(chunk, offset) == line_of(chunk, offset - 1),
        byte: chunk.code[offset],
        op: OpCode::decode(chunk.code[offset]),
        operand: if has_operand(chunk, offset) {
            Some(chunk.code[offset + 1])
        } else {
            None
        },
    }
}

/// The place of the instruction behind the one at `offset`.
pub open spec fn behind(chunk: ChunkView, offset: int) -> int {
    if has_operand(chunk, offset) {
        offset + 2
    } else {
        offset + 1
    }
}

/// The rows of the instructions from `offset` on.
pub open spec fn listing(chunk: ChunkView, offset: int) -> Seq<Row>
    decreases chunk.code.len() - offset,
{
    if 0 <= offset < chunk.code.len() {
        seq![row_at(chunk, offset)] + listing(chunk, behind(chunk, offset))
    } else {
        Seq::empty()
    }
}

/// Disassembles the instruction at `offset`: its row, and the place of the
/// instruction behind it. Behind the end of the code there is none.
pub fn disassemble_instruction(chunk: &Bytecodes, offset: usize) -> (found: Option<(Row, usize)>)
    ensures
        found == (if offset < chunk@.code.len() {
            Some((row_at(chunk@, offset as int), behind(chunk@, offset as int) as usize))
        } else {
            None
        }),
{
    let size: usize = chunk.len();
    let byte: u8 = match chunk.read_byte(offset) {
        Some(byte) => byte,
        None => {
            return None;
        },
    };
    let line: usize = match chunk.read_line(offset) {
        Some(line) => line,
        None => 0,
    };
    let before: usize = if offset == 0 {
        0
    } else {
        match chunk.read_line(offset - 1) {
            Some(line) => line,
            None => 0,
        }
    };
    let op = OpCode::from(byte);
    let operand: Option<u8> = if op == OpCode::OpConstant && offset + 1 < size {
        chunk.read_byte(offset + 1)
    } else {
        None
    };
    let next: usize = if operand.is_some() {
        offset + 2
    } else {
        offset + 1
    };
    Some((Row { offset, line, same_line: offset > 0 && line == before, byte, op, operand }, next))
}

/// Disassembles a chunk. The chunk is only read.
pub fn disassemble(chunk: &Bytecodes) -> (rows: Vec<Row>)
    ensures
        rows@ == listing(chunk@, 0),
{
    let size: usize = chunk.len();
    let mut rows: Vec<Row> = Vec::new();
    let mut offset: usize = 0;
    while offset < size
        invariant
            size == chunk@.code.len(),
            offset <= size,
            rows@ + listing(chunk@, offset as int) == listing(chunk@, 0),
        ensures
            rows@ == listing(chunk@, 0),
        decreases size - offset,
    {
        let (row, next) = match disassemble_instruction(chunk, offset) {
            Some(found) => found,
            None => {
                break ;
            },
        };
        proof {
            let more = listing(chunk@, next as int);
            assert(rows@.push(row) + more =~= rows@ + (seq![row] + more));
        }
        rows.push(row);
        offset = next;
    }
    rows
}

} // verus!
