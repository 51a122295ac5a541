//! The instruction set of the stack machine and its byte encoding.
use vstd::prelude::*;
use vstd::std_specs::convert::FromSpecImpl;

verus! {

/// One instruction of the machine. `OpUnKnown` stands for every byte that
/// encodes no instruction.
#[derive(Copy, Clone, Debug, PartialEq, Eq, Structural)]
pub enum OpCode {
    OpReturn,
    OpConstant,
    OpNegate,
    OpAdd,
    OpSubtract,
    OpMultiple,
    OpDivide,
    OpNil,
    OpTrue,
    OpFalse,
    OpNot,
    OpUnKnown,
}

impl OpCode {
    /// The instruction that a byte stands for.
    pub open spec fn decode(byte: u8) -> OpCode {
        if byte == 0 {
            OpCode::OpReturn
        } else if byte == 1 {
            OpCode::OpConstant
        } else if byte == 2 {
            OpCode::OpNegate
        } else if byte == 3 {
            OpCode::OpAdd
        } else if byte == 4 {
            OpCode::OpSubtract
        } else if byte == 5 {
            OpCode::OpMultiple
        } else if byte == 6 {
            OpCode::OpDivide
        } else if byte == 7 {
            OpCode::OpNil
        } else if byte == 8 {
            OpCode::OpTrue
        } else if byte == 9 {
            OpCode::OpFalse
        } else if byte == 10 {
            OpCode::OpNot
        } else {
            OpCode::OpUnKnown
        }
    }

    /// The byte that stands for an instruction.
    pub open spec fn encode(self) -> u8 {
        match self {
            OpCode::OpReturn => 0,
            OpCode::OpConstant => 1,
            OpCode::OpNegate => 2,
            OpCode::OpAdd => 3,
            OpCode::OpSubtract => 4,
            OpCode::OpMultiple => 5,
            OpCode::OpDivide => 6,
            OpCode::OpNil => 7,
            OpCode::OpTrue => 8,
            OpCode::OpFalse => 9,
            OpCode::OpNot => 10,
            OpCode::OpUnKnown => 99,
        }
    }

    /// Whether the instruction takes two numbers and leaves one.
    pub open spec fn is_arithmetic(self) -> bool {
        self == OpCode::OpAdd || self == OpCode::OpSubtract || self == OpCode::OpMultiple || self
            == OpCode::OpDivide
    }
}

impl From<u8> for OpCode {
    fn from(op: u8) -> (code: Self) {
        match op {
            0 => OpCode::OpReturn,
            1 => OpCode::OpConstant,
            2 => OpCode::OpNegate,
            3 => OpCode::OpAdd,
            4 => OpCode::OpSubtract,
            5 => OpCode::OpMultiple,
            6 => OpCode::OpDivide,
            7 => OpCode::OpNil,
            8 => OpCode::OpTrue,
            9 => OpCode::OpFalse,
            10 => OpCode::OpNot,
            _ => OpCode::OpUnKnown,
        }
    }
}

impl FromSpecImpl<u8> for OpCode {
    open spec fn obeys_from_spec() -> bool {
        true
    }

    open spec fn from_spec(op: u8) -> Self {
        OpCode::decode(op)
    }
}

impl From<OpCode> for u8 {
    fn from(op: OpCode) -> (byte: Self) {
        match op {
            OpCode::OpReturn => 0,
            OpCode::OpConstant => 1,
            OpCode::OpNegate => 2,
            OpCode::OpUnKnown => 99,
            OpCode::OpAdd => 3,
            OpCode::OpSubtract => 4,
            OpCode::OpMultiple => 5,
            OpCode::OpDivide => 6,
            OpCode::OpNil => 7,
            OpCode::OpTrue => 8,
            OpCode::OpFalse => 9,
            OpCode::OpNot => 10,
        }
    }
}

impl FromSpecImpl<OpCode> for u8 {
    open spec fn obeys_from_spec() -> bool {
        true
    }

    open spec fn from_spec(op: OpCode) -> Self {
        op.encode()
    }
}

/// Decoding the byte of an instruction gives the instruction back.
pub proof fn decode_inverts_encode(op: OpCode)
    ensures
        OpCode::decode(op.encode()) == op,
{
}

/// A byte decodes to `OpUnKnown` exactly when it is above 10, and the byte of
/// any other instruction is the byte it was decoded from.
pub proof fn encode_inverts_decode(byte: u8)
    ensures
        OpCode::decode(byte) == OpCode::OpUnKnown <==> byte > 10,
        byte <= 10 ==> OpCode::decode(byte).encode() == byte,
{
}

} // verus!
