//! The values that the machine computes with.
use vstd::prelude::*;

verus! {

/// The sign bit of a number.
pub const SIGN_BIT: u64 = 0x8000_0000_0000_0000;

/// A value of the language. A number is held as the 64 bits of its IEEE 754
/// double-precision form.
#[derive(Copy, Clone, Debug, PartialEq, Eq, Structural)]
pub enum Value {
    Nil,
    Bool(bool),
    Number(u64),
}

/// The ways in which a run can fail.
#[derive(Copy, Clone, Debug, PartialEq, Eq, Structural)]
pub enum RuntimeErrorKind {
    /// Arithmetic or negation met a value that is no number.
    OperandNotNumber,
    /// An instruction needed more values than the stack held.
    StackUnderflow,
    /// A value was pushed on a full stack.
    StackOverflow,
    /// A byte in the place of an instruction encodes none.
    UnknownOpcode,
    /// `OpConstant` named a constant that the chunk does not have.
    BadConstant,
    /// The code ended before `OpReturn`, or inside an instruction.
    CodeExhausted,
}

impl RuntimeErrorKind {
    pub open spec fn message_text(self) -> Seq<char> {
        match self {
            RuntimeErrorKind::OperandNotNumber => "Operand must be a number."@,
            RuntimeErrorKind::StackUnderflow => "Stack underflow."@,
            RuntimeErrorKind::StackOverflow => "Stack overflow."@,
            RuntimeErrorKind::UnknownOpcode => "Unknown opcode."@,
            RuntimeErrorKind::BadConstant => "Unknown constant."@,
            RuntimeErrorKind::CodeExhausted => "Code ends without a return."@,
        }
    }

    /// The failure in words.
    pub fn message(&self) -> (text: &'static str)
        ensures
            text@ == self.message_text(),
    {
        match self {
            RuntimeErrorKind::OperandNotNumber => "Operand must be a number.",
            RuntimeErrorKind::StackUnderflow => "Stack underflow.",
            RuntimeErrorKind::StackOverflow => "Stack overflow.",
            RuntimeErrorKind::UnknownOpcode => "Unknown opcode.",
            RuntimeErrorKind::BadConstant => "Unknown constant.",
            RuntimeErrorKind::CodeExhausted => "Code ends without a return.",
        }
    }
}

impl Value {
    /// `Nil` and `false` are falsey; every other value is truthy.
    pub open spec fn falsey(self) -> bool {
        self == Value::Nil || self == Value::Bool(false)
    }

    /// The value with its sign changed: the same bits but for the sign bit.
    pub open spec fn negated(bits: u64) -> u64 {
        bits ^ SIGN_BIT
    }

    pub fn is_falsey(&self) -> (b: bool)
        ensures
            b == self.falsey(),
    {
        match self {
            Value::Nil => true,
            Value::Bool(b) => !*b,
            Value::Number(_) => false,
        }
    }

    pub fn is_number(&self) -> (b: bool)
        ensures
            b == (*self is Number),
    {
        match self {
            Value::Number(_) => true,
            _ => false,
        }
    }

    /// The bits of a number; of any other value, the error that arithmetic
    /// on it raises.
    pub fn as_number(&self) -> (bits: Result<u64, RuntimeErrorKind>)
        ensures
            bits == (match *self {
                Value::Number(n) => Ok::<u64, RuntimeErrorKind>(n),
                _ => Err(RuntimeErrorKind::OperandNotNumber),
            }),
    {
        match self {
            Value::Number(n) => Ok(*n),
            _ => Err(RuntimeErrorKind::OperandNotNumber),
        }
    }

    /// Changes the sign of a number.
    pub fn negate(bits: u64) -> (flipped: u64)
        ensures
            flipped == Value::negated(bits),
    {
        bits ^ SIGN_BIT
    }
}

/// Changing the sign twice gives the number back, and changes nothing but
/// the sign bit.
pub proof fn negated_twice(bits: u64)
    ensures
        Value::negated(Value::negated(bits)) == bits,
        Value::negated(bits) & !SIGN_BIT == bits & !SIGN_BIT,
        Value::negated(bits) & SIGN_BIT != bits & SIGN_BIT,
{
    assert((bits ^ 0x8000_0000_0000_0000u64) ^ 0x8000_0000_0000_0000u64 == bits) by (bit_vector);
    assert((bits ^ 0x8000_0000_0000_0000u64) & !0x8000_0000_0000_0000u64 == bits
        & !0x8000_0000_0000_0000u64) by (bit_vector);
    assert((bits ^ 0x8000_0000_0000_0000u64) & 0x8000_0000_0000_0000u64 != bits
        & 0x8000_0000_0000_0000u64) by (bit_vector);
}

} // verus!
