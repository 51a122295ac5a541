use apoloo::bytecodes::Bytecodes;
use apoloo::compile;
use apoloo::run;
use apoloo::value::{RuntimeErrorKind, Value};
use apoloo::vm::{Action, Event, InterpretResult, Outcome, Request, RuntimeError, VM};
use apoloo::opcode::OpCode;

fn chunk_of(code: &[u8], line: usize, constants: &[&str]) -> Bytecodes {
    let mut chunk = Bytecodes::new();
    for text in constants {
        chunk.write_constant(text.chars().collect());
    }
    for byte in code {
        chunk.write_byte(*byte, line);
    }
    chunk
}

fn failed(kind: RuntimeErrorKind, line: usize) -> Action {
    Action::Finish(Outcome::Failed(RuntimeError { kind, line }))
}

#[test]
fn values_are_falsey_or_truthy() {
    assert!(Value::Nil.is_falsey());
    assert!(Value::Bool(false).is_falsey());
    assert!(!Value::Bool(true).is_falsey());
    assert!(!Value::Number(0).is_falsey());
    assert!(!Value::Number(f64::NAN.to_bits()).is_falsey());
}

#[test]
fn only_a_number_is_read_as_a_number() {
    assert_eq!(Value::Number(42).as_number(), Ok(42));
    assert_eq!(Value::Nil.as_number(), Err(RuntimeErrorKind::OperandNotNumber));
    assert_eq!(Value::Bool(true).as_number(), Err(RuntimeErrorKind::OperandNotNumber));
    assert!(Value::Number(1).is_number());
    assert!(!Value::Nil.is_number());
    assert!(!Value::Bool(false).is_number());
}

#[test]
fn negation_changes_the_sign_of_a_double() {
    for x in [0.0f64, -0.0, 1.5, -2.25, f64::INFINITY, f64::NEG_INFINITY, f64::MAX, f64::MIN_POSITIVE]
    {
        assert_eq!(Value::negate(x.to_bits()), (-x).to_bits());
    }
    assert_eq!(Value::negate(f64::NAN.to_bits()), (-f64::NAN).to_bits());
    assert_eq!(Value::negate(0), 0x8000_0000_0000_0000);
    assert_eq!(Value::negate(Value::negate(12345)), 12345);
}

#[test]
fn the_machine_asks_for_each_constant() {
    let chunk = compile("1.5".to_string());
    let mut machine = VM::new();
    let action = run(&mut machine, &chunk, Event::Start);
    assert_eq!(action, Action::Compute(Request::Constant { index: 0 }));
    assert!(machine.stack().is_empty());
    let action = run(&mut machine, &chunk, Event::Answer(1.5f64.to_bits()));
    assert_eq!(action, Action::Finish(Outcome::Returned(Value::Number(1.5f64.to_bits()))));
    assert!(machine.stack().is_empty());
}

#[test]
fn the_machine_asks_for_arithmetic_with_the_left_operand_first() {
    let chunk = compile("7 - 2".to_string());
    let mut machine = VM::new();
    assert_eq!(
        machine.interpret(&chunk),
        Action::Compute(Request::Constant { index: 0 })
    );
    assert_eq!(machine.resume(&chunk, 70), Action::Compute(Request::Constant { index: 1 }));
    assert_eq!(machine.stack(), &vec![Value::Number(70)]);
    assert_eq!(
        machine.resume(&chunk, 20),
        Action::Compute(Request::Arithmetic { op: OpCode::OpSubtract, left: 70, right: 20 })
    );
    assert!(machine.stack().is_empty());
    assert_eq!(
        machine.resume(&chunk, 50),
        Action::Finish(Outcome::Returned(Value::Number(50)))
    );
    assert!(machine.stack().is_empty());
}

#[test]
fn each_arithmetic_instruction_is_asked_for_by_its_name() {
    for (source, op) in [
        ("1 + 2", OpCode::OpAdd),
        ("1 - 2", OpCode::OpSubtract),
        ("1 * 2", OpCode::OpMultiple),
        ("1 / 2", OpCode::OpDivide),
    ] {
        let chunk = compile(source.to_string());
        let mut machine = VM::new();
        machine.interpret(&chunk);
        machine.resume(&chunk, 1);
        assert_eq!(
            machine.resume(&chunk, 2),
            Action::Compute(Request::Arithmetic { op, left: 1, right: 2 })
        );
    }
}

#[test]
fn an_invalid_chunk_is_not_run() {
    let chunk = compile("1 +".to_string());
    let mut machine = VM::new();
    assert_eq!(run(&mut machine, &chunk, Event::Start), Action::Finish(Outcome::Rejected));
    assert_eq!(run(&mut machine, &chunk, Event::Answer(1)), Action::Finish(Outcome::Rejected));
    assert!(machine.stack().is_empty());
    assert_eq!(Outcome::Rejected.result(), InterpretResult::InterpretCompileError);
}

#[test]
fn an_instruction_without_its_operands_underflows() {
    for op in [0u8, 2, 3, 4, 5, 6, 10] {
        let chunk = chunk_of(&[op], 7, &[]);
        let mut machine = VM::new();
        assert_eq!(machine.interpret(&chunk), failed(RuntimeErrorKind::StackUnderflow, 7));
    }
    for op in [3u8, 4, 5, 6] {
        let chunk = chunk_of(&[7, op], 7, &[]);
        let mut machine = VM::new();
        assert_eq!(machine.interpret(&chunk), failed(RuntimeErrorKind::StackUnderflow, 7));
        assert!(machine.stack().is_empty());
    }
}

#[test]
fn a_byte_that_is_no_instruction_fails_the_run() {
    for byte in [11u8, 99, 200, 255] {
        let chunk = chunk_of(&[8, byte], 3, &[]);
        let mut machine = VM::new();
        assert_eq!(machine.interpret(&chunk), failed(RuntimeErrorKind::UnknownOpcode, 3));
        assert!(machine.stack().is_empty());
    }
}

#[test]
fn code_that_ends_without_a_return_fails_the_run() {
    let mut machine = VM::new();
    assert_eq!(
        machine.interpret(&Bytecodes::new()),
        failed(RuntimeErrorKind::CodeExhausted, 0)
    );
    assert_eq!(
        machine.interpret(&chunk_of(&[7, 10], 5, &[])),
        failed(RuntimeErrorKind::CodeExhausted, 5)
    );
    assert_eq!(
        machine.interpret(&chunk_of(&[1], 6, &["1"])),
        failed(RuntimeErrorKind::CodeExhausted, 6)
    );
}

#[test]
fn a_constant_that_the_chunk_lacks_fails_the_run() {
    let mut machine = VM::new();
    assert_eq!(
        machine.interpret(&chunk_of(&[1, 1, 0], 2, &["1"])),
        failed(RuntimeErrorKind::BadConstant, 2)
    );
    assert_eq!(
        machine.interpret(&chunk_of(&[1, 0, 0], 2, &[])),
        failed(RuntimeErrorKind::BadConstant, 2)
    );
}

#[test]
fn the_stack_holds_256_values_and_no_more() {
    let mut code = vec![7u8; 256];
    code.push(0);
    let mut machine = VM::new();
    assert_eq!(
        machine.interpret(&chunk_of(&code, 1, &[])),
        Action::Finish(Outcome::Returned(Value::Nil))
    );
    assert_eq!(machine.stack().len(), 255);
    let code = vec![8u8; 257];
    assert_eq!(
        machine.interpret(&chunk_of(&code, 9, &[])),
        failed(RuntimeErrorKind::StackOverflow, 9)
    );
    assert!(machine.stack().is_empty());
    let mut code = vec![9u8; 256];
    code.extend([1, 0]);
    assert_eq!(
        machine.interpret(&chunk_of(&code, 4, &["1"])),
        failed(RuntimeErrorKind::StackOverflow, 4)
    );
}

#[test]
fn an_answer_that_was_not_asked_for_is_pushed() {
    let chunk = chunk_of(&[0], 1, &[]);
    let mut machine = VM::new();
    assert_eq!(
        machine.resume(&chunk, 5),
        Action::Finish(Outcome::Returned(Value::Number(5)))
    );
    let full = chunk_of(&vec![7u8; 256], 1, &[]);
    assert_eq!(machine.interpret(&full), failed(RuntimeErrorKind::CodeExhausted, 1));
}

#[test]
fn a_deep_expression_overflows_the_stack() {
    let mut deep = String::new();
    for _ in 0..256 {
        deep.push_str("nil + (");
    }
    deep.push_str("nil");
    for _ in 0..256 {
        deep.push(')');
    }
    let chunk = compile(deep);
    assert!(chunk.is_valid());
    let mut machine = VM::new();
    assert_eq!(machine.interpret(&chunk), failed(RuntimeErrorKind::StackOverflow, 1));
    assert!(machine.stack().is_empty());
}

#[test]
fn free_empties_the_machine() {
    let chunk = compile("1 + 2".to_string());
    let mut machine = VM::new();
    machine.interpret(&chunk);
    machine.resume(&chunk, 1);
    assert_eq!(machine.stack().len(), 1);
    machine.free();
    assert!(machine.stack().is_empty());
    assert_eq!(
        machine.interpret(&chunk),
        Action::Compute(Request::Constant { index: 0 })
    );
}

#[test]
fn each_failure_has_its_words() {
    assert_eq!(RuntimeErrorKind::OperandNotNumber.message(), "Operand must be a number.");
    assert_eq!(RuntimeErrorKind::StackUnderflow.message(), "Stack underflow.");
    assert_eq!(RuntimeErrorKind::StackOverflow.message(), "Stack overflow.");
    assert_eq!(RuntimeErrorKind::UnknownOpcode.message(), "Unknown opcode.");
    assert_eq!(RuntimeErrorKind::BadConstant.message(), "Unknown constant.");
    assert_eq!(RuntimeErrorKind::CodeExhausted.message(), "Code ends without a return.");
}

#[test]
fn the_status_of_each_outcome() {
    assert_eq!(Outcome::Returned(Value::Nil).result(), InterpretResult::InterpretOk);
    assert_eq!(Outcome::Rejected.result(), InterpretResult::InterpretCompileError);
    assert_eq!(
        Outcome::Failed(RuntimeError { kind: RuntimeErrorKind::StackUnderflow, line: 1 }).result(),
        InterpretResult::InterpretRuntimeError
    );
}
