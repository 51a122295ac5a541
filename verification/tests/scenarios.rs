use apoloo::bytecodes::Bytecodes;
use apoloo::diagnostic::Reason;
use apoloo::opcode::OpCode;
use apoloo::token::TokenKind;
use apoloo::value::{RuntimeErrorKind, Value};
use apoloo::vm::{Action, Event, InterpretResult, Outcome, Request, RuntimeError, VM};
use apoloo::{compile, run};

fn answer(code: &Bytecodes, request: Request) -> u64 {
    match request {
        Request::Constant { index } => {
            let text: String = code.read_constant(index as usize).unwrap().iter().collect();
            text.parse::<f64>().unwrap().to_bits()
        }
        Request::Arithmetic { op, left, right } => {
            let a = f64::from_bits(left);
            let b = f64::from_bits(right);
            let result = match op {
                OpCode::OpAdd => a + b,
                OpCode::OpSubtract => a - b,
                OpCode::OpMultiple => a * b,
                OpCode::OpDivide => a / b,
                _ => unreachable!(),
            };
            result.to_bits()
        }
    }
}

fn drive(machine: &mut VM, code: &Bytecodes) -> Outcome {
    let mut action = run(machine, code, Event::Start);
    loop {
        match action {
            Action::Compute(request) => {
                let bits = answer(code, request);
                action = run(machine, code, Event::Answer(bits));
            }
            Action::Finish(outcome) => return outcome,
        }
    }
}

fn evaluate(source: &str) -> Outcome {
    let code = compile(source.to_string());
    let mut machine = VM::new();
    let outcome = drive(&mut machine, &code);
    assert!(machine.stack().is_empty());
    machine.free();
    outcome
}

fn number(outcome: Outcome) -> f64 {
    match outcome {
        Outcome::Returned(Value::Number(bits)) => f64::from_bits(bits),
        other => panic!("no number: {:?}", other),
    }
}

#[test]
fn adds_two_numbers() {
    let outcome = evaluate("1 + 2");
    assert_eq!(number(outcome), 3.0);
    assert_eq!(outcome.result(), InterpretResult::InterpretOk);
}

#[test]
fn multiplies_before_it_adds() {
    assert_eq!(number(evaluate("1 + 2 * 3")), 7.0);
}

#[test]
fn a_group_is_computed_first() {
    assert_eq!(number(evaluate("(1 + 2) * 3")), 9.0);
}

#[test]
fn negates_before_it_adds() {
    assert_eq!(number(evaluate("-5 + 10")), 5.0);
}

#[test]
fn not_nil_is_true() {
    assert_eq!(evaluate("!nil"), Outcome::Returned(Value::Bool(true)));
}

#[test]
fn not_false_is_true() {
    assert_eq!(evaluate("!false"), Outcome::Returned(Value::Bool(true)));
}

#[test]
fn negating_true_fails() {
    let outcome = evaluate("-true");
    assert_eq!(
        outcome,
        Outcome::Failed(RuntimeError { kind: RuntimeErrorKind::OperandNotNumber, line: 1 })
    );
    assert_eq!(outcome.result(), InterpretResult::InterpretRuntimeError);
}

#[test]
fn a_missing_operand_is_refused() {
    let code = compile("1 +".to_string());
    assert!(!code.is_valid());
    let found = code.diagnostic().unwrap();
    assert_eq!(found.reason, Reason::ExpectExpression);
    assert_eq!(found.token.kind, TokenKind::Eof);
    assert_eq!(found.token.line, 1);
    let mut machine = VM::new();
    let outcome = drive(&mut machine, &code);
    assert_eq!(outcome, Outcome::Rejected);
    assert_eq!(outcome.result(), InterpretResult::InterpretCompileError);
}

#[test]
fn subtraction_groups_to_the_left() {
    assert_eq!(number(evaluate("10 - 4 - 3")), 3.0);
    assert_eq!(number(evaluate("10 - (4 - 3)")), 9.0);
}

#[test]
fn division_groups_to_the_left() {
    assert_eq!(number(evaluate("8 / 4 / 2")), 1.0);
}

#[test]
fn unary_binds_tighter_than_binary() {
    assert_eq!(number(evaluate("-2 * 3")), -6.0);
    assert_eq!(number(evaluate("2 * -3")), -6.0);
    assert_eq!(number(evaluate("- 2 - 3")), -5.0);
    assert_eq!(number(evaluate("--2")), 2.0);
}

#[test]
fn division_by_zero_is_no_error() {
    assert_eq!(number(evaluate("1 / 0")), f64::INFINITY);
    assert_eq!(number(evaluate("-1 / 0")), f64::NEG_INFINITY);
    assert!(number(evaluate("0 / 0")).is_nan());
}

#[test]
fn fractions_are_numbers() {
    assert_eq!(number(evaluate("1.5 + 2.25")), 3.75);
    assert_eq!(number(evaluate("0.1 + 0.2")), 0.1 + 0.2);
}

#[test]
fn numbers_are_truthy() {
    assert_eq!(evaluate("!0"), Outcome::Returned(Value::Bool(false)));
    assert_eq!(evaluate("!!nil"), Outcome::Returned(Value::Bool(false)));
    assert_eq!(evaluate("!true"), Outcome::Returned(Value::Bool(false)));
}

#[test]
fn literals_are_values() {
    assert_eq!(evaluate("nil"), Outcome::Returned(Value::Nil));
    assert_eq!(evaluate("true"), Outcome::Returned(Value::Bool(true)));
    assert_eq!(evaluate("false"), Outcome::Returned(Value::Bool(false)));
}

#[test]
fn arithmetic_on_a_literal_fails_on_the_line_of_the_operator() {
    assert_eq!(
        evaluate("1\n+\ntrue"),
        Outcome::Failed(RuntimeError { kind: RuntimeErrorKind::OperandNotNumber, line: 2 })
    );
    assert_eq!(
        evaluate("nil * 2"),
        Outcome::Failed(RuntimeError { kind: RuntimeErrorKind::OperandNotNumber, line: 1 })
    );
}

#[test]
fn a_machine_runs_one_chunk_after_another() {
    let mut machine = VM::new();
    let first = compile("1 + 2".to_string());
    assert_eq!(number(drive(&mut machine, &first)), 3.0);
    assert!(machine.stack().is_empty());
    let second = compile("-true".to_string());
    assert_eq!(drive(&mut machine, &second).result(), InterpretResult::InterpretRuntimeError);
    assert!(machine.stack().is_empty());
    let third = compile("(".to_string());
    assert_eq!(drive(&mut machine, &third), Outcome::Rejected);
    let fourth = compile("2 * 3".to_string());
    assert_eq!(number(drive(&mut machine, &fourth)), 6.0);
    assert!(machine.stack().is_empty());
}
