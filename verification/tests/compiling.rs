use apoloo::bytecodes::Bytecodes;
use apoloo::compile;
use apoloo::compiler::Compiler;
use apoloo::debug::{disassemble, disassemble_instruction, Row};
use apoloo::diagnostic::{Diagnostic, Reason};
use apoloo::opcode::OpCode;
use apoloo::parser::Parser;
use apoloo::parser_rules::{get_rule, ParseFn, ParseRule, Precedence};
use apoloo::token::{Token, TokenKind};

fn code_of(chunk: &Bytecodes) -> Vec<u8> {
    (0..chunk.len()).map(|ip| chunk.read_byte(ip).unwrap()).collect()
}

fn lines_of(chunk: &Bytecodes) -> Vec<usize> {
    (0..chunk.len()).map(|ip| chunk.read_line(ip).unwrap()).collect()
}

fn constants_of(chunk: &Bytecodes) -> Vec<String> {
    (0..chunk.constants_len())
        .map(|index| chunk.read_constant(index).unwrap().iter().collect())
        .collect()
}

fn refusal_of(source: &str) -> Diagnostic {
    let chunk = compile(source.to_string());
    assert!(!chunk.is_valid());
    chunk.diagnostic().unwrap().clone()
}

#[test]
fn a_sum_is_written_operands_first() {
    let chunk = compile("1 + 2".to_string());
    assert!(chunk.is_valid());
    assert!(chunk.diagnostic().is_none());
    assert_eq!(code_of(&chunk), vec![1, 0, 1, 1, 3, 0]);
    assert_eq!(constants_of(&chunk), vec!["1", "2"]);
    assert_eq!(lines_of(&chunk), vec![1, 1, 1, 1, 1, 1]);
}

#[test]
fn a_product_is_written_before_the_sum_it_stands_in() {
    let chunk = compile("1 + 2 * 3".to_string());
    assert_eq!(code_of(&chunk), vec![1, 0, 1, 1, 1, 2, 5, 3, 0]);
    let chunk = compile("1 * 2 + 3".to_string());
    assert_eq!(code_of(&chunk), vec![1, 0, 1, 1, 5, 1, 2, 3, 0]);
    let chunk = compile("(1 + 2) * 3".to_string());
    assert_eq!(code_of(&chunk), vec![1, 0, 1, 1, 3, 1, 2, 5, 0]);
}

#[test]
fn equal_operators_are_written_from_the_left() {
    let chunk = compile("1 - 2 - 3".to_string());
    assert_eq!(code_of(&chunk), vec![1, 0, 1, 1, 4, 1, 2, 4, 0]);
    let chunk = compile("1 / 2 * 3".to_string());
    assert_eq!(code_of(&chunk), vec![1, 0, 1, 1, 6, 1, 2, 5, 0]);
}

#[test]
fn unary_operators_are_written_behind_their_operand() {
    let chunk = compile("-1 - -2".to_string());
    assert_eq!(code_of(&chunk), vec![1, 0, 2, 1, 1, 2, 4, 0]);
    let chunk = compile("!!nil".to_string());
    assert_eq!(code_of(&chunk), vec![7, 10, 10, 0]);
    let chunk = compile("-(1 + 2)".to_string());
    assert_eq!(code_of(&chunk), vec![1, 0, 1, 1, 3, 2, 0]);
}

#[test]
fn literals_have_their_instructions() {
    assert_eq!(code_of(&compile("true".to_string())), vec![8, 0]);
    assert_eq!(code_of(&compile("false".to_string())), vec![9, 0]);
    assert_eq!(code_of(&compile("nil".to_string())), vec![7, 0]);
}

#[test]
fn constants_keep_their_text_and_their_order() {
    let chunk = compile("1.50 + 007 * (3 - 1.50)".to_string());
    assert_eq!(constants_of(&chunk), vec!["1.50", "007", "3", "1.50"]);
    assert_eq!(code_of(&chunk), vec![1, 0, 1, 1, 1, 2, 1, 3, 4, 5, 3, 0]);
}

#[test]
fn every_byte_has_the_line_of_its_token() {
    let chunk = compile("1\n+\n2\n*\n-\n3\n".to_string());
    assert_eq!(code_of(&chunk), vec![1, 0, 1, 1, 1, 2, 2, 5, 3, 0]);
    assert_eq!(lines_of(&chunk), vec![1, 1, 3, 3, 6, 6, 5, 4, 2, 7]);
}

#[test]
fn an_empty_source_expects_an_expression() {
    let found = refusal_of("");
    assert_eq!(found.reason, Reason::ExpectExpression);
    assert_eq!(found.token, Token { kind: TokenKind::Eof, start: 0, length: 0, line: 1 });
    assert_eq!(found.lexeme, Vec::<char>::new());
    assert_eq!(found.reason.message(), "Expect expression.");
}

#[test]
fn an_operator_without_a_right_operand_expects_an_expression() {
    let chunk = compile("1 +".to_string());
    assert!(!chunk.is_valid());
    assert_eq!(chunk.diagnostic().unwrap().reason, Reason::ExpectExpression);
    assert_eq!(code_of(&chunk), vec![1, 0]);
    assert_eq!(constants_of(&chunk), vec!["1"]);
    let found = refusal_of("1 + * 2");
    assert_eq!(found.reason, Reason::ExpectExpression);
    assert_eq!(found.lexeme, vec!['*']);
    assert_eq!(found.token.start, 4);
}

#[test]
fn an_open_group_expects_its_end() {
    let chunk = compile("(1 + 2".to_string());
    let found = chunk.diagnostic().unwrap();
    assert_eq!(found.reason, Reason::ExpectRightParen);
    assert_eq!(found.token.kind, TokenKind::Eof);
    assert_eq!(found.reason.message(), "Expect ')' after expression.");
    assert_eq!(code_of(&chunk), vec![1, 0, 1, 1, 3]);
    let found = refusal_of("(1 2)");
    assert_eq!(found.reason, Reason::ExpectRightParen);
    assert_eq!(found.lexeme, vec!['2']);
}

#[test]
fn what_follows_the_expression_is_refused() {
    let chunk = compile("1 2".to_string());
    let found = chunk.diagnostic().unwrap();
    assert_eq!(found.reason, Reason::ExpectEnd);
    assert_eq!(found.lexeme, vec!['2']);
    assert_eq!(found.reason.message(), "Expect end of expression.");
    assert_eq!(code_of(&chunk), vec![1, 0]);
    assert_eq!(refusal_of("1 )").reason, Reason::ExpectEnd);
    assert_eq!(refusal_of("1 + 2 x").reason, Reason::ExpectEnd);
    assert_eq!(refusal_of("1 + 2 x").token.kind, TokenKind::Identifier);
}

#[test]
fn an_unknown_character_is_refused_as_such() {
    let found = refusal_of("1 + @");
    assert_eq!(found.reason, Reason::UnexpectedCharacter);
    assert_eq!(found.lexeme, vec!['@']);
    assert_eq!(found.token.kind, TokenKind::Error);
    assert_eq!(found.reason.message(), "Unexpected character.");
    assert_eq!(refusal_of("1 @").reason, Reason::UnexpectedCharacter);
    assert_eq!(refusal_of("(1 @").reason, Reason::UnexpectedCharacter);
    assert_eq!(refusal_of("1.").reason, Reason::UnexpectedCharacter);
    let found = refusal_of("\n\n #");
    assert_eq!(found.token.line, 3);
}

#[test]
fn only_the_first_error_is_told() {
    let found = refusal_of("(1 + ) @ 2 (");
    assert_eq!(found.reason, Reason::ExpectExpression);
    assert_eq!(found.lexeme, vec![')']);
}

#[test]
fn a_chunk_takes_256_constants_and_no_more() {
    let mut source = String::from("0");
    for i in 1..256 {
        source.push_str(" + ");
        source.push_str(&i.to_string());
    }
    let chunk = compile(source.clone());
    assert!(chunk.is_valid());
    assert_eq!(chunk.constants_len(), 256);
    assert_eq!(chunk.read_byte(chunk.len() - 3), Some(255));
    assert_eq!(constants_of(&chunk)[255], "255");
    source.push_str(" + 256");
    let chunk = compile(source);
    let found = chunk.diagnostic().unwrap();
    assert_eq!(found.reason, Reason::TooManyConstants);
    assert_eq!(found.lexeme, vec!['2', '5', '6']);
    assert_eq!(found.reason.message(), "Too many constants in one chunk.");
    assert_eq!(chunk.constants_len(), 256);
}

#[test]
fn the_compiler_is_the_same_as_compile() {
    let source = "(1 + 2) * -3 / !x";
    let first = Compiler::new(source.to_string()).compile();
    let second = compile(source.to_string());
    assert_eq!(first, second);
}

#[test]
fn the_parser_can_be_driven_by_hand() {
    let mut parser = Parser::new("1 * 2 + 3");
    assert!(parser.parse_precedence(Precedence::Factor));
    assert!(!parser.had_error());
    assert!(parser.consume(TokenKind::Plus, Reason::ExpectEnd));
    assert!(parser.expression());
    assert!(!parser.consume(TokenKind::RightParen, Reason::ExpectRightParen));
    assert!(parser.had_error());
    let chunk = parser.finish();
    assert_eq!(code_of(&chunk), vec![1, 0, 1, 1, 5, 1, 2]);
    assert_eq!(chunk.diagnostic().unwrap().reason, Reason::ExpectRightParen);

    let mut parser = Parser::new("true");
    assert!(parser.program());
    let mut parser = Parser::new("true false");
    parser.advance();
    assert!(parser.program());
    assert_eq!(code_of(&parser.finish()), vec![9, 0]);
}

#[test]
fn after_an_error_the_rest_of_the_source_is_dropped() {
    let mut parser = Parser::new("1 + * 2 3 4");
    assert!(!parser.program());
    assert!(parser.had_error());
    assert!(parser.consume(TokenKind::Eof, Reason::ExpectEnd));
    let chunk = parser.finish();
    assert_eq!(chunk.diagnostic().unwrap().reason, Reason::ExpectExpression);
    assert_eq!(code_of(&chunk), vec![1, 0]);

    let mut parser = Parser::new("1 2 3");
    parser.synchronize();
    assert!(!parser.had_error());
    assert!(!parser.program());
    assert_eq!(parser.finish().diagnostic().unwrap().token.kind, TokenKind::Eof);
}

#[test]
fn the_table_of_rules() {
    let absent = ParseRule {
        prefix: ParseFn::Absent,
        infix: ParseFn::Absent,
        precedence: Precedence::Lowest,
    };
    assert_eq!(
        get_rule(TokenKind::LeftParen),
        ParseRule { prefix: ParseFn::Grouping, ..absent }
    );
    assert_eq!(
        get_rule(TokenKind::Minus),
        ParseRule {
            prefix: ParseFn::Unary,
            infix: ParseFn::Binary,
            precedence: Precedence::Term
        }
    );
    assert_eq!(
        get_rule(TokenKind::Plus),
        ParseRule { infix: ParseFn::Binary, precedence: Precedence::Term, ..absent }
    );
    assert_eq!(
        get_rule(TokenKind::Star),
        ParseRule { infix: ParseFn::Binary, precedence: Precedence::Factor, ..absent }
    );
    assert_eq!(
        get_rule(TokenKind::Slash),
        ParseRule { infix: ParseFn::Binary, precedence: Precedence::Factor, ..absent }
    );
    assert_eq!(get_rule(TokenKind::Bang), ParseRule { prefix: ParseFn::Unary, ..absent });
    assert_eq!(get_rule(TokenKind::Number), ParseRule { prefix: ParseFn::Number, ..absent });
    assert_eq!(get_rule(TokenKind::True), ParseRule { prefix: ParseFn::Literal, ..absent });
    assert_eq!(get_rule(TokenKind::False), ParseRule { prefix: ParseFn::Literal, ..absent });
    assert_eq!(get_rule(TokenKind::Nil), ParseRule { prefix: ParseFn::Literal, ..absent });
    assert_eq!(get_rule(TokenKind::RightParen), absent);
    assert_eq!(get_rule(TokenKind::Identifier), absent);
    assert_eq!(get_rule(TokenKind::Error), absent);
    assert_eq!(get_rule(TokenKind::Eof), absent);
}

#[test]
fn the_levels_of_precedence_are_in_order() {
    let levels = [
        Precedence::Lowest,
        Precedence::Assignment,
        Precedence::Or,
        Precedence::And,
        Precedence::Equality,
        Precedence::Comparison,
        Precedence::Term,
        Precedence::Factor,
        Precedence::Unary,
        Precedence::Call,
        Precedence::Primary,
    ];
    for (rank, level) in levels.iter().enumerate() {
        assert_eq!(level.level() as usize, rank);
        if rank + 1 < levels.len() {
            assert_eq!(level.next(), levels[rank + 1]);
        }
    }
    assert_eq!(Precedence::Primary.next(), Precedence::Primary);
}

#[test]
fn bytes_and_instructions() {
    let ops = [
        OpCode::OpReturn,
        OpCode::OpConstant,
        OpCode::OpNegate,
        OpCode::OpAdd,
        OpCode::OpSubtract,
        OpCode::OpMultiple,
        OpCode::OpDivide,
        OpCode::OpNil,
        OpCode::OpTrue,
        OpCode::OpFalse,
        OpCode::OpNot,
    ];
    for (byte, op) in ops.iter().enumerate() {
        assert_eq!(OpCode::from(byte as u8), *op);
        assert_eq!(u8::from(*op), byte as u8);
    }
    for byte in 11..=255u8 {
        assert_eq!(OpCode::from(byte), OpCode::OpUnKnown);
    }
    assert_eq!(u8::from(OpCode::OpUnKnown), 99);
}

#[test]
fn a_chunk_is_written_and_read() {
    let mut chunk = Bytecodes::new();
    assert!(chunk.is_valid());
    assert_eq!(chunk.len(), 0);
    assert_eq!(chunk.read_byte(0), None);
    assert_eq!(chunk.read_line(0), None);
    assert_eq!(chunk.read_constant(0), None);
    assert_eq!(chunk.write_constant(vec!['1', '2']), 0);
    assert_eq!(chunk.write_constant(vec!['7']), 1);
    chunk.write_byte(1, 3);
    chunk.write_byte(1, 4);
    assert_eq!(chunk.len(), 2);
    assert_eq!(chunk.constants_len(), 2);
    assert_eq!(chunk.read_byte(1), Some(1));
    assert_eq!(chunk.read_byte(2), None);
    assert_eq!(chunk.read_line(0), Some(3));
    assert_eq!(chunk.read_line(1), Some(4));
    assert_eq!(chunk.read_line(2), None);
    assert_eq!(chunk.read_constant(0), Some(&vec!['1', '2']));
    assert_eq!(chunk.read_constant(1), Some(&vec!['7']));
    assert_eq!(chunk.read_constant(2), None);
    let told = Diagnostic {
        token: Token { kind: TokenKind::Eof, start: 0, length: 0, line: 1 },
        lexeme: Vec::new(),
        reason: Reason::ExpectExpression,
    };
    chunk.mark_invalid(told.clone());
    assert!(!chunk.is_valid());
    assert_eq!(chunk.diagnostic(), Some(&told));
    assert_eq!(chunk.len(), 2);
}

#[test]
fn a_listing_has_a_row_for_each_instruction() {
    let chunk = compile("1 +\n2".to_string());
    let rows = disassemble(&chunk);
    assert_eq!(
        rows,
        vec![
            Row {
                offset: 0,
                line: 1,
                same_line: false,
                byte: 1,
                op: OpCode::OpConstant,
                operand: Some(0)
            },
            Row {
                offset: 2,
                line: 2,
                same_line: false,
                byte: 1,
                op: OpCode::OpConstant,
                operand: Some(1)
            },
            Row { offset: 4, line: 1, same_line: false, byte: 3, op: OpCode::OpAdd, operand: None },
            Row {
                offset: 5,
                line: 2,
                same_line: false,
                byte: 0,
                op: OpCode::OpReturn,
                operand: None
            },
        ]
    );
    let chunk = compile("!true".to_string());
    let rows = disassemble(&chunk);
    assert_eq!(rows.len(), 3);
    assert!(!rows[0].same_line);
    assert!(rows[1].same_line);
    assert!(rows[2].same_line);
    assert_eq!(
        disassemble_instruction(&chunk, 1),
        Some((
            Row { offset: 1, line: 1, same_line: true, byte: 10, op: OpCode::OpNot, operand: None },
            2
        ))
    );
    assert_eq!(disassemble_instruction(&chunk, 3), None);
}

#[test]
fn a_listing_shows_what_is_no_instruction() {
    let mut chunk = Bytecodes::new();
    chunk.write_byte(200, 1);
    chunk.write_byte(99, 1);
    chunk.write_byte(1, 2);
    let rows = disassemble(&chunk);
    assert_eq!(rows.len(), 3);
    assert_eq!((rows[0].op, rows[0].byte), (OpCode::OpUnKnown, 200));
    assert_eq!((rows[1].op, rows[1].byte), (OpCode::OpUnKnown, 99));
    assert_eq!((rows[2].op, rows[2].operand), (OpCode::OpConstant, None));
    assert!(disassemble(&Bytecodes::new()).is_empty());
}

#[test]
fn a_listing_leaves_the_chunk_as_it_was() {
    let chunk = compile("(1 + 2) * 3 - ".to_string());
    let before = chunk.clone();
    let first = disassemble(&chunk);
    let second = disassemble(&chunk);
    assert_eq!(chunk, before);
    assert_eq!(first, second);
}
