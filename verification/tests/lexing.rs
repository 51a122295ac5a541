use apoloo::lexer::Lexer;
use apoloo::token::{Token, TokenKind};

fn all_tokens(source: &str) -> Vec<Token> {
    let mut lexer = Lexer::new(source);
    let mut found = Vec::new();
    loop {
        let token = lexer.scan_token();
        found.push(token);
        if token.kind == TokenKind::Eof {
            return found;
        }
    }
}

fn kinds(source: &str) -> Vec<TokenKind> {
    all_tokens(source).iter().map(|token| token.kind).collect()
}

fn lexemes(source: &str) -> Vec<String> {
    let lexer = Lexer::new(source);
    all_tokens(source).iter().map(|token| lexer.lexeme(token).iter().collect()).collect()
}

#[test]
fn an_empty_source_is_one_eof() {
    assert_eq!(
        all_tokens(""),
        vec![Token { kind: TokenKind::Eof, start: 0, length: 0, line: 1 }]
    );
}

#[test]
fn eof_comes_again_and_again() {
    let mut lexer = Lexer::new("1");
    assert_eq!(lexer.scan_token().kind, TokenKind::Number);
    let end = lexer.scan_token();
    assert_eq!(end, Token { kind: TokenKind::Eof, start: 1, length: 0, line: 1 });
    assert_eq!(lexer.scan_token(), end);
    assert_eq!(lexer.scan_token(), end);
}

#[test]
fn every_symbol_has_its_kind() {
    assert_eq!(
        kinds("( ) - + / * !"),
        vec![
            TokenKind::LeftParen,
            TokenKind::RightParen,
            TokenKind::Minus,
            TokenKind::Plus,
            TokenKind::Slash,
            TokenKind::Star,
            TokenKind::Bang,
            TokenKind::Eof
        ]
    );
}

#[test]
fn reserved_words_and_identifiers() {
    assert_eq!(
        kinds("true false nil truth nile True x1 a_b"),
        vec![
            TokenKind::True,
            TokenKind::False,
            TokenKind::Nil,
            TokenKind::Identifier,
            TokenKind::Identifier,
            TokenKind::Identifier,
            TokenKind::Identifier,
            TokenKind::Identifier,
            TokenKind::Eof
        ]
    );
    assert_eq!(
        lexemes("true false nil truth nile True x1 a_b"),
        vec!["true", "false", "nil", "truth", "nile", "True", "x1", "a_b", ""]
    );
}

#[test]
fn numbers_are_digits_with_an_optional_fraction() {
    assert_eq!(lexemes("12 3.25 007 0.5"), vec!["12", "3.25", "007", "0.5", ""]);
    assert_eq!(
        kinds("12 3.25 007 0.5"),
        vec![
            TokenKind::Number,
            TokenKind::Number,
            TokenKind::Number,
            TokenKind::Number,
            TokenKind::Eof
        ]
    );
}

#[test]
fn a_point_without_a_digit_behind_it_is_no_part_of_a_number() {
    assert_eq!(lexemes("1."), vec!["1", ".", ""]);
    assert_eq!(kinds("1."), vec![TokenKind::Number, TokenKind::Error, TokenKind::Eof]);
    assert_eq!(lexemes(".5"), vec![".", "5", ""]);
    assert_eq!(kinds(".5"), vec![TokenKind::Error, TokenKind::Number, TokenKind::Eof]);
    assert_eq!(lexemes("1.5.25"), vec!["1.5", ".", "25", ""]);
    assert_eq!(lexemes("1.x"), vec!["1", ".", "x", ""]);
}

#[test]
fn a_number_ends_where_a_word_begins() {
    assert_eq!(lexemes("1true"), vec!["1", "true", ""]);
    assert_eq!(kinds("1true"), vec![TokenKind::Number, TokenKind::True, TokenKind::Eof]);
    assert_eq!(lexemes("true1"), vec!["true1", ""]);
}

#[test]
fn an_unknown_character_is_an_error_of_one_character() {
    let found = all_tokens("1 @ 2");
    assert_eq!(found[1], Token { kind: TokenKind::Error, start: 2, length: 1, line: 1 });
    assert_eq!(found[2].kind, TokenKind::Number);
    assert_eq!(lexemes("1 @ 2"), vec!["1", "@", "2", ""]);
    assert_eq!(lexemes("é_"), vec!["é", "_", ""]);
    assert_eq!(kinds("é_"), vec![TokenKind::Error, TokenKind::Error, TokenKind::Eof]);
}

#[test]
fn positions_count_characters() {
    let found = all_tokens("é 12");
    assert_eq!(found[1], Token { kind: TokenKind::Number, start: 2, length: 2, line: 1 });
    assert_eq!(found[2], Token { kind: TokenKind::Eof, start: 4, length: 0, line: 1 });
}

#[test]
fn lines_are_counted_by_line_feeds() {
    let found = all_tokens("1\n+ 2\r\n\n\t*\x0C3\n");
    let lines: Vec<usize> = found.iter().map(|token| token.line).collect();
    assert_eq!(lines, vec![1, 2, 2, 4, 4, 5]);
    assert_eq!(found[5].kind, TokenKind::Eof);
    assert_eq!(found[5].start, 13);
}

#[test]
fn blanks_are_passed_over() {
    assert_eq!(kinds("  \t\r\n  "), vec![TokenKind::Eof]);
    assert_eq!(lexemes(" 1+2 "), vec!["1", "+", "2", ""]);
}

#[test]
fn lexing_twice_gives_the_same_tokens() {
    let source = "(1 + 2.5) * -x / !true\n @ nil";
    assert_eq!(all_tokens(source), all_tokens(source));
    assert_eq!(all_tokens(source).len(), 14);
}

#[test]
fn a_lexeme_beyond_the_source_is_empty() {
    let lexer = Lexer::new("12");
    let beyond = Token { kind: TokenKind::Number, start: 1, length: 5, line: 1 };
    assert!(lexer.lexeme(&beyond).is_empty());
    let huge = Token { kind: TokenKind::Number, start: usize::MAX, length: usize::MAX, line: 1 };
    assert!(lexer.lexeme(&huge).is_empty());
    let inside = Token { kind: TokenKind::Number, start: 1, length: 1, line: 1 };
    assert_eq!(lexer.lexeme(&inside), vec!['2']);
}
