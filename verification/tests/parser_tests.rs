use lox::astprinter;
use lox::ast::Expr;
use lox::errors::CompileErrorType;
use lox::parser::{Parser, Stmt};
use lox::scanner::Scanner;
use lox::tokens::{Literal, Token, TokenType};

fn test_valid_expr(expr: &str) {
    let mut s = Scanner::new(expr);
    let tokens = s.scan_tokens().unwrap();
    let mut p = Parser::new(&tokens);
    let stmts = p.parse();
    let s = &stmts.unwrap()[0];
    match s {
        Stmt::Expression(e) => {
            assert_eq!(astprinter::dump_ast(e), expr);
        }
    }
}

#[test]
fn parser_basic() {
    test_valid_expr("1+(3*2+-10)");
    test_valid_expr("2123-23232/2");
    test_valid_expr("(-1)+(!5)");
    test_valid_expr("false+true");
}

#[test]
fn astprinter_basic() {
    let e = Expr::Unary(
        Token {
            ttype: TokenType::Bang,
            lexeme: String::from("!"),
            literal: None,
            line: 1,
        },
        Box::new(Expr::Literal(Token {
            ttype: TokenType::Number,
            literal: Some(Literal::Number(String::from("0."))),
            lexeme: String::from("0."),
            line: 1,
        })),
    );
    let s = astprinter::dump_ast(&e);
    assert_eq!(s, "!0");
}

#[test]
fn printer_canonicalizes_numbers() {
    let cases = [
        ("007", "7"),
        ("0.", "0"),
        ("1.50", "1.5"),
        ("0.0", "0"),
        ("123450.6789", "123450.6789"),
        ("000.250", "0.25"),
    ];
    for (digits, expected) in cases {
        let e = Expr::Literal(Token {
            ttype: TokenType::Number,
            lexeme: String::from(digits),
            literal: Some(Literal::Number(String::from(digits))),
            line: 1,
        });
        assert_eq!(astprinter::dump_ast(&e), expected);
    }
}

#[test]
fn missing_close_paren_is_invalid_syntax() {
    let mut s = Scanner::new("(1+2");
    let tokens = s.scan_tokens().unwrap();
    let mut p = Parser::new(&tokens);
    let e = p.parse().err().unwrap();
    assert!(matches!(e.err, CompileErrorType::InvalidSyntax));
    assert_eq!(e.text.as_deref(), Some("Expect ')' after expression."));
    assert_eq!(e.line, 1);
}

#[test]
fn stray_operator_is_invalid_syntax() {
    let mut s = Scanner::new("1+*2");
    let tokens = s.scan_tokens().unwrap();
    let mut p = Parser::new(&tokens);
    let e = p.parse().err().unwrap();
    assert!(matches!(e.err, CompileErrorType::InvalidSyntax));
    assert_eq!(e.text.as_deref(), Some("Unexpected expression"));
}

#[test]
fn binary_levels_are_left_associative() {
    // 1-2-3 parses as (1-2)-3, and factors bind tighter than terms
    let mut s = Scanner::new("1-2-3");
    let tokens = s.scan_tokens().unwrap();
    let mut p = Parser::new(&tokens);
    let stmts = p.parse().unwrap();
    let Stmt::Expression(e) = &stmts[0];
    match &**e {
        Expr::Binary(l, op, _r) => {
            assert_eq!(op.lexeme, "-");
            assert!(matches!(&**l, Expr::Binary(_, _, _)));
        }
        other => panic!("wrong shape: {:?}", other),
    }
    let mut s2 = Scanner::new("1+2*3");
    let tokens2 = s2.scan_tokens().unwrap();
    let mut p2 = Parser::new(&tokens2);
    let stmts2 = p2.parse().unwrap();
    let Stmt::Expression(e2) = &stmts2[0];
    match &**e2 {
        Expr::Binary(l, op, r) => {
            assert_eq!(op.lexeme, "+");
            assert!(matches!(&**l, Expr::Literal(_)));
            assert!(matches!(&**r, Expr::Binary(_, _, _)));
        }
        other => panic!("wrong shape: {:?}", other),
    }
}

#[test]
fn one_statement_per_expression() {
    let mut s = Scanner::new("1+2 3*4");
    let tokens = s.scan_tokens().unwrap();
    let mut p = Parser::new(&tokens);
    let stmts = p.parse().unwrap();
    assert_eq!(stmts.len(), 2);
}
