use lox::errors::CompileErrorType;
use lox::interpreter::Interpreter;
use lox::parser::{Parser, Stmt};
use lox::scanner::Scanner;
use lox::value::Value;

fn eval_one(src: &str) -> Result<Value, lox::errors::CompileError> {
    let mut s = Scanner::new(src);
    let tokens = s.scan_tokens().unwrap();
    let mut p = Parser::new(&tokens);
    let stmts = p.parse().unwrap();
    let Stmt::Expression(e) = &stmts[0];
    let mut interpreter = Interpreter::new();
    interpreter.evaluate(e)
}

fn eval_msg(src: &str) -> String {
    match eval_one(src).err().unwrap().err {
        CompileErrorType::EvaluationFailed(m) => m,
        other => panic!("wrong kind: {:?}", other),
    }
}

#[test]
fn arithmetic_and_concatenation() {
    assert_eq!(eval_one("1 + 2 * 3").unwrap(), Value::Number(7));
    assert_eq!(eval_one("\"a\" + \"b\"").unwrap(), Value::Str(String::from("ab")));
    assert_eq!(eval_msg("1 + \"a\""), "Unsupported types for +");
}

#[test]
fn equality_is_type_strict() {
    assert_eq!(eval_one("0 == false").unwrap(), Value::Bool(false));
    assert_eq!(eval_one("nil == nil").unwrap(), Value::Bool(true));
    assert_eq!(Value::Number(0) == Value::Bool(false), false);
    assert_eq!(Value::Nil == Value::Nil, true);
    assert_eq!(Value::Str(String::from("1")) == Value::Number(1), false);
    assert_eq!(eval_one("1 != \"1\"").unwrap(), Value::Bool(true));
}

#[test]
fn truthiness() {
    assert_eq!(eval_one("!nil").unwrap(), Value::Bool(true));
    assert_eq!(eval_one("!0").unwrap(), Value::Bool(false));
    assert_eq!(eval_one("!\"\"").unwrap(), Value::Bool(false));
    assert_eq!(eval_one("!false").unwrap(), Value::Bool(true));
    assert!(Value::Number(0).is_truthy());
    assert!(Value::Str(String::new()).is_truthy());
    assert!(!Value::Nil.is_truthy());
    assert!(!Value::Bool(false).is_truthy());
}

#[test]
fn comparisons_need_numbers() {
    assert_eq!(eval_one("1 < 2").unwrap(), Value::Bool(true));
    assert_eq!(eval_one("2 <= 2").unwrap(), Value::Bool(true));
    assert_eq!(eval_one("1 > 2").unwrap(), Value::Bool(false));
    assert_eq!(eval_one("2 >= 3").unwrap(), Value::Bool(false));
    assert_eq!(eval_msg("\"a\" < \"b\""), "Unsupported types for <");
    assert_eq!(eval_msg("1 - \"a\""), "Unsupported types for -");
    assert_eq!(eval_msg("nil * 2"), "Unsupported types for *");
}

#[test]
fn unary_minus_needs_a_number() {
    assert_eq!(eval_one("-5").unwrap(), Value::Number(-5));
    assert_eq!(eval_one("--5").unwrap(), Value::Number(5));
    assert_eq!(eval_msg("-\"a\""), "Unsupported types for unary -");
}

#[test]
fn division_is_exact_or_fails() {
    assert_eq!(eval_one("23232 / 2").unwrap(), Value::Number(11616));
    assert_eq!(eval_one("0 - 6 / 3").unwrap(), Value::Number(-2));
    assert_eq!(eval_msg("7 / 2"), "Division is not exact");
    assert_eq!(eval_msg("1 / 0"), "Division by zero");
}

#[test]
fn numbers_are_exact_sixty_four_bit() {
    assert_eq!(
        eval_one("9223372036854775807 + 0").unwrap(),
        Value::Number(i64::MAX)
    );
    assert_eq!(eval_msg("9223372036854775807 + 1"), "Number out of range for +");
    assert_eq!(
        eval_msg("9223372036854775808"),
        "Number literal is not representable"
    );
    // an integral fraction still names an exact number
    assert_eq!(eval_one("2.00 + 1").unwrap(), Value::Number(3));
    assert_eq!(eval_msg("2.5 + 1"), "Number literal is not representable");
}

#[test]
fn errors_carry_the_operator_line() {
    let e = eval_one("\n\n1 + \"a\"").err().unwrap();
    assert_eq!(e.line, 3);
    assert!(matches!(e.err, CompileErrorType::EvaluationFailed(_)));
}

#[test]
fn exec_collects_one_line_per_statement() {
    let mut s = Scanner::new("1+2*3 \"a\"+\"b\" !nil 0-5");
    let tokens = s.scan_tokens().unwrap();
    let mut p = Parser::new(&tokens);
    let stmts = p.parse().unwrap();
    let mut interpreter = Interpreter::new();
    let outs = interpreter.exec(stmts.as_slice()).unwrap();
    assert_eq!(outs, vec!["7", "ab", "true", "-5"]);
}
