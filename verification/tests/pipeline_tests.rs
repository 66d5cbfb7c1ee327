use lox::errors::{CompileError, CompileErrorType};
use lox::run;
use lox::value::Value;

#[test]
fn run_composes_the_three_stages() {
    assert_eq!(run("1 + 2 * 3").unwrap(), vec!["7"]);
    assert_eq!(run("\"a\"+\"b\"").unwrap(), vec!["ab"]);
    assert_eq!(run("").unwrap(), Vec::<String>::new());
    assert_eq!(run("1 2 3").unwrap(), vec!["1", "2", "3"]);
}

#[test]
fn run_stops_at_the_first_diagnostic() {
    // lexical: nothing after the bad character is scanned
    let e = run("1 ~ 2").err().unwrap();
    assert_eq!(
        e,
        CompileError {
            err: CompileErrorType::UnexpectedChar('~'),
            line: 1,
            text: None
        }
    );
    // syntactic: nothing is evaluated
    let e = run("(1").err().unwrap();
    assert!(matches!(e.err, CompileErrorType::InvalidSyntax));
    // runtime: the failing statement aborts the rest
    let e = run("1+1 1+nil 2+2").err().unwrap();
    assert!(matches!(e.err, CompileErrorType::EvaluationFailed(_)));
    assert_eq!(e.line, 1);
}

#[test]
fn diagnostics_render_uniformly() {
    let e = CompileError {
        err: CompileErrorType::UnexpectedChar('~'),
        line: 3,
        text: None,
    };
    assert_eq!(e.render(), "[line 3] Error: UnexpectedChar('~')");
    let e = CompileError {
        err: CompileErrorType::InvalidSyntax,
        line: 12,
        text: Some(String::from("Expect ')' after expression.")),
    };
    assert_eq!(
        e.render(),
        "[line 12] Error at 'Expect ')' after expression.': InvalidSyntax"
    );
    let e = CompileError {
        err: CompileErrorType::UnterminatedString,
        line: 2,
        text: None,
    };
    assert_eq!(e.render(), "[line 2] Error: UnterminatedString");
    let e = CompileError {
        err: CompileErrorType::EvaluationFailed(String::from("Unsupported types for +")),
        line: 1,
        text: None,
    };
    assert_eq!(
        e.render(),
        "[line 1] Error: EvaluationFailed(Unsupported types for +)"
    );
}

#[test]
fn values_render_like_their_sources() {
    assert_eq!(Value::Number(7).to_text(), "7");
    assert_eq!(Value::Number(-12345).to_text(), "-12345");
    assert_eq!(Value::Number(i64::MIN).to_text(), "-9223372036854775808");
    assert_eq!(Value::Bool(true).to_text(), "true");
    assert_eq!(Value::Bool(false).to_text(), "false");
    assert_eq!(Value::Nil.to_text(), "nil");
    assert_eq!(Value::Str(String::from("ab")).to_text(), "ab");
}
