//! Diagnostics: the uniform error value every stage of the pipeline can
//! fail with, carrying a kind, a 1-based source line and optional context.
use vstd::prelude::*;

use crate::text::{dec_digits, push_char, usize_to_dec};

verus! {

/// The kind of a diagnostic: lexical (`UnexpectedChar`,
/// `UnterminatedString`), syntactic (`InvalidSyntax`) or runtime
/// (`EvaluationFailed`, carrying a short message naming the operation).
#[derive(Debug)]
pub enum CompileErrorType {
    UnexpectedChar(char),
    UnterminatedString,
    InvalidSyntax,
    EvaluationFailed(String),
}

/// The mathematical model of a `CompileErrorType`.
#[verifier::ext_equal]
pub enum CompileErrorTypeModel {
    UnexpectedChar(char),
    UnterminatedString,
    InvalidSyntax,
    EvaluationFailed(Seq<char>),
}

impl View for CompileErrorType {
    type V = CompileErrorTypeModel;

    open spec fn view(&self) -> CompileErrorTypeModel {
        match self {
            CompileErrorType::UnexpectedChar(c) => CompileErrorTypeModel::UnexpectedChar(*c),
            CompileErrorType::UnterminatedString => CompileErrorTypeModel::UnterminatedString,
            CompileErrorType::InvalidSyntax => CompileErrorTypeModel::InvalidSyntax,
            CompileErrorType::EvaluationFailed(s) => CompileErrorTypeModel::EvaluationFailed(s@),
        }
    }
}

impl PartialEq for CompileErrorType {
    fn eq(&self, other: &CompileErrorType) -> (r: bool) {
        match (self, other) {
            (CompileErrorType::UnexpectedChar(a), CompileErrorType::UnexpectedChar(b)) => a == b,
            (CompileErrorType::UnterminatedString, CompileErrorType::UnterminatedString) => true,
            (CompileErrorType::InvalidSyntax, CompileErrorType::InvalidSyntax) => true,
            (CompileErrorType::EvaluationFailed(a), CompileErrorType::EvaluationFailed(b)) => *a
                == *b,
            _ => false,
        }
    }
}

/// Whether two diagnostic kinds agree: same variant and equal payload.
pub open spec fn error_kinds_agree(a: &CompileErrorType, b: &CompileErrorType) -> bool {
    match (a, b) {
        (CompileErrorType::UnexpectedChar(x), CompileErrorType::UnexpectedChar(y)) => x == y,
        (CompileErrorType::UnterminatedString, CompileErrorType::UnterminatedString) => true,
        (CompileErrorType::InvalidSyntax, CompileErrorType::InvalidSyntax) => true,
        (CompileErrorType::EvaluationFailed(x), CompileErrorType::EvaluationFailed(y)) => x@
            == y@,
        _ => false,
    }
}

impl vstd::std_specs::cmp::PartialEqSpecImpl for CompileErrorType {
    open spec fn obeys_eq_spec() -> bool {
        true
    }

    open spec fn eq_spec(&self, other: &CompileErrorType) -> bool {
        error_kinds_agree(self, other)
    }
}

/// A diagnostic: its kind, the source line it arose on and optional
/// free-text context (a human-readable message).
#[derive(Debug)]
pub struct CompileError {
    pub err: CompileErrorType,
    pub line: usize,
    pub text: Option<String>,
}

/// The mathematical model of a `CompileError`.
#[verifier::ext_equal]
pub struct CompileErrorModel {
    pub err: CompileErrorTypeModel,
    pub line: int,
    pub text: Option<Seq<char>>,
}

impl View for CompileError {
    type V = CompileErrorModel;

    open spec fn view(&self) -> CompileErrorModel {
        CompileErrorModel {
            err: self.err@,
            line: self.line as int,
            text: match self.text {
                Some(t) => Some(t@),
                None => None,
            },
        }
    }
}

impl PartialEq for CompileError {
    fn eq(&self, other: &CompileError) -> (r: bool) {
        let kinds_equal = self.err == other.err;
        let texts_equal = match (&self.text, &other.text) {
            (Option::Some(a), Option::Some(b)) => *a == *b,
            (Option::None, Option::None) => true,
            _ => false,
        };
        kinds_equal && self.line == other.line && texts_equal
    }
}

impl vstd::std_specs::cmp::PartialEqSpecImpl for CompileError {
    open spec fn obeys_eq_spec() -> bool {
        true
    }

    open spec fn eq_spec(&self, other: &CompileError) -> bool {
        &&& error_kinds_agree(&self.err, &other.err)
        &&& self.line == other.line
        &&& match (self.text, other.text) {
            (Option::Some(a), Option::Some(b)) => a@ == b@,
            (Option::None, Option::None) => true,
            _ => false,
        }
    }
}

/// The display text of a diagnostic kind.
pub open spec fn kind_text(k: CompileErrorTypeModel) -> Seq<char> {
    match k {
        CompileErrorTypeModel::UnexpectedChar(c) => "UnexpectedChar('"@ + seq![c] + "')"@,
        CompileErrorTypeModel::UnterminatedString => "UnterminatedString"@,
        CompileErrorTypeModel::InvalidSyntax => "InvalidSyntax"@,
        CompileErrorTypeModel::EvaluationFailed(m) => "EvaluationFailed("@ + m + ")"@,
    }
}

/// The uniform display text of a diagnostic:
/// `[line L] Error[ at 'context']: <kind>`.
pub open spec fn error_text(e: CompileErrorModel) -> Seq<char> {
    "[line "@ + dec_digits(e.line) + "] Error"@ + (match e.text {
        Some(t) => " at '"@ + t + "'"@,
        None => Seq::<char>::empty(),
    }) + ": "@ + kind_text(e.err)
}

impl CompileError {
    /// Renders the diagnostic in its uniform display form.
    pub fn render(&self) -> (r: String)
        ensures
            r@ == error_text(self@),
    {
        let mut out = String::from_str("[line ");
        let line_text = usize_to_dec(self.line);
        out.append(line_text.as_str());
        out.append("] Error");
        match &self.text {
            Some(t) => {
                out.append(" at '");
                out.append(t.as_str());
                out.append("'");
            },
            None => {
            },
        }
        out.append(": ");
        match &self.err {
            CompileErrorType::UnexpectedChar(c) => {
                out.append("UnexpectedChar('");
                push_char(&mut out, *c);
                out.append("')");
            },
            CompileErrorType::UnterminatedString => {
                out.append("UnterminatedString");
            },
            CompileErrorType::InvalidSyntax => {
                out.append("InvalidSyntax");
            },
            CompileErrorType::EvaluationFailed(m) => {
                out.append("EvaluationFailed(");
                out.append(m.as_str());
                out.append(")");
            },
        }
        proof {
            assert(out@ =~= error_text(self@));
        }
        out
    }
}

} // verus!
