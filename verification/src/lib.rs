//! A small expression language front end: a lexical scanner, a
//! recursive-descent parser and a tree-walking evaluator, each verified
//! against a functional model of its behaviour.
use vstd::prelude::*;

pub mod tokens;
pub mod errors;
pub mod text;
pub mod numerals;
pub mod scanner;
pub mod ast;
pub mod parser;
pub mod value;
pub mod interpreter;
pub mod astprinter;

use crate::errors::{CompileError, CompileErrorModel};
use crate::interpreter::{exec_from, texts_view, Interpreter};
use crate::parser::{parse_all, Parser, StmtModel};
use crate::scanner::{scan_spec, Scanner};
use crate::tokens::tokens_view;

verus! {

/// The model of a whole run: scan, then parse, then evaluate, each stage
/// aborted by the first diagnostic of the stage before it.
pub open spec fn run_spec(source: Seq<char>) -> Result<Seq<Seq<char>>, CompileErrorModel> {
    match scan_spec(source) {
        Err(e) => Err(e),
        Ok(toks) => match parse_all(toks, 0) {
            Err(e) => Err(e),
            Ok(stmts) => exec_from(stmts, 0),
        },
    }
}

/// Runs a source text through the scanner, the parser and the
/// interpreter in order, returning the lines the statements print, or
/// the first diagnostic raised. The source must leave room for the
/// scanner's line counter, which the machine keeps in a word.
pub fn run(source: &str) -> (r: Result<Vec<String>, CompileError>)
    requires
        source@.len() < usize::MAX,
    ensures
        match r {
            Ok(outs) => run_spec(source@) == Ok::<Seq<Seq<char>>, CompileErrorModel>(
                texts_view(outs@),
            ),
            Err(e) => run_spec(source@) == Err::<Seq<Seq<char>>, CompileErrorModel>(e@),
        },
{
    let mut s = Scanner::new(source);
    let tokens = match s.scan_tokens() {
        Ok(t) => t,
        Err(e) => {
            return Err(e);
        },
    };
    proof {
        assert(tokens_view(tokens@)[tokens@.len() - 1] == tokens@[tokens@.len() - 1]@);
    }
    let mut p = Parser::new(&tokens);
    let stmts = match p.parse() {
        Ok(st) => st,
        Err(e) => {
            return Err(e);
        },
    };
    let mut interpreter = Interpreter::new();
    match interpreter.exec(stmts.as_slice()) {
        Ok(outs) => Ok(outs),
        Err(e) => Err(e),
    }
}

} // verus!
