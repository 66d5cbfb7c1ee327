//! The recursive-descent parser: consumes the token sequence and builds
//! one expression statement per top-level expression, with an explicit
//! operator-precedence grammar (equality, comparison, term, factor, unary,
//! primary; each binary level left-associative). The executable parser is
//! proved to return exactly what the recursive model [`parse_all`]
//! describes.
use vstd::prelude::*;

use crate::ast::{Expr, ExprModel};
use crate::errors::{CompileError, CompileErrorModel, CompileErrorType, CompileErrorTypeModel};
use crate::tokens::{copy_tokens, tokens_view, Token, TokenModel, TokenType};

verus! {

/// A statement; the language's only statement form is a top-level
/// expression.
#[derive(Debug)]
pub enum Stmt {
    Expression(Box<Expr>),
}

/// The mathematical model of a statement.
#[verifier::ext_equal]
pub enum StmtModel {
    Expression(ExprModel),
}

impl View for Stmt {
    type V = StmtModel;

    open spec fn view(&self) -> StmtModel {
        match self {
            Stmt::Expression(e) => StmtModel::Expression((**e)@),
        }
    }
}

impl Stmt {
    /// An explicit deep copy; the model of the copy equals the original's.
    pub fn duplicate(&self) -> (r: Stmt)
        ensures
            r@ == self@,
    {
        match self {
            Stmt::Expression(e) => Stmt::Expression(Box::new(e.duplicate())),
        }
    }
}

/// The models of a sequence of statements, in order.
pub open spec fn stmts_view(v: Seq<Stmt>) -> Seq<StmtModel> {
    v.map_values(|s: Stmt| s@)
}

/// A syntax diagnostic: `InvalidSyntax` with a message as context.
pub open spec fn parse_err(line: int, msg: Seq<char>) -> CompileErrorModel {
    CompileErrorModel { err: CompileErrorTypeModel::InvalidSyntax, line, text: Some(msg) }
}

/// The line a syntax diagnostic reports: the line of the most recently
/// consumed token, or line 1 when nothing has been consumed yet.
pub open spec fn prev_line(toks: Seq<TokenModel>, i: int) -> int {
    if 1 <= i <= toks.len() {
        toks[i - 1].line
    } else {
        1
    }
}

/// The result of parsing one grammar level: the expression parsed and the
/// position after it, or a diagnostic.
pub open spec fn parse_primary(toks: Seq<TokenModel>, i: int) -> Result<
    (ExprModel, int),
    CompileErrorModel,
>
    decreases toks.len() - i, 0int,
{
    if !(0 <= i < toks.len()) {
        Err(parse_err(prev_line(toks, i), "Unexpected expression"@))
    } else {
        let t = toks[i];
        if t.ttype == TokenType::False || t.ttype == TokenType::True || t.ttype == TokenType::Nil
            || t.ttype == TokenType::Number || t.ttype == TokenType::Str {
            Ok((ExprModel::Literal(t), i + 1))
        } else if t.ttype == TokenType::LeftParen {
            match parse_expression(toks, i + 1) {
                Ok((e, j)) => if 0 <= j < toks.len() && toks[j].ttype != TokenType::Eof
                    && toks[j].ttype == TokenType::RightParen {
                    Ok((ExprModel::Grouping(Box::new(e)), j + 1))
                } else {
                    Err(parse_err(prev_line(toks, j), "Expect ')' after expression."@))
                },
                Err(e) => Err(e),
            }
        } else {
            Err(parse_err(prev_line(toks, i), "Unexpected expression"@))
        }
    }
}

/// A prefix `!` or `-` applies to a nested unary expression; anything else
/// is a primary expression.
pub open spec fn parse_unary(toks: Seq<TokenModel>, i: int) -> Result<
    (ExprModel, int),
    CompileErrorModel,
>
    decreases toks.len() - i, 1int,
{
    if 0 <= i < toks.len() && (toks[i].ttype == TokenType::Bang || toks[i].ttype
        == TokenType::Minus) {
        match parse_unary(toks, i + 1) {
            Ok((e, j)) => Ok((ExprModel::Unary(toks[i], Box::new(e)), j)),
            Err(e) => Err(e),
        }
    } else {
        parse_primary(toks, i)
    }
}

/// Folds further `/` and `*` operands onto `e`, left-associatively.
pub open spec fn parse_factor_rest(toks: Seq<TokenModel>, e: ExprModel, i: int) -> Result<
    (ExprModel, int),
    CompileErrorModel,
>
    decreases toks.len() - i, 3int,
{
    if 0 <= i < toks.len() && (toks[i].ttype == TokenType::Slash || toks[i].ttype
        == TokenType::Star) {
        match parse_unary(toks, i + 1) {
            Ok((rhs, j)) => if j > i && j <= toks.len() {
                parse_factor_rest(
                    toks,
                    ExprModel::Binary(Box::new(e), toks[i], Box::new(rhs)),
                    j,
                )
            } else {
                Err(parse_err(prev_line(toks, j), "Unexpected expression"@))
            },
            Err(er) => Err(er),
        }
    } else {
        Ok((e, i))
    }
}

pub open spec fn parse_factor(toks: Seq<TokenModel>, i: int) -> Result<
    (ExprModel, int),
    CompileErrorModel,
>
    decreases toks.len() - i, 4int,
{
    match parse_unary(toks, i) {
        Ok((e, j)) => if j > i && j <= toks.len() {
            parse_factor_rest(toks, e, j)
        } else {
            Err(parse_err(prev_line(toks, j), "Unexpected expression"@))
        },
        Err(er) => Err(er),
    }
}

/// Folds further `-` and `+` operands onto `e`, left-associatively.
pub open spec fn parse_term_rest(toks: Seq<TokenModel>, e: ExprModel, i: int) -> Result<
    (ExprModel, int),
    CompileErrorModel,
>
    decreases toks.len() - i, 5int,
{
    if 0 <= i < toks.len() && (toks[i].ttype == TokenType::Minus || toks[i].ttype
        == TokenType::Plus) {
        match parse_factor(toks, i + 1) {
            Ok((rhs, j)) => if j > i && j <= toks.len() {
                parse_term_rest(toks, ExprModel::Binary(Box::new(e), toks[i], Box::new(rhs)), j)
            } else {
                Err(parse_err(prev_line(toks, j), "Unexpected expression"@))
            },
            Err(er) => Err(er),
        }
    } else {
        Ok((e, i))
    }
}

pub open spec fn parse_term(toks: Seq<TokenModel>, i: int) -> Result<
    (ExprModel, int),
    CompileErrorModel,
>
    decreases toks.len() - i, 6int,
{
    match parse_factor(toks, i) {
        Ok((e, j)) => if j > i && j <= toks.len() {
            parse_term_rest(toks, e, j)
        } else {
            Err(parse_err(prev_line(toks, j), "Unexpected expression"@))
        },
        Err(er) => Err(er),
    }
}

/// Folds further `>`, `>=`, `<`, `<=` operands onto `e`.
pub open spec fn parse_comparison_rest(toks: Seq<TokenModel>, e: ExprModel, i: int) -> Result<
    (ExprModel, int),
    CompileErrorModel,
>
    decreases toks.len() - i, 7int,
{
    if 0 <= i < toks.len() && (toks[i].ttype == TokenType::Greater || toks[i].ttype
        == TokenType::GreaterEqual || toks[i].ttype == TokenType::Less || toks[i].ttype
        == TokenType::LessEqual) {
        match parse_term(toks, i + 1) {
            Ok((rhs, j)) => if j > i && j <= toks.len() {
                parse_comparison_rest(
                    toks,
                    ExprModel::Binary(Box::new(e), toks[i], Box::new(rhs)),
                    j,
                )
            } else {
                Err(parse_err(prev_line(toks, j), "Unexpected expression"@))
            },
            Err(er) => Err(er),
        }
    } else {
        Ok((e, i))
    }
}

pub open spec fn parse_comparison(toks: Seq<TokenModel>, i: int) -> Result<
    (ExprModel, int),
    CompileErrorModel,
>
    decreases toks.len() - i, 8int,
{
    match parse_term(toks, i) {
        Ok((e, j)) => if j > i && j <= toks.len() {
            parse_comparison_rest(toks, e, j)
        } else {
            Err(parse_err(prev_line(toks, j), "Unexpected expression"@))
        },
        Err(er) => Err(er),
    }
}

/// Folds further `!=` and `==` operands onto `e`.
pub open spec fn parse_equality_rest(toks: Seq<TokenModel>, e: ExprModel, i: int) -> Result<
    (ExprModel, int),
    CompileErrorModel,
>
    decreases toks.len() - i, 9int,
{
    if 0 <= i < toks.len() && (toks[i].ttype == TokenType::BangEqual || toks[i].ttype
        == TokenType::EqualEqual) {
        match parse_comparison(toks, i + 1) {
            Ok((rhs, j)) => if j > i && j <= toks.len() {
                parse_equality_rest(
                    toks,
                    ExprModel::Binary(Box::new(e), toks[i], Box::new(rhs)),
                    j,
                )
            } else {
                Err(parse_err(prev_line(toks, j), "Unexpected expression"@))
            },
            Err(er) => Err(er),
        }
    } else {
        Ok((e, i))
    }
}

pub open spec fn parse_equality(toks: Seq<TokenModel>, i: int) -> Result<
    (ExprModel, int),
    CompileErrorModel,
>
    decreases toks.len() - i, 10int,
{
    match parse_comparison(toks, i) {
        Ok((e, j)) => if j > i && j <= toks.len() {
            parse_equality_rest(toks, e, j)
        } else {
            Err(parse_err(prev_line(toks, j), "Unexpected expression"@))
        },
        Err(er) => Err(er),
    }
}

/// The grammar's entry level.
pub open spec fn parse_expression(toks: Seq<TokenModel>, i: int) -> Result<
    (ExprModel, int),
    CompileErrorModel,
>
    decreases toks.len() - i, 11int,
{
    parse_equality(toks, i)
}

/// The parser's model: one expression statement per iteration until the
/// end marker, or the first diagnostic.
pub open spec fn parse_all(toks: Seq<TokenModel>, i: int) -> Result<
    Seq<StmtModel>,
    CompileErrorModel,
>
    decreases toks.len() - i,
{
    if !(0 <= i < toks.len()) || toks[i].ttype == TokenType::Eof {
        Ok(Seq::empty())
    } else {
        match parse_expression(toks, i) {
            Ok((e, j)) => if j > i && j <= toks.len() {
                match parse_all(toks, j) {
                    Ok(rest) => Ok(seq![StmtModel::Expression(e)] + rest),
                    Err(er) => Err(er),
                }
            } else {
                Err(parse_err(prev_line(toks, j), "Unexpected expression"@))
            },
            Err(er) => Err(er),
        }
    }
}

/// Prepends already-built statements to the outcome of parsing the rest.
pub open spec fn with_stmts(
    ss: Seq<StmtModel>,
    r: Result<Seq<StmtModel>, CompileErrorModel>,
) -> Result<Seq<StmtModel>, CompileErrorModel> {
    match r {
        Ok(rest) => Ok(ss + rest),
        Err(e) => Err(e),
    }
}

pub proof fn lemma_with_stmts_nil(r: Result<Seq<StmtModel>, CompileErrorModel>)
    ensures
        with_stmts(Seq::empty(), r) == r,
{
    match r {
        Ok(ss) => {
            assert(Seq::empty() + ss =~= ss);
        },
        Err(_) => {
        },
    }
}

pub proof fn lemma_with_stmts_assoc(
    a: Seq<StmtModel>,
    b: Seq<StmtModel>,
    r: Result<Seq<StmtModel>, CompileErrorModel>,
)
    ensures
        with_stmts(a, with_stmts(b, r)) == with_stmts(a + b, r),
{
    match r {
        Ok(ss) => {
            assert(a + (b + ss) =~= (a + b) + ss);
        },
        Err(_) => {
        },
    }
}

/// An element-by-element copy of a statement vector.
fn copy_stmts(v: &Vec<Stmt>) -> (r: Vec<Stmt>)
    ensures
        r@.len() == v@.len(),
        stmts_view(r@) == stmts_view(v@),
{
    let mut r: Vec<Stmt> = Vec::new();
    let mut i: usize = 0;
    while i < v.len()
        invariant
            i <= v@.len(),
            r@.len() == i,
            forall|j: int| 0 <= j < i as int ==> (#[trigger] r@[j])@ == v@[j]@,
        decreases v@.len() - i,
    {
        let t = v[i].duplicate();
        r.push(t);
        i = i + 1;
    }
    proof {
        assert(stmts_view(r@) =~= stmts_view(v@));
    }
    r
}

/// The parser's state: its own copy of the token sequence, the statements
/// built so far and the cursor.
pub struct Parser {
    pub tokens: Vec<Token>,
    pub statements: Vec<Stmt>,
    pub current: usize,
}

impl Parser {
    /// The models of the parser's tokens.
    pub open spec fn toks(&self) -> Seq<TokenModel> {
        tokens_view(self.tokens@)
    }

    /// The parser's internal invariant: the cursor sits on a token, and
    /// the sequence ends with an end-of-input marker the cursor never
    /// passes.
    pub open spec fn wf(&self) -> bool {
        &&& self.toks().len() >= 1
        &&& self.current < self.toks().len()
        &&& self.toks()[self.toks().len() - 1].ttype == TokenType::Eof
    }

    /// Builds a parser over a copy of a scanned token sequence, which
    /// ends with an end-of-input token.
    pub fn new(tokens: &Vec<Token>) -> (p: Parser)
        requires
            tokens@.len() >= 1,
            tokens_view(tokens@)[tokens@.len() - 1].ttype == TokenType::Eof,
        ensures
            p.wf(),
            p.toks() == tokens_view(tokens@),
            p.current == 0,
            p.statements@.len() == 0,
    {
        Parser { tokens: copy_tokens(tokens), statements: Vec::new(), current: 0 }
    }

    /// Whether the cursor's token equals `ttype`; always false at the end
    /// marker.
    fn check(&self, ttype: TokenType) -> (r: bool)
        requires
            self.wf(),
        ensures
            r == (self.toks()[self.current as int].ttype != TokenType::Eof
                && self.toks()[self.current as int].ttype == ttype),
    {
        proof {
            assert(self.toks()[self.current as int] == self.tokens@[self.current as int]@);
        }
        let t = self.tokens[self.current].ttype;
        t != TokenType::Eof && t == ttype
    }

    /// Consumes and returns the cursor's token when its kind is `a` or
    /// `b`.
    fn match_two(&mut self, a: TokenType, b: TokenType) -> (r: Option<Token>)
        requires
            old(self).wf(),
        ensures
            final(self).wf(),
            final(self).tokens == old(self).tokens,
            final(self).statements == old(self).statements,
            ({
                let t0 = old(self).toks()[old(self).current as int];
                match r {
                    Some(t) => {
                        &&& t0.ttype != TokenType::Eof
                        &&& (t0.ttype == a || t0.ttype == b)
                        &&& t@ == t0
                        &&& final(self).current == old(self).current + 1
                    },
                    None => {
                        &&& final(self).current == old(self).current
                        &&& !(t0.ttype != TokenType::Eof && (t0.ttype == a || t0.ttype == b))
                    },
                }
            }),
    {
        if self.check(a) || self.check(b) {
            let n = self.tokens.len();
            proof {
                assert(self.toks().len() == self.tokens@.len());
                assert(self.current < n);
                assert(self.toks()[self.current as int] == self.tokens@[self.current as int]@);
            }
            let t = self.tokens[self.current].duplicate();
            self.current = self.current + 1;
            Some(t)
        } else {
            None
        }
    }

    /// Consumes the cursor's token when its kind is `ttype`; otherwise a
    /// syntax diagnostic carrying `error_msg`, at the line of the most
    /// recently consumed token.
    fn consume(&mut self, ttype: TokenType, error_msg: &str) -> (r: Result<(), CompileError>)
        requires
            old(self).wf(),
        ensures
            final(self).wf(),
            final(self).tokens == old(self).tokens,
            final(self).statements == old(self).statements,
            ({
                let t0 = old(self).toks()[old(self).current as int];
                match r {
                    Ok(()) => {
                        &&& t0.ttype != TokenType::Eof
                        &&& t0.ttype == ttype
                        &&& final(self).current == old(self).current + 1
                    },
                    Err(e) => {
                        &&& final(self).current == old(self).current
                        &&& !(t0.ttype != TokenType::Eof && t0.ttype == ttype)
                        &&& e@ == parse_err(
                            prev_line(old(self).toks(), old(self).current as int),
                            error_msg@,
                        )
                    },
                }
            }),
    {
        if self.check(ttype) {
            let n = self.tokens.len();
            proof {
                assert(self.toks().len() == self.tokens@.len());
                assert(self.current < n);
            }
            self.current = self.current + 1;
            Ok(())
        } else {
            let line: usize = if self.current > 0 {
                proof {
                    assert(self.toks()[self.current as int - 1] == self.tokens@[self.current
                        as int - 1]@);
                }
                self.tokens[self.current - 1].line
            } else {
                1
            };
            Err(
                CompileError {
                    err: CompileErrorType::InvalidSyntax,
                    line,
                    text: Some(String::from_str(error_msg)),
                },
            )
        }
    }

    /// Parses one primary expression: a literal or a parenthesized group.
    fn primary(&mut self) -> (r: Result<Expr, CompileError>)
        requires
            old(self).wf(),
        ensures
            final(self).wf(),
            final(self).tokens == old(self).tokens,
            final(self).statements == old(self).statements,
            match r {
                Ok(e) => parse_primary(old(self).toks(), old(self).current as int) == Ok::<
                    (ExprModel, int),
                    CompileErrorModel,
                >((e@, final(self).current as int)) && final(self).current > old(self).current,
                Err(er) => parse_primary(old(self).toks(), old(self).current as int) == Err::<
                    (ExprModel, int),
                    CompileErrorModel,
                >(er@),
            },
        decreases old(self).toks().len() - old(self).current, 0int,
    {
        let lit1 = self.match_two(TokenType::False, TokenType::True);
        if let Some(t) = lit1 {
            return Ok(Expr::Literal(t));
        }
        let lit2 = self.match_two(TokenType::Nil, TokenType::Number);
        if let Some(t) = lit2 {
            return Ok(Expr::Literal(t));
        }
        let lit3 = self.match_two(TokenType::Str, TokenType::Str);
        if let Some(t) = lit3 {
            return Ok(Expr::Literal(t));
        }
        let lp = self.match_two(TokenType::LeftParen, TokenType::LeftParen);
        if let Some(_t) = lp {
            let e = match self.expression() {
                Ok(e) => e,
                Err(er) => {
                    return Err(er);
                },
            };
            match self.consume(TokenType::RightParen, "Expect ')' after expression.") {
                Ok(()) => {
                    return Ok(Expr::Grouping(Box::new(e)));
                },
                Err(er) => {
                    return Err(er);
                },
            }
        }
        let line: usize = if self.current > 0 {
            proof {
                assert(self.toks()[self.current as int - 1] == self.tokens@[self.current as int
                    - 1]@);
            }
            self.tokens[self.current - 1].line
        } else {
            1
        };
        Err(
            CompileError {
                err: CompileErrorType::InvalidSyntax,
                line,
                text: Some(String::from_str("Unexpected expression")),
            },
        )
    }

    /// Parses a unary expression: prefix `!` or `-` applied recursively,
    /// or a primary expression.
    fn unary(&mut self) -> (r: Result<Expr, CompileError>)
        requires
            old(self).wf(),
        ensures
            final(self).wf(),
            final(self).tokens == old(self).tokens,
            final(self).statements == old(self).statements,
            match r {
                Ok(e) => parse_unary(old(self).toks(), old(self).current as int) == Ok::<
                    (ExprModel, int),
                    CompileErrorModel,
                >((e@, final(self).current as int)) && final(self).current > old(self).current,
                Err(er) => parse_unary(old(self).toks(), old(self).current as int) == Err::<
                    (ExprModel, int),
                    CompileErrorModel,
                >(er@),
            },
        decreases old(self).toks().len() - old(self).current, 1int,
    {
        let op = self.match_two(TokenType::Bang, TokenType::Minus);
        if let Some(t) = op {
            match self.unary() {
                Ok(e) => Ok(Expr::Unary(t, Box::new(e))),
                Err(er) => Err(er),
            }
        } else {
            self.primary()
        }
    }

    /// Parses a factor: unary operands folded left-associatively under
    /// `/` and `*`.
    fn factor(&mut self) -> (r: Result<Expr, CompileError>)
        requires
            old(self).wf(),
        ensures
            final(self).wf(),
            final(self).tokens == old(self).tokens,
            final(self).statements == old(self).statements,
            match r {
                Ok(e) => parse_factor(old(self).toks(), old(self).current as int) == Ok::<
                    (ExprModel, int),
                    CompileErrorModel,
                >((e@, final(self).current as int)) && final(self).current > old(self).current,
                Err(er) => parse_factor(old(self).toks(), old(self).current as int) == Err::<
                    (ExprModel, int),
                    CompileErrorModel,
                >(er@),
            },
        decreases old(self).toks().len() - old(self).current, 4int,
    {
        let mut exp = match self.unary() {
            Ok(e) => e,
            Err(er) => {
                return Err(er);
            },
        };
        loop
            invariant
                self.wf(),
                self.tokens == old(self).tokens,
                self.statements == old(self).statements,
                old(self).current < self.current,
                parse_factor(old(self).toks(), old(self).current as int) == parse_factor_rest(
                    old(self).toks(),
                    exp@,
                    self.current as int,
                ),
            decreases old(self).toks().len() - self.current,
        {
            let op = self.match_two(TokenType::Slash, TokenType::Star);
            if let Some(t) = op {
                let rhs = match self.unary() {
                    Ok(e) => e,
                    Err(er) => {
                        return Err(er);
                    },
                };
                exp = Expr::Binary(Box::new(exp), t, Box::new(rhs));
            } else {
                return Ok(exp);
            }
        }
    }

    /// Parses a term: factors folded left-associatively under `-` and
    /// `+`.
    fn term(&mut self) -> (r: Result<Expr, CompileError>)
        requires
            old(self).wf(),
        ensures
            final(self).wf(),
            final(self).tokens == old(self).tokens,
            final(self).statements == old(self).statements,
            match r {
                Ok(e) => parse_term(old(self).toks(), old(self).current as int) == Ok::<
                    (ExprModel, int),
                    CompileErrorModel,
                >((e@, final(self).current as int)) && final(self).current > old(self).current,
                Err(er) => parse_term(old(self).toks(), old(self).current as int) == Err::<
                    (ExprModel, int),
                    CompileErrorModel,
                >(er@),
            },
        decreases old(self).toks().len() - old(self).current, 6int,
    {
        let mut exp = match self.factor() {
            Ok(e) => e,
            Err(er) => {
                return Err(er);
            },
        };
        loop
            invariant
                self.wf(),
                self.tokens == old(self).tokens,
                self.statements == old(self).statements,
                old(self).current < self.current,
                parse_term(old(self).toks(), old(self).current as int) == parse_term_rest(
                    old(self).toks(),
                    exp@,
                    self.current as int,
                ),
            decreases old(self).toks().len() - self.current,
        {
            let op = self.match_two(TokenType::Minus, TokenType::Plus);
            if let Some(t) = op {
                let rhs = match self.factor() {
                    Ok(e) => e,
                    Err(er) => {
                        return Err(er);
                    },
                };
                exp = Expr::Binary(Box::new(exp), t, Box::new(rhs));
            } else {
                return Ok(exp);
            }
        }
    }

    /// Parses a comparison: terms folded left-associatively under `>`,
    /// `>=`, `<` and `<=`.
    fn comparison(&mut self) -> (r: Result<Expr, CompileError>)
        requires
            old(self).wf(),
        ensures
            final(self).wf(),
            final(self).tokens == old(self).tokens,
            final(self).statements == old(self).statements,
            match r {
                Ok(e) => parse_comparison(old(self).toks(), old(self).current as int) == Ok::<
                    (ExprModel, int),
                    CompileErrorModel,
                >((e@, final(self).current as int)) && final(self).current > old(self).current,
                Err(er) => parse_comparison(old(self).toks(), old(self).current as int) == Err::<
                    (ExprModel, int),
                    CompileErrorModel,
                >(er@),
            },
        decreases old(self).toks().len() - old(self).current, 8int,
    {
        let mut exp = match self.term() {
            Ok(e) => e,
            Err(er) => {
                return Err(er);
            },
        };
        loop
            invariant
                self.wf(),
                self.tokens == old(self).tokens,
                self.statements == old(self).statements,
                old(self).current < self.current,
                parse_comparison(old(self).toks(), old(self).current as int)
                    == parse_comparison_rest(old(self).toks(), exp@, self.current as int),
            decreases old(self).toks().len() - self.current,
        {
            let op1 = self.match_two(TokenType::Greater, TokenType::GreaterEqual);
            let op = if let Some(t) = op1 {
                Some(t)
            } else {
                self.match_two(TokenType::Less, TokenType::LessEqual)
            };
            if let Some(t) = op {
                let rhs = match self.term() {
                    Ok(e) => e,
                    Err(er) => {
                        return Err(er);
                    },
                };
                exp = Expr::Binary(Box::new(exp), t, Box::new(rhs));
            } else {
                return Ok(exp);
            }
        }
    }

    /// Parses an equality: comparisons folded left-associatively under
    /// `!=` and `==`.
    fn equality(&mut self) -> (r: Result<Expr, CompileError>)
        requires
            old(self).wf(),
        ensures
            final(self).wf(),
            final(self).tokens == old(self).tokens,
            final(self).statements == old(self).statements,
            match r {
                Ok(e) => parse_equality(old(self).toks(), old(self).current as int) == Ok::<
                    (ExprModel, int),
                    CompileErrorModel,
                >((e@, final(self).current as int)) && final(self).current > old(self).current,
                Err(er) => parse_equality(old(self).toks(), old(self).current as int) == Err::<
                    (ExprModel, int),
                    CompileErrorModel,
                >(er@),
            },
        decreases old(self).toks().len() - old(self).current, 10int,
    {
        let mut exp = match self.comparison() {
            Ok(e) => e,
            Err(er) => {
                return Err(er);
            },
        };
        loop
            invariant
                self.wf(),
                self.tokens == old(self).tokens,
                self.statements == old(self).statements,
                old(self).current < self.current,
                parse_equality(old(self).toks(), old(self).current as int) == parse_equality_rest(
                    old(self).toks(),
                    exp@,
                    self.current as int,
                ),
            decreases old(self).toks().len() - self.current,
        {
            let op = self.match_two(TokenType::BangEqual, TokenType::EqualEqual);
            if let Some(t) = op {
                let rhs = match self.comparison() {
                    Ok(e) => e,
                    Err(er) => {
                        return Err(er);
                    },
                };
                exp = Expr::Binary(Box::new(exp), t, Box::new(rhs));
            } else {
                return Ok(exp);
            }
        }
    }

    /// Parses one expression at the grammar's entry level.
    fn expression(&mut self) -> (r: Result<Expr, CompileError>)
        requires
            old(self).wf(),
        ensures
            final(self).wf(),
            final(self).tokens == old(self).tokens,
            final(self).statements == old(self).statements,
            match r {
                Ok(e) => parse_expression(old(self).toks(), old(self).current as int) == Ok::<
                    (ExprModel, int),
                    CompileErrorModel,
                >((e@, final(self).current as int)) && final(self).current > old(self).current,
                Err(er) => parse_expression(old(self).toks(), old(self).current as int) == Err::<
                    (ExprModel, int),
                    CompileErrorModel,
                >(er@),
            },
        decreases old(self).toks().len() - old(self).current, 11int,
    {
        self.equality()
    }

    /// Parses every statement up to the end marker: on success exactly
    /// the statements the model prescribes, otherwise the model's first
    /// diagnostic.
    pub fn parse(&mut self) -> (r: Result<Vec<Stmt>, CompileError>)
        requires
            old(self).wf(),
            old(self).current == 0,
            old(self).statements@.len() == 0,
        ensures
            final(self).wf(),
            match r {
                Ok(stmts) => parse_all(old(self).toks(), 0) == Ok::<
                    Seq<StmtModel>,
                    CompileErrorModel,
                >(stmts_view(stmts@)),
                Err(e) => parse_all(old(self).toks(), 0) == Err::<
                    Seq<StmtModel>,
                    CompileErrorModel,
                >(e@),
            },
    {
        proof {
            lemma_with_stmts_nil(parse_all(old(self).toks(), 0));
            assert(stmts_view(self.statements@) =~= Seq::<StmtModel>::empty());
        }
        while self.tokens[self.current].ttype != TokenType::Eof
            invariant
                self.wf(),
                self.tokens == old(self).tokens,
                with_stmts(
                    stmts_view(self.statements@),
                    parse_all(old(self).toks(), self.current as int),
                ) == parse_all(old(self).toks(), 0),
            decreases old(self).toks().len() - self.current,
        {
            proof {
                assert(self.toks()[self.current as int] == self.tokens@[self.current as int]@);
            }
            let ghost pre_cur = self.current as int;
            let ghost pre_stmts = self.statements@;
            let e = match self.expression() {
                Ok(e) => e,
                Err(er) => {
                    return Err(er);
                },
            };
            proof {
                assert(parse_all(old(self).toks(), pre_cur) == with_stmts(
                    seq![StmtModel::Expression(e@)],
                    parse_all(old(self).toks(), self.current as int),
                ));
                lemma_with_stmts_assoc(
                    stmts_view(pre_stmts),
                    seq![StmtModel::Expression(e@)],
                    parse_all(old(self).toks(), self.current as int),
                );
            }
            self.statements.push(Stmt::Expression(Box::new(e)));
            proof {
                assert(stmts_view(self.statements@) =~= stmts_view(pre_stmts) + seq![
                    StmtModel::Expression(e@),
                ]);
            }
        }
        proof {
            assert(self.toks()[self.current as int] == self.tokens@[self.current as int]@);
            assert(parse_all(old(self).toks(), self.current as int) == Ok::<
                Seq<StmtModel>,
                CompileErrorModel,
            >(Seq::empty()));
            assert(stmts_view(self.statements@) + Seq::<StmtModel>::empty() =~= stmts_view(
                self.statements@,
            ));
        }
        let out = copy_stmts(&self.statements);
        Ok(out)
    }
}

} // verus!
