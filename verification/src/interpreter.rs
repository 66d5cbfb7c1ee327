//! The tree-walking interpreter: evaluates an expression tree to a
//! runtime value with dynamic type checks per operation, and executes a
//! statement sequence by collecting each statement's printed line. The
//! executable evaluator is proved to return exactly what the recursive
//! model [`eval_expr`] describes.
//!
//! Arithmetic is exact: an operation whose mathematical result cannot be
//! held as a 64-bit signed integer — an overflow, a division by zero or a
//! division that leaves a remainder — reports a diagnostic rather than an
//! approximate value.
use vstd::prelude::*;

use crate::ast::{Expr, ExprModel};
use crate::errors::{CompileError, CompileErrorModel, CompileErrorType, CompileErrorTypeModel};
use crate::numerals::{numeral_as_i64, numeral_to_int};
use crate::parser::{Stmt, StmtModel, stmts_view};
use crate::tokens::{Literal, LiteralModel, Token, TokenModel, TokenType};
use crate::value::{truthy, value_text, values_equal, Value, ValueModel};

verus! {

/// A runtime diagnostic: `EvaluationFailed` carrying a short message.
pub open spec fn eval_err(line: int, msg: Seq<char>) -> CompileErrorModel {
    CompileErrorModel {
        err: CompileErrorTypeModel::EvaluationFailed(msg),
        line,
        text: None,
    }
}

/// Whether a mathematical integer is a representable runtime number.
pub open spec fn in_number_range(v: int) -> bool {
    i64::MIN <= v <= i64::MAX
}

/// The magnitude of a mathematical integer.
pub open spec fn abs_of(v: int) -> int {
    if v < 0 {
        -v
    } else {
        v
    }
}

/// The value a literal token denotes: keyword literals by their kind,
/// string and number literals by their payload. A number literal denotes
/// a value only when its digits name a representable number; a literal
/// token without the payload its kind requires denotes none.
pub open spec fn literal_value(t: TokenModel) -> Result<ValueModel, CompileErrorModel> {
    if t.ttype == TokenType::True {
        Ok(ValueModel::Bool(true))
    } else if t.ttype == TokenType::False {
        Ok(ValueModel::Bool(false))
    } else if t.ttype == TokenType::Nil {
        Ok(ValueModel::Nil)
    } else if t.ttype == TokenType::Str {
        match t.literal {
            Some(LiteralModel::Str(s)) => Ok(ValueModel::Str(s)),
            _ => Err(eval_err(t.line, "Literal token holds no value"@)),
        }
    } else if t.ttype == TokenType::Number {
        match t.literal {
            Some(LiteralModel::Number(nm)) => match numeral_as_i64(nm) {
                Some(v) => Ok(ValueModel::Number(v)),
                None => Err(eval_err(t.line, "Number literal is not representable"@)),
            },
            _ => Err(eval_err(t.line, "Literal token holds no value"@)),
        }
    } else {
        Err(eval_err(t.line, "Literal token holds no value"@))
    }
}

/// The outcome of a binary operation on two evaluated operands.
pub open spec fn eval_binary(l: ValueModel, op: TokenModel, r: ValueModel) -> Result<
    ValueModel,
    CompileErrorModel,
> {
    if op.ttype == TokenType::Plus {
        match (l, r) {
            (ValueModel::Number(a), ValueModel::Number(b)) => if in_number_range(a + b) {
                Ok(ValueModel::Number(a + b))
            } else {
                Err(eval_err(op.line, "Number out of range for +"@))
            },
            (ValueModel::Str(a), ValueModel::Str(b)) => Ok(ValueModel::Str(a + b)),
            _ => Err(eval_err(op.line, "Unsupported types for +"@)),
        }
    } else if op.ttype == TokenType::Minus {
        match (l, r) {
            (ValueModel::Number(a), ValueModel::Number(b)) => if in_number_range(a - b) {
                Ok(ValueModel::Number(a - b))
            } else {
                Err(eval_err(op.line, "Number out of range for -"@))
            },
            _ => Err(eval_err(op.line, "Unsupported types for -"@)),
        }
    } else if op.ttype == TokenType::Star {
        match (l, r) {
            (ValueModel::Number(a), ValueModel::Number(b)) => if in_number_range(a * b) {
                Ok(ValueModel::Number(a * b))
            } else {
                Err(eval_err(op.line, "Number out of range for *"@))
            },
            _ => Err(eval_err(op.line, "Unsupported types for *"@)),
        }
    } else if op.ttype == TokenType::Slash {
        match (l, r) {
            (ValueModel::Number(a), ValueModel::Number(b)) => if b == 0 {
                Err(eval_err(op.line, "Division by zero"@))
            } else if abs_of(a) % abs_of(b) != 0 {
                Err(eval_err(op.line, "Division is not exact"@))
            } else {
                let q = if (a < 0) != (b < 0) {
                    -(abs_of(a) / abs_of(b))
                } else {
                    abs_of(a) / abs_of(b)
                };
                if in_number_range(q) {
                    Ok(ValueModel::Number(q))
                } else {
                    Err(eval_err(op.line, "Number out of range for /"@))
                }
            },
            _ => Err(eval_err(op.line, "Unsupported types for /"@)),
        }
    } else if op.ttype == TokenType::Greater {
        match (l, r) {
            (ValueModel::Number(a), ValueModel::Number(b)) => Ok(ValueModel::Bool(a > b)),
            _ => Err(eval_err(op.line, "Unsupported types for >"@)),
        }
    } else if op.ttype == TokenType::GreaterEqual {
        match (l, r) {
            (ValueModel::Number(a), ValueModel::Number(b)) => Ok(ValueModel::Bool(a >= b)),
            _ => Err(eval_err(op.line, "Unsupported types for >="@)),
        }
    } else if op.ttype == TokenType::Less {
        match (l, r) {
            (ValueModel::Number(a), ValueModel::Number(b)) => Ok(ValueModel::Bool(a < b)),
            _ => Err(eval_err(op.line, "Unsupported types for <"@)),
        }
    } else if op.ttype == TokenType::LessEqual {
        match (l, r) {
            (ValueModel::Number(a), ValueModel::Number(b)) => Ok(ValueModel::Bool(a <= b)),
            _ => Err(eval_err(op.line, "Unsupported types for <="@)),
        }
    } else if op.ttype == TokenType::EqualEqual {
        Ok(ValueModel::Bool(values_equal(l, r)))
    } else if op.ttype == TokenType::BangEqual {
        Ok(ValueModel::Bool(!values_equal(l, r)))
    } else {
        Err(eval_err(0, "Code path is not covered yet"@))
    }
}

/// The evaluator's model: the value of an expression, or the first
/// diagnostic raised in it. Operands evaluate left to right; type checks
/// are dynamic, per operation.
pub open spec fn eval_expr(e: ExprModel) -> Result<ValueModel, CompileErrorModel>
    decreases e,
{
    match e {
        ExprModel::Literal(t) => literal_value(t),
        ExprModel::Identifier(_t) => Err(eval_err(0, "Code path is not covered yet"@)),
        ExprModel::Grouping(g) => eval_expr(*g),
        ExprModel::Unary(op, operand) => match eval_expr(*operand) {
            Err(er) => Err(er),
            Ok(v) => if op.ttype == TokenType::Minus {
                match v {
                    ValueModel::Number(n) => if in_number_range(-n) {
                        Ok(ValueModel::Number(-n))
                    } else {
                        Err(eval_err(op.line, "Number out of range for unary -"@))
                    },
                    _ => Err(eval_err(op.line, "Unsupported types for unary -"@)),
                }
            } else if op.ttype == TokenType::Bang {
                Ok(ValueModel::Bool(!truthy(v)))
            } else {
                Err(eval_err(0, "Wrong unary operator"@))
            },
        },
        ExprModel::Binary(l, op, r) => match eval_expr(*l) {
            Err(er) => Err(er),
            Ok(lv) => match eval_expr(*r) {
                Err(er) => Err(er),
                Ok(rv) => eval_binary(lv, op, rv),
            },
        },
    }
}

/// The printed line a statement produces: its expression's value in
/// display form.
pub open spec fn stmt_out(s: StmtModel) -> Result<Seq<char>, CompileErrorModel> {
    match s {
        StmtModel::Expression(e) => match eval_expr(e) {
            Ok(v) => Ok(value_text(v)),
            Err(er) => Err(er),
        },
    }
}

/// The interpreter's model: the printed lines of the statements from
/// position `i` on, or the first diagnostic, which aborts the rest.
pub open spec fn exec_from(ss: Seq<StmtModel>, i: int) -> Result<
    Seq<Seq<char>>,
    CompileErrorModel,
>
    decreases ss.len() - i,
{
    if !(0 <= i < ss.len()) {
        Ok(Seq::empty())
    } else {
        match stmt_out(ss[i]) {
            Err(er) => Err(er),
            Ok(t) => match exec_from(ss, i + 1) {
                Ok(rest) => Ok(seq![t] + rest),
                Err(er) => Err(er),
            },
        }
    }
}

/// The models of a sequence of printed lines.
pub open spec fn texts_view(v: Seq<String>) -> Seq<Seq<char>> {
    v.map_values(|s: String| s@)
}

/// Prepends already-produced lines to the outcome of the rest.
pub open spec fn with_texts(
    ts: Seq<Seq<char>>,
    r: Result<Seq<Seq<char>>, CompileErrorModel>,
) -> Result<Seq<Seq<char>>, CompileErrorModel> {
    match r {
        Ok(rest) => Ok(ts + rest),
        Err(e) => Err(e),
    }
}

pub proof fn lemma_with_texts_nil(r: Result<Seq<Seq<char>>, CompileErrorModel>)
    ensures
        with_texts(Seq::empty(), r) == r,
{
    match r {
        Ok(ts) => {
            assert(Seq::empty() + ts =~= ts);
        },
        Err(_) => {
        },
    }
}

/// The tree-walking interpreter. It holds no state of its own: the
/// language has no variable bindings yet.
pub struct Interpreter {}

impl Interpreter {
    pub fn new() -> (r: Interpreter) {
        Interpreter {  }
    }

    /// Builds a diagnostic of the given kind and line; an empty message
    /// leaves the context text out.
    pub fn error<T>(&self, line: usize, error_type: CompileErrorType, msg: &str) -> (r: Result<
        T,
        CompileError,
    >)
        ensures
            r matches Err(e) && e@ == (CompileErrorModel {
                err: error_type@,
                line: line as int,
                text: if msg@.len() == 0 {
                    None
                } else {
                    Some(msg@)
                },
            }),
    {
        if msg.unicode_len() == 0 {
            Err(CompileError { err: error_type, line, text: None })
        } else {
            Err(CompileError { err: error_type, line, text: Some(String::from_str(msg)) })
        }
    }

    /// A runtime diagnostic with a short message naming the operation.
    fn fail(&self, line: usize, msg: &str) -> (r: Result<Value, CompileError>)
        ensures
            r matches Err(e) && e@ == eval_err(line as int, msg@),
    {
        proof {
            reveal_strlit("");
        }
        self.error(line, CompileErrorType::EvaluationFailed(String::from_str(msg)), "")
    }

    /// The value of a literal token, by its kind and payload.
    fn literal_of(&self, t: &Token) -> (r: Result<Value, CompileError>)
        ensures
            match r {
                Ok(v) => literal_value(t@) == Ok::<ValueModel, CompileErrorModel>(v@),
                Err(e) => literal_value(t@) == Err::<ValueModel, CompileErrorModel>(e@),
            },
    {
        if t.ttype == TokenType::True {
            return Ok(Value::Bool(true));
        }
        if t.ttype == TokenType::False {
            return Ok(Value::Bool(false));
        }
        if t.ttype == TokenType::Nil {
            return Ok(Value::Nil);
        }
        if t.ttype == TokenType::Str {
            match &t.literal {
                Some(Literal::Str(s)) => {
                    return Ok(Value::Str(s.clone()));
                },
                _ => {
                    return self.fail(t.line, "Literal token holds no value");
                },
            }
        }
        if t.ttype == TokenType::Number {
            match &t.literal {
                Some(Literal::Number(nm)) => {
                    match numeral_to_int(nm) {
                        Some(v) => {
                            return Ok(Value::Number(v));
                        },
                        None => {
                            return self.fail(t.line, "Number literal is not representable");
                        },
                    }
                },
                _ => {
                    return self.fail(t.line, "Literal token holds no value");
                },
            }
        }
        self.fail(t.line, "Literal token holds no value")
    }

    /// Exact division: the quotient of the magnitudes with the operands'
    /// combined sign, defined when the divisor is nonzero, the division
    /// leaves no remainder and the quotient is representable.
    fn divide(&self, a: i64, b: i64, op: &Token) -> (res: Result<Value, CompileError>)
        requires
            op@.ttype == TokenType::Slash,
        ensures
            match res {
                Ok(v) => eval_binary(
                    ValueModel::Number(a as int),
                    op@,
                    ValueModel::Number(b as int),
                ) == Ok::<ValueModel, CompileErrorModel>(v@),
                Err(e) => eval_binary(
                    ValueModel::Number(a as int),
                    op@,
                    ValueModel::Number(b as int),
                ) == Err::<ValueModel, CompileErrorModel>(e@),
            },
    {
        if b == 0 {
            return self.fail(op.line, "Division by zero");
        }
        let ua: u64 = if a == i64::MIN {
            9223372036854775808u64
        } else if a < 0 {
            (-a) as u64
        } else {
            a as u64
        };
        let ub: u64 = if b == i64::MIN {
            9223372036854775808u64
        } else if b < 0 {
            (-b) as u64
        } else {
            b as u64
        };
        proof {
            assert(ua as int == abs_of(a as int));
            assert(ub as int == abs_of(b as int));
        }
        if ua % ub != 0 {
            return self.fail(op.line, "Division is not exact");
        }
        let uq: u64 = ua / ub;
        proof {
            vstd::arithmetic::div_mod::lemma_div_pos_is_pos(ua as int, ub as int);
            vstd::arithmetic::div_mod::lemma_div_nonincreasing(ua as int, ub as int);
            assert(0 <= uq as int <= ua as int);
        }
        let neg = (a < 0) != (b < 0);
        if neg {
            if uq == 9223372036854775808u64 {
                Ok(Value::Number(i64::MIN))
            } else {
                let q: i64 = -(uq as i64);
                Ok(Value::Number(q))
            }
        } else {
            if uq > 9223372036854775807u64 {
                self.fail(op.line, "Number out of range for /")
            } else {
                Ok(Value::Number(uq as i64))
            }
        }
    }

    /// The outcome of a binary operation on two evaluated operands.
    fn binary(&self, l: Value, op: &Token, r: Value) -> (res: Result<Value, CompileError>)
        ensures
            match res {
                Ok(v) => eval_binary(l@, op@, r@) == Ok::<ValueModel, CompileErrorModel>(v@),
                Err(e) => eval_binary(l@, op@, r@) == Err::<ValueModel, CompileErrorModel>(e@),
            },
    {
        if op.ttype == TokenType::Plus {
            match (l, r) {
                (Value::Number(a), Value::Number(b)) => match a.checked_add(b) {
                    Some(s) => Ok(Value::Number(s)),
                    None => self.fail(op.line, "Number out of range for +"),
                },
                (Value::Str(a), Value::Str(b)) => Ok(Value::Str(a.concat(b.as_str()))),
                _ => self.fail(op.line, "Unsupported types for +"),
            }
        } else if op.ttype == TokenType::Minus {
            match (l, r) {
                (Value::Number(a), Value::Number(b)) => match a.checked_sub(b) {
                    Some(s) => Ok(Value::Number(s)),
                    None => self.fail(op.line, "Number out of range for -"),
                },
                _ => self.fail(op.line, "Unsupported types for -"),
            }
        } else if op.ttype == TokenType::Star {
            match (l, r) {
                (Value::Number(a), Value::Number(b)) => match a.checked_mul(b) {
                    Some(s) => Ok(Value::Number(s)),
                    None => self.fail(op.line, "Number out of range for *"),
                },
                _ => self.fail(op.line, "Unsupported types for *"),
            }
        } else if op.ttype == TokenType::Slash {
            match (l, r) {
                (Value::Number(a), Value::Number(b)) => self.divide(a, b, op),
                _ => self.fail(op.line, "Unsupported types for /"),
            }
        } else if op.ttype == TokenType::Greater {
            match (l, r) {
                (Value::Number(a), Value::Number(b)) => Ok(Value::Bool(a > b)),
                _ => self.fail(op.line, "Unsupported types for >"),
            }
        } else if op.ttype == TokenType::GreaterEqual {
            match (l, r) {
                (Value::Number(a), Value::Number(b)) => Ok(Value::Bool(a >= b)),
                _ => self.fail(op.line, "Unsupported types for >="),
            }
        } else if op.ttype == TokenType::Less {
            match (l, r) {
                (Value::Number(a), Value::Number(b)) => Ok(Value::Bool(a < b)),
                _ => self.fail(op.line, "Unsupported types for <"),
            }
        } else if op.ttype == TokenType::LessEqual {
            match (l, r) {
                (Value::Number(a), Value::Number(b)) => Ok(Value::Bool(a <= b)),
                _ => self.fail(op.line, "Unsupported types for <="),
            }
        } else if op.ttype == TokenType::EqualEqual {
            Ok(Value::Bool(l == r))
        } else if op.ttype == TokenType::BangEqual {
            Ok(Value::Bool(!(l == r)))
        } else {
            self.fail(0, "Code path is not covered yet")
        }
    }

    /// Evaluates an expression to a runtime value: exactly the value the
    /// model prescribes, or the model's first diagnostic.
    pub fn evaluate(&mut self, node: &Expr) -> (r: Result<Value, CompileError>)
        ensures
            match r {
                Ok(v) => eval_expr(node@) == Ok::<ValueModel, CompileErrorModel>(v@),
                Err(e) => eval_expr(node@) == Err::<ValueModel, CompileErrorModel>(e@),
            },
        decreases node,
    {
        match node {
            Expr::Literal(t) => self.literal_of(t),
            Expr::Identifier(_t) => self.fail(0, "Code path is not covered yet"),
            Expr::Grouping(g) => self.evaluate(&**g),
            Expr::Unary(op, operand) => {
                let v = match self.evaluate(&**operand) {
                    Ok(v) => v,
                    Err(er) => {
                        return Err(er);
                    },
                };
                if op.ttype == TokenType::Minus {
                    match v {
                        Value::Number(n) => {
                            if n == i64::MIN {
                                self.fail(op.line, "Number out of range for unary -")
                            } else {
                                Ok(Value::Number(-n))
                            }
                        },
                        _ => self.fail(op.line, "Unsupported types for unary -"),
                    }
                } else if op.ttype == TokenType::Bang {
                    Ok(Value::Bool(!v.is_truthy()))
                } else {
                    self.fail(0, "Wrong unary operator")
                }
            },
            Expr::Binary(left, op, right) => {
                let lv = match self.evaluate(&**left) {
                    Ok(v) => v,
                    Err(er) => {
                        return Err(er);
                    },
                };
                let rv = match self.evaluate(&**right) {
                    Ok(v) => v,
                    Err(er) => {
                        return Err(er);
                    },
                };
                self.binary(lv, op, rv)
            },
        }
    }

    /// Executes one statement: the printed line its expression's value
    /// renders to.
    fn exec_stmt(&mut self, stmt: &Stmt) -> (r: Result<String, CompileError>)
        ensures
            match r {
                Ok(t) => stmt_out(stmt@) == Ok::<Seq<char>, CompileErrorModel>(t@),
                Err(e) => stmt_out(stmt@) == Err::<Seq<char>, CompileErrorModel>(e@),
            },
    {
        match stmt {
            Stmt::Expression(e) => {
                match self.evaluate(&**e) {
                    Ok(v) => Ok(v.to_text()),
                    Err(er) => Err(er),
                }
            },
        }
    }

    /// Executes the statements in order, collecting each one's printed
    /// line; the first diagnostic aborts the remaining statements.
    pub fn exec(&mut self, stmts: &[Stmt]) -> (r: Result<Vec<String>, CompileError>)
        ensures
            match r {
                Ok(outs) => exec_from(stmts_view(stmts@), 0) == Ok::<
                    Seq<Seq<char>>,
                    CompileErrorModel,
                >(texts_view(outs@)),
                Err(e) => exec_from(stmts_view(stmts@), 0) == Err::<
                    Seq<Seq<char>>,
                    CompileErrorModel,
                >(e@),
            },
    {
        let ghost ss = stmts_view(stmts@);
        let mut outs: Vec<String> = Vec::new();
        let mut i: usize = 0;
        proof {
            lemma_with_texts_nil(exec_from(ss, 0));
            assert(texts_view(outs@) =~= Seq::<Seq<char>>::empty());
        }
        while i < stmts.len()
            invariant
                i <= stmts@.len(),
                ss == stmts_view(stmts@),
                with_texts(texts_view(outs@), exec_from(ss, i as int)) == exec_from(ss, 0),
            decreases stmts@.len() - i,
        {
            let ghost pre_outs = outs@;
            proof {
                assert(ss[i as int] == stmts@[i as int]@);
            }
            let line = match self.exec_stmt(&stmts[i]) {
                Ok(t) => t,
                Err(er) => {
                    return Err(er);
                },
            };
            outs.push(line);
            i = i + 1;
            proof {
                let t = stmt_out(ss[i - 1])->Ok_0;
                assert(texts_view(outs@) =~= texts_view(pre_outs).push(t));
                match exec_from(ss, i as int) {
                    Ok(rest) => {
                        assert(texts_view(pre_outs) + (seq![t] + rest) =~= texts_view(
                            pre_outs,
                        ).push(t) + rest);
                    },
                    Err(_) => {
                    },
                }
            }
        }
        Ok(outs)
    }
}

} // verus!
