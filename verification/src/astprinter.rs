//! A debug rendering of an expression tree back to a source-like string:
//! each operator and operand by its text, with parentheses only where an
//! explicit grouping node stands. Number literals render canonically
//! (no leading zeros, no all-zero fractional part), string literals by
//! their content without quotes, every other token by its lexeme.
use vstd::prelude::*;

use crate::ast::{Expr, ExprModel};
use crate::errors::CompileErrorModel;
use crate::numerals::{
    all_digits, canonical_numeral, canonical_numeral_text, frac_part, int_part, is_digit,
    lemma_dot_from_all_digits, strip_leading_zeros, strip_trailing_zeros,
};
use crate::parser::{
    parse_all, parse_comparison, parse_comparison_rest, parse_equality, parse_equality_rest,
    parse_expression, parse_factor, parse_factor_rest, parse_primary, parse_term,
    parse_term_rest, parse_unary, StmtModel,
};
use crate::scanner::{lemma_digits_end_all, scan_from, scan_spec, tok};
use crate::text::push_char;
use crate::tokens::{Literal, LiteralModel, TokenModel, TokenType};

verus! {

/// The rendering's model.
pub open spec fn render(e: ExprModel) -> Seq<char>
    decreases e,
{
    match e {
        ExprModel::Identifier(t) => t.lexeme,
        ExprModel::Literal(t) => if t.ttype == TokenType::Number {
            match t.literal {
                Some(LiteralModel::Number(nm)) => canonical_numeral(nm),
                _ => t.lexeme,
            }
        } else if t.ttype == TokenType::Str {
            match t.literal {
                Some(LiteralModel::Str(sv)) => sv,
                _ => t.lexeme,
            }
        } else {
            t.lexeme
        },
        ExprModel::Grouping(g) => seq!['('] + render(*g) + seq![')'],
        ExprModel::Unary(t, e1) => t.lexeme + render(*e1),
        ExprModel::Binary(l, t, r) => render(*l) + t.lexeme + render(*r),
    }
}

/// Law (round trip, one record of it): a canonical integer numeral — a
/// nonempty run of digits without a leading zero, unless it is `0`
/// itself — scans to a single number literal statement, and rendering
/// that statement gives the source text back unchanged.
pub proof fn lemma_round_trip_integer_literal(s: Seq<char>)
    requires
        s.len() >= 1,
        all_digits(s),
        s.len() > 1 ==> s[0] != '0',
    ensures
        ({
            let toks = scan_spec(s)->Ok_0;
            let stmts = parse_all(toks, 0)->Ok_0;
            &&& scan_spec(s) is Ok
            &&& parse_all(toks, 0) is Ok
            &&& stmts.len() == 1
            &&& stmts[0] is Expression
            &&& render(stmts[0]->Expression_0) == s
        }),
{
    let n = s.len() as int;
    // scanning: the whole text is one maximal digit run, so the scan
    // yields exactly a number token and the end marker
    assert(is_digit(s[0]));
    lemma_digits_end_all(s, 1);
    assert(s.subrange(0, n) =~= s);
    let t = TokenModel {
        ttype: TokenType::Number,
        lexeme: s,
        literal: Some(LiteralModel::Number(s)),
        line: 1,
    };
    let eof = tok(TokenType::Eof, Seq::empty(), 1);
    assert(scan_from(s, n, 1) == Ok::<Seq<TokenModel>, CompileErrorModel>(seq![eof]));
    let toks = seq![t, eof];
    assert(seq![t] + seq![eof] =~= toks);
    assert(scan_spec(s) == Ok::<Seq<TokenModel>, CompileErrorModel>(toks));
    // parsing: one literal expression, then the end marker stops every
    // level of the grammar
    let e = ExprModel::Literal(t);
    let one = Ok::<(ExprModel, int), CompileErrorModel>((e, 1));
    assert(parse_primary(toks, 0) == one);
    assert(parse_unary(toks, 0) == one);
    assert(parse_factor_rest(toks, e, 1) == one);
    assert(parse_factor(toks, 0) == one);
    assert(parse_term_rest(toks, e, 1) == one);
    assert(parse_term(toks, 0) == one);
    assert(parse_comparison_rest(toks, e, 1) == one);
    assert(parse_comparison(toks, 0) == one);
    assert(parse_equality_rest(toks, e, 1) == one);
    assert(parse_equality(toks, 0) == one);
    assert(parse_expression(toks, 0) == one);
    assert(parse_all(toks, 1) == Ok::<Seq<StmtModel>, CompileErrorModel>(Seq::empty()));
    let stmts = seq![StmtModel::Expression(e)];
    assert(seq![StmtModel::Expression(e)] + Seq::<StmtModel>::empty() =~= stmts);
    assert(parse_all(toks, 0) == Ok::<Seq<StmtModel>, CompileErrorModel>(stmts));
    // rendering: the numeral is already canonical
    lemma_dot_from_all_digits(s, 0);
    assert(int_part(s) =~= s);
    assert(strip_leading_zeros(s) == s);
    assert(frac_part(s).len() == 0);
    assert(strip_trailing_zeros(frac_part(s)).len() == 0);
    assert(render(e) == canonical_numeral(s));
    assert(canonical_numeral(s) == s);
}

/// Renders an expression tree; the result is exactly the model's.
pub fn dump_ast(expr: &Expr) -> (r: String)
    ensures
        r@ == render(expr@),
    decreases expr,
{
    match expr {
        Expr::Identifier(t) => t.lexeme.clone(),
        Expr::Literal(t) => {
            if t.ttype == TokenType::Number {
                match &t.literal {
                    Some(Literal::Number(nm)) => canonical_numeral_text(nm),
                    _ => t.lexeme.clone(),
                }
            } else if t.ttype == TokenType::Str {
                match &t.literal {
                    Some(Literal::Str(sv)) => sv.clone(),
                    _ => t.lexeme.clone(),
                }
            } else {
                t.lexeme.clone()
            }
        },
        Expr::Grouping(e) => {
            let mut out = String::new();
            push_char(&mut out, '(');
            let inner = dump_ast(&**e);
            out.append(inner.as_str());
            push_char(&mut out, ')');
            proof {
                assert(out@ =~= seq!['('] + render((**e)@) + seq![')']);
            }
            out
        },
        Expr::Unary(t, e) => {
            let mut out = t.lexeme.clone();
            let inner = dump_ast(&**e);
            out.append(inner.as_str());
            out
        },
        Expr::Binary(l, t, r) => {
            let mut out = dump_ast(&**l);
            out.append(t.lexeme.as_str());
            let right = dump_ast(&**r);
            out.append(right.as_str());
            proof {
                assert(out@ =~= render((**l)@) + t.lexeme@ + render((**r)@));
            }
            out
        },
    }
}

} // verus!
