//! The expression tree the parser produces: a recursive sum type in which
//! every composite node owns its children outright.
use vstd::prelude::*;

use crate::tokens::{Token, TokenModel};

verus! {

/// An expression: an identifier, a literal, a parenthesized group, a
/// prefix operator application or a binary operator application.
#[derive(Debug)]
pub enum Expr {
    Identifier(Token),
    Literal(Token),
    Grouping(Box<Expr>),
    Unary(Token, Box<Expr>),
    Binary(Box<Expr>, Token, Box<Expr>),
}

/// The mathematical model of an expression.
#[verifier::ext_equal]
pub enum ExprModel {
    Identifier(TokenModel),
    Literal(TokenModel),
    Grouping(Box<ExprModel>),
    Unary(TokenModel, Box<ExprModel>),
    Binary(Box<ExprModel>, TokenModel, Box<ExprModel>),
}

impl View for Expr {
    type V = ExprModel;

    open spec fn view(&self) -> ExprModel
        decreases self,
    {
        match self {
            Expr::Identifier(t) => ExprModel::Identifier(t@),
            Expr::Literal(t) => ExprModel::Literal(t@),
            Expr::Grouping(e) => ExprModel::Grouping(Box::new((**e)@)),
            Expr::Unary(t, e) => ExprModel::Unary(t@, Box::new((**e)@)),
            Expr::Binary(l, t, r) => ExprModel::Binary(Box::new((**l)@), t@, Box::new((**r)@)),
        }
    }
}

impl Expr {
    /// An explicit deep copy; the model of the copy equals the original's.
    pub fn duplicate(&self) -> (r: Expr)
        ensures
            r@ == self@,
        decreases self,
    {
        match self {
            Expr::Identifier(t) => Expr::Identifier(t.duplicate()),
            Expr::Literal(t) => Expr::Literal(t.duplicate()),
            Expr::Grouping(e) => Expr::Grouping(Box::new(e.duplicate())),
            Expr::Unary(t, e) => Expr::Unary(t.duplicate(), Box::new(e.duplicate())),
            Expr::Binary(l, t, r) => Expr::Binary(
                Box::new(l.duplicate()),
                t.duplicate(),
                Box::new(r.duplicate()),
            ),
        }
    }
}

} // verus!
