//! The token vocabulary of the language: token kinds, literal payloads and
//! the tokens the scanner produces, together with their mathematical models.
use vstd::prelude::*;

verus! {

/// The closed set of token kinds: punctuation, one- and two-character
/// operators, literal kinds, the reserved keywords and the end marker.
#[derive(Debug, Clone, Copy, PartialEq, Eq, Structural)]
pub enum TokenType {
    LeftParen,
    RightParen,
    LeftBrace,
    RightBrace,
    Comma,
    Dot,
    Minus,
    Plus,
    Semicolon,
    Slash,
    Star,
    Bang,
    BangEqual,
    Equal,
    EqualEqual,
    Greater,
    GreaterEqual,
    Less,
    LessEqual,
    Identifier,
    Str,
    Number,
    And,
    Class,
    Else,
    False,
    Fun,
    For,
    If,
    Nil,
    Or,
    Print,
    Return,
    Super,
    This,
    True,
    Var,
    While,
    Eof,
}

/// A literal value attached to a literal token. A number literal keeps the
/// exact digits it was scanned from (an integer part and an optional
/// fractional part); the evaluator later interprets those digits.
#[derive(Debug)]
pub enum Literal {
    Nil,
    Boolean(bool),
    Number(String),
    Str(String),
}

/// The mathematical model of a `Literal`: the same shape over `Seq<char>`.
#[verifier::ext_equal]
pub enum LiteralModel {
    Nil,
    Boolean(bool),
    Number(Seq<char>),
    Str(Seq<char>),
}

impl View for Literal {
    type V = LiteralModel;

    open spec fn view(&self) -> LiteralModel {
        match self {
            Literal::Nil => LiteralModel::Nil,
            Literal::Boolean(b) => LiteralModel::Boolean(*b),
            Literal::Number(s) => LiteralModel::Number(s@),
            Literal::Str(s) => LiteralModel::Str(s@),
        }
    }
}

impl Literal {
    /// An explicit deep copy; the model of the copy equals the original's.
    pub fn duplicate(&self) -> (r: Literal)
        ensures
            r@ == self@,
    {
        match self {
            Literal::Nil => Literal::Nil,
            Literal::Boolean(b) => Literal::Boolean(*b),
            Literal::Number(s) => Literal::Number(s.clone()),
            Literal::Str(s) => Literal::Str(s.clone()),
        }
    }
}

/// A token: its kind, the exact source text it was scanned from, an optional
/// literal payload, and the 1-based source line it starts on (for an
/// end-of-input token, the line scanning ended on).
#[derive(Debug)]
pub struct Token {
    pub ttype: TokenType,
    pub lexeme: String,
    pub literal: Option<Literal>,
    pub line: usize,
}

/// The mathematical model of a `Token`.
#[verifier::ext_equal]
pub struct TokenModel {
    pub ttype: TokenType,
    pub lexeme: Seq<char>,
    pub literal: Option<LiteralModel>,
    pub line: int,
}

impl View for Token {
    type V = TokenModel;

    open spec fn view(&self) -> TokenModel {
        TokenModel {
            ttype: self.ttype,
            lexeme: self.lexeme@,
            literal: match self.literal {
                Some(l) => Some(l@),
                None => None,
            },
            line: self.line as int,
        }
    }
}

impl Token {
    /// An explicit deep copy; the model of the copy equals the original's.
    pub fn duplicate(&self) -> (r: Token)
        ensures
            r@ == self@,
    {
        Token {
            ttype: self.ttype,
            lexeme: self.lexeme.clone(),
            literal: match &self.literal {
                Some(l) => Some(l.duplicate()),
                None => None,
            },
            line: self.line,
        }
    }
}

/// The models of a sequence of tokens, in order.
pub open spec fn tokens_view(ts: Seq<Token>) -> Seq<TokenModel> {
    ts.map_values(|t: Token| t@)
}

/// An element-by-element copy of a token vector; the copy's models equal
/// the originals'.
pub fn copy_tokens(v: &Vec<Token>) -> (r: Vec<Token>)
    ensures
        r@.len() == v@.len(),
        tokens_view(r@) == tokens_view(v@),
{
    let mut r: Vec<Token> = Vec::new();
    let mut i: usize = 0;
    while i < v.len()
        invariant
            i <= v@.len(),
            r@.len() == i,
            forall|j: int| 0 <= j < i as int ==> (#[trigger] r@[j])@ == v@[j]@,
        decreases v@.len() - i,
    {
        let t = v[i].duplicate();
        r.push(t);
        i = i + 1;
    }
    proof {
        assert(tokens_view(r@) =~= tokens_view(v@));
    }
    r
}

} // verus!
