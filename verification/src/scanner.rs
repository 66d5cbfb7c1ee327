//! The lexical scanner: a single left-to-right pass that turns source text
//! into tokens, or fails at the first invalid lexeme. The executable
//! scanner is proved to return exactly what the recursive model
//! [`scan_from`] describes.
use vstd::prelude::*;

use crate::errors::{CompileError, CompileErrorModel, CompileErrorType, CompileErrorTypeModel};
use crate::numerals::is_digit;
use crate::text::chars_to_string;
use crate::tokens::{copy_tokens, tokens_view, Literal, LiteralModel, Token, TokenModel, TokenType};

verus! {

/// Whether `c` is an ASCII letter.
pub open spec fn is_alpha(c: char) -> bool {
    (97 <= c as u32 && c as u32 <= 122) || (65 <= c as u32 && c as u32 <= 90)
}

/// Whether `c` may continue an identifier: a letter, digit or underscore.
pub open spec fn is_ident_char(c: char) -> bool {
    is_alpha(c) || is_digit(c) || c == '_'
}

/// The first position at or after `i` holding a newline, or `s.len()`.
pub open spec fn comment_end(s: Seq<char>, i: int) -> int
    decreases s.len() - i,
{
    if i < 0 || i >= s.len() {
        s.len() as int
    } else if s[i] == '\n' {
        i
    } else {
        comment_end(s, i + 1)
    }
}

/// The first position at or after `i` holding a double quote, or `s.len()`.
pub open spec fn string_end(s: Seq<char>, i: int) -> int
    decreases s.len() - i,
{
    if i < 0 || i >= s.len() {
        s.len() as int
    } else if s[i] == '"' {
        i
    } else {
        string_end(s, i + 1)
    }
}

/// The first position at or after `i` holding a non-digit, or `s.len()`.
pub open spec fn digits_end(s: Seq<char>, i: int) -> int
    decreases s.len() - i,
{
    if 0 <= i < s.len() && is_digit(s[i]) {
        digits_end(s, i + 1)
    } else {
        i
    }
}

/// The first position at or after `i` where an identifier stops, or
/// `s.len()`.
pub open spec fn ident_end(s: Seq<char>, i: int) -> int
    decreases s.len() - i,
{
    if 0 <= i < s.len() && is_ident_char(s[i]) {
        ident_end(s, i + 1)
    } else {
        i
    }
}

/// How many newlines `s` holds in positions `from..to`.
pub open spec fn newlines_in(s: Seq<char>, from: int, to: int) -> int
    decreases to - from,
{
    if from >= to {
        0
    } else {
        newlines_in(s, from, to - 1) + if s[to - 1] == '\n' {
            1int
        } else {
            0int
        }
    }
}

pub proof fn lemma_comment_end_bounds(s: Seq<char>, i: int)
    requires
        0 <= i <= s.len(),
    ensures
        i <= comment_end(s, i) <= s.len(),
    decreases s.len() - i,
{
    if i < s.len() && s[i] != '\n' {
        lemma_comment_end_bounds(s, i + 1);
    }
}

pub proof fn lemma_string_end_bounds(s: Seq<char>, i: int)
    requires
        0 <= i <= s.len(),
    ensures
        i <= string_end(s, i) <= s.len(),
        string_end(s, i) < s.len() ==> s[string_end(s, i)] == '"',
    decreases s.len() - i,
{
    if i < s.len() && s[i] != '"' {
        lemma_string_end_bounds(s, i + 1);
    }
}

pub proof fn lemma_digits_end_bounds(s: Seq<char>, i: int)
    requires
        0 <= i <= s.len(),
    ensures
        i <= digits_end(s, i) <= s.len(),
        forall|k: int| i <= k < digits_end(s, i) ==> is_digit(#[trigger] s[k]),
    decreases s.len() - i,
{
    if i < s.len() && is_digit(s[i]) {
        lemma_digits_end_bounds(s, i + 1);
    }
}

pub proof fn lemma_ident_end_bounds(s: Seq<char>, i: int)
    requires
        0 <= i <= s.len(),
    ensures
        i <= ident_end(s, i) <= s.len(),
        forall|k: int| i <= k < ident_end(s, i) ==> is_ident_char(#[trigger] s[k]),
    decreases s.len() - i,
{
    if i < s.len() && is_ident_char(s[i]) {
        lemma_ident_end_bounds(s, i + 1);
    }
}

/// A run that is digits to the end scans as one maximal digit run.
pub proof fn lemma_digits_end_all(s: Seq<char>, i: int)
    requires
        0 <= i <= s.len(),
        forall|k: int| i <= k < s.len() ==> is_digit(#[trigger] s[k]),
    ensures
        digits_end(s, i) == s.len(),
    decreases s.len() - i,
{
    if i < s.len() {
        lemma_digits_end_all(s, i + 1);
    }
}

/// The kind a reserved word scans to, or `Identifier` for any other name.
pub open spec fn keyword_kind(l: Seq<char>) -> TokenType {
    if l == "and"@ {
        TokenType::And
    } else if l == "class"@ {
        TokenType::Class
    } else if l == "else"@ {
        TokenType::Else
    } else if l == "false"@ {
        TokenType::False
    } else if l == "for"@ {
        TokenType::For
    } else if l == "fun"@ {
        TokenType::Fun
    } else if l == "if"@ {
        TokenType::If
    } else if l == "nil"@ {
        TokenType::Nil
    } else if l == "or"@ {
        TokenType::Or
    } else if l == "print"@ {
        TokenType::Print
    } else if l == "return"@ {
        TokenType::Return
    } else if l == "super"@ {
        TokenType::Super
    } else if l == "this"@ {
        TokenType::This
    } else if l == "true"@ {
        TokenType::True
    } else if l == "var"@ {
        TokenType::Var
    } else if l == "while"@ {
        TokenType::While
    } else {
        TokenType::Identifier
    }
}

/// The kind of a one- or two-character operator token. A lone `=` scans to
/// `Bang`: the `Equal` kind is part of the vocabulary but is deliberately
/// never produced, matching the language's established behaviour.
pub open spec fn one_two_kind(c: char, two: bool) -> TokenType {
    if c == '!' {
        if two {
            TokenType::BangEqual
        } else {
            TokenType::Bang
        }
    } else if c == '=' {
        if two {
            TokenType::EqualEqual
        } else {
            TokenType::Bang
        }
    } else if c == '<' {
        if two {
            TokenType::LessEqual
        } else {
            TokenType::Less
        }
    } else {
        if two {
            TokenType::GreaterEqual
        } else {
            TokenType::Greater
        }
    }
}

/// A token model without a literal payload.
pub open spec fn tok(ttype: TokenType, lexeme: Seq<char>, line: int) -> TokenModel {
    TokenModel { ttype, lexeme, literal: None, line }
}

/// A scanner diagnostic model: no context text.
pub open spec fn scan_err(err: CompileErrorTypeModel, line: int) -> CompileErrorModel {
    CompileErrorModel { err, line, text: None }
}

/// Prepends already-produced tokens to the outcome of scanning the rest.
pub open spec fn with_toks(
    ts: Seq<TokenModel>,
    r: Result<Seq<TokenModel>, CompileErrorModel>,
) -> Result<Seq<TokenModel>, CompileErrorModel> {
    match r {
        Ok(rest) => Ok(ts + rest),
        Err(e) => Err(e),
    }
}

pub proof fn lemma_with_toks_nil(r: Result<Seq<TokenModel>, CompileErrorModel>)
    ensures
        with_toks(Seq::empty(), r) == r,
{
    match r {
        Ok(ts) => {
            assert(Seq::empty() + ts =~= ts);
        },
        Err(_) => {
        },
    }
}

pub proof fn lemma_with_toks_assoc(
    a: Seq<TokenModel>,
    b: Seq<TokenModel>,
    r: Result<Seq<TokenModel>, CompileErrorModel>,
)
    ensures
        with_toks(a, with_toks(b, r)) == with_toks(a + b, r),
{
    match r {
        Ok(ts) => {
            assert(a + (b + ts) =~= (a + b) + ts);
        },
        Err(_) => {
        },
    }
}

/// Whether a lexeme is free of a comment opener: no two consecutive
/// slashes stand in it.
pub open spec fn free_of_comment(lex: Seq<char>) -> bool {
    forall|k: int| 0 <= k < lex.len() - 1 ==> !((#[trigger] lex[k]) == '/' && lex[k + 1] == '/')
}

/// What holds of every token sequence a successful scan yields: exactly
/// one end-of-input token, standing last; and no token spans a comment —
/// every token but a string literal (which may quote anything) is free
/// of a comment opener in its text.
pub open spec fn wf_token_seq(r: Seq<TokenModel>) -> bool {
    &&& r.len() >= 1
    &&& r[r.len() - 1].ttype == TokenType::Eof
    &&& (forall|j: int| 0 <= j < r.len() - 1 ==> (#[trigger] r[j]).ttype != TokenType::Eof)
    &&& (forall|j: int|
        0 <= j < r.len() ==> (#[trigger] r[j]).ttype == TokenType::Str || free_of_comment(
            r[j].lexeme,
        ))
}

/// Prepending one well-behaved token keeps a scan outcome well formed.
proof fn lemma_wf_cons(t: TokenModel, inner: Result<Seq<TokenModel>, CompileErrorModel>)
    requires
        t.ttype != TokenType::Eof,
        t.ttype == TokenType::Str || free_of_comment(t.lexeme),
        inner matches Ok(rr) ==> wf_token_seq(rr),
    ensures
        with_toks(seq![t], inner) matches Ok(r) ==> wf_token_seq(r),
{
    match inner {
        Ok(rr) => {
            let r = seq![t] + rr;
            assert(r[r.len() - 1] == rr[rr.len() - 1]);
            assert forall|j: int| 0 <= j < r.len() - 1 implies (#[trigger] r[j]).ttype
                != TokenType::Eof by {
                if j > 0 {
                    assert(r[j] == rr[j - 1]);
                }
            }
            assert forall|j: int| 0 <= j < r.len() implies (#[trigger] r[j]).ttype
                == TokenType::Str || free_of_comment(r[j].lexeme) by {
                if j > 0 {
                    assert(r[j] == rr[j - 1]);
                }
            }
        },
        Err(_) => {
        },
    }
}

/// Law: when the model scans successfully from any position, the token
/// sequence it yields is well formed: it ends in exactly one
/// end-of-input token, and no token's text spans a comment.
pub proof fn lemma_scan_from_wf(s: Seq<char>, i: int, line: int)
    ensures
        scan_from(s, i, line) matches Ok(r) ==> wf_token_seq(r),
    decreases s.len() - i,
{
    if i < 0 || i >= s.len() {
        let r = seq![tok(TokenType::Eof, Seq::empty(), line)];
        assert(wf_token_seq(r));
    } else {
        let c = s[i];
        if single_kind(c) is Some || (c == '/' && !(i + 1 < s.len() && s[i + 1] == '/')) {
            let kind = if c == '/' {
                TokenType::Slash
            } else {
                single_kind(c)->0
            };
            let t = tok(kind, s.subrange(i, i + 1), line);
            lemma_scan_from_wf(s, i + 1, line);
            lemma_wf_cons(t, scan_from(s, i + 1, line));
        } else if c == '!' || c == '=' || c == '<' || c == '>' {
            let two = i + 1 < s.len() && s[i + 1] == '=';
            let j = if two {
                i + 2
            } else {
                i + 1
            };
            let t = tok(one_two_kind(c, two), s.subrange(i, j), line);
            assert(t.lexeme[0] == c);
            assert(free_of_comment(t.lexeme));
            lemma_scan_from_wf(s, j, line);
            lemma_wf_cons(t, scan_from(s, j, line));
        } else if c == '/' {
            lemma_comment_end_bounds(s, i + 2);
            lemma_scan_from_wf(s, comment_end(s, i + 2), line);
        } else if c == ' ' || c == '\r' || c == '\t' {
            lemma_scan_from_wf(s, i + 1, line);
        } else if c == '\n' {
            lemma_scan_from_wf(s, i + 1, line + 1);
        } else if c == '"' {
            let e = string_end(s, i + 1);
            let nl = newlines_in(s, i + 1, e);
            lemma_string_end_bounds(s, i + 1);
            if e < s.len() {
                let t = TokenModel {
                    ttype: TokenType::Str,
                    lexeme: s.subrange(i, e + 1),
                    literal: Some(LiteralModel::Str(s.subrange(i + 1, e))),
                    line: line + nl,
                };
                lemma_scan_from_wf(s, e + 1, line + nl);
                lemma_wf_cons(t, scan_from(s, e + 1, line + nl));
            }
        } else if is_digit(c) {
            let de = digits_end(s, i + 1);
            lemma_digits_end_bounds(s, i + 1);
            if de < s.len() && de + 1 <= s.len() {
                lemma_digits_end_bounds(s, de + 1);
            }
            let end = if de < s.len() && s[de] == '.' && de + 1 < s.len() && is_digit(
                s[de + 1],
            ) {
                digits_end(s, de + 1)
            } else {
                de
            };
            let t = TokenModel {
                ttype: TokenType::Number,
                lexeme: s.subrange(i, end),
                literal: Some(LiteralModel::Number(s.subrange(i, end))),
                line,
            };
            assert forall|k: int| 0 <= k < t.lexeme.len() implies (#[trigger] t.lexeme[k])
                != '/' by {
                assert(t.lexeme[k] == s[i + k]);
                assert(is_digit(s[i + k]) || s[i + k] == '.');
            }
            assert(free_of_comment(t.lexeme));
            lemma_scan_from_wf(s, end, line);
            lemma_wf_cons(t, scan_from(s, end, line));
        } else if is_alpha(c) || c == '_' {
            let e = ident_end(s, i + 1);
            lemma_ident_end_bounds(s, i + 1);
            let t = tok(keyword_kind(s.subrange(i, e)), s.subrange(i, e), line);
            assert forall|k: int| 0 <= k < t.lexeme.len() implies (#[trigger] t.lexeme[k])
                != '/' by {
                assert(t.lexeme[k] == s[i + k]);
                if k > 0 {
                    assert(is_ident_char(s[i + k]));
                }
            }
            assert(t.ttype != TokenType::Eof);
            assert(free_of_comment(t.lexeme));
            lemma_scan_from_wf(s, e, line);
            lemma_wf_cons(t, scan_from(s, e, line));
        }
    }
}

/// Law: a whole successful scan yields a well-formed token sequence —
/// exactly one end-of-input token, standing last, and no token whose
/// text spans a comment.
pub proof fn lemma_scan_well_formed(source: Seq<char>)
    ensures
        scan_spec(source) matches Ok(r) ==> wf_token_seq(r),
{
    lemma_scan_from_wf(source, 0, 1);
}

/// The scanner's model: the tokens of `s` from position `i` on, with the
/// current 1-based line number `line`, ending in a single `Eof` token; or
/// the first diagnostic. One recursive step consumes one lexeme (or one
/// character of whitespace, or one whole comment).
pub open spec fn scan_from(s: Seq<char>, i: int, line: int) -> Result<
    Seq<TokenModel>,
    CompileErrorModel,
>
    decreases s.len() - i,
{
    if i < 0 || i >= s.len() {
        Ok(seq![tok(TokenType::Eof, Seq::empty(), line)])
    } else {
        let c = s[i];
        if c == '(' {
            with_toks(
                seq![tok(TokenType::LeftParen, s.subrange(i, i + 1), line)],
                scan_from(s, i + 1, line),
            )
        } else if c == ')' {
            with_toks(
                seq![tok(TokenType::RightParen, s.subrange(i, i + 1), line)],
                scan_from(s, i + 1, line),
            )
        } else if c == '{' {
            with_toks(
                seq![tok(TokenType::LeftBrace, s.subrange(i, i + 1), line)],
                scan_from(s, i + 1, line),
            )
        } else if c == '}' {
            with_toks(
                seq![tok(TokenType::RightBrace, s.subrange(i, i + 1), line)],
                scan_from(s, i + 1, line),
            )
        } else if c == ',' {
            with_toks(
                seq![tok(TokenType::Comma, s.subrange(i, i + 1), line)],
                scan_from(s, i + 1, line),
            )
        } else if c == '.' {
            with_toks(
                seq![tok(TokenType::Dot, s.subrange(i, i + 1), line)],
                scan_from(s, i + 1, line),
            )
        } else if c == '-' {
            with_toks(
                seq![tok(TokenType::Minus, s.subrange(i, i + 1), line)],
                scan_from(s, i + 1, line),
            )
        } else if c == '+' {
            with_toks(
                seq![tok(TokenType::Plus, s.subrange(i, i + 1), line)],
                scan_from(s, i + 1, line),
            )
        } else if c == ';' {
            with_toks(
                seq![tok(TokenType::Semicolon, s.subrange(i, i + 1), line)],
                scan_from(s, i + 1, line),
            )
        } else if c == '*' {
            with_toks(
                seq![tok(TokenType::Star, s.subrange(i, i + 1), line)],
                scan_from(s, i + 1, line),
            )
        } else if c == '!' || c == '=' || c == '<' || c == '>' {
            let two = i + 1 < s.len() && s[i + 1] == '=';
            let j = if two {
                i + 2
            } else {
                i + 1
            };
            with_toks(
                seq![tok(one_two_kind(c, two), s.subrange(i, j), line)],
                scan_from(s, j, line),
            )
        } else if c == '/' {
            if i + 1 < s.len() && s[i + 1] == '/' {
                proof {
                    lemma_comment_end_bounds(s, i + 2);
                }
                scan_from(s, comment_end(s, i + 2), line)
            } else {
                with_toks(
                    seq![tok(TokenType::Slash, s.subrange(i, i + 1), line)],
                    scan_from(s, i + 1, line),
                )
            }
        } else if c == ' ' || c == '\r' || c == '\t' {
            scan_from(s, i + 1, line)
        } else if c == '\n' {
            scan_from(s, i + 1, line + 1)
        } else if c == '"' {
            let e = string_end(s, i + 1);
            let nl = newlines_in(s, i + 1, e);
            proof {
                lemma_string_end_bounds(s, i + 1);
            }
            if e >= s.len() {
                Err(scan_err(CompileErrorTypeModel::UnterminatedString, line + nl))
            } else {
                with_toks(
                    seq![
                        TokenModel {
                            ttype: TokenType::Str,
                            lexeme: s.subrange(i, e + 1),
                            literal: Some(LiteralModel::Str(s.subrange(i + 1, e))),
                            line: line + nl,
                        },
                    ],
                    scan_from(s, e + 1, line + nl),
                )
            }
        } else if is_digit(c) {
            let de = digits_end(s, i + 1);
            proof {
                lemma_digits_end_bounds(s, i + 1);
                if de < s.len() && de + 1 <= s.len() {
                    lemma_digits_end_bounds(s, de + 1);
                }
            }
            let end = if de < s.len() && s[de] == '.' && de + 1 < s.len() && is_digit(
                s[de + 1],
            ) {
                digits_end(s, de + 1)
            } else {
                de
            };
            with_toks(
                seq![
                    TokenModel {
                        ttype: TokenType::Number,
                        lexeme: s.subrange(i, end),
                        literal: Some(LiteralModel::Number(s.subrange(i, end))),
                        line,
                    },
                ],
                scan_from(s, end, line),
            )
        } else if is_alpha(c) || c == '_' {
            let e = ident_end(s, i + 1);
            proof {
                lemma_ident_end_bounds(s, i + 1);
            }
            with_toks(
                seq![tok(keyword_kind(s.subrange(i, e)), s.subrange(i, e), line)],
                scan_from(s, e, line),
            )
        } else {
            Err(scan_err(CompileErrorTypeModel::UnexpectedChar(c), line))
        }
    }
}

/// The model of scanning a whole source text.
pub open spec fn scan_spec(s: Seq<char>) -> Result<Seq<TokenModel>, CompileErrorModel> {
    scan_from(s, 0, 1)
}

/// The model of an optional literal payload.
pub open spec fn opt_literal_view(l: Option<Literal>) -> Option<LiteralModel> {
    match l {
        Some(x) => Some(x@),
        None => None,
    }
}

fn is_digit_char(c: char) -> (r: bool)
    ensures
        r == is_digit(c),
{
    let v: u32 = c as u32;
    48 <= v && v <= 57
}

fn is_alpha_char(c: char) -> (r: bool)
    ensures
        r == is_alpha(c),
{
    let v: u32 = c as u32;
    (97 <= v && v <= 122) || (65 <= v && v <= 90)
}

fn is_ident_char_at(c: char) -> (r: bool)
    ensures
        r == is_ident_char(c),
{
    is_alpha_char(c) || is_digit_char(c) || c == '_'
}

/// Looks an identifier's text up in the keyword table.
fn keyword_or_identifier(lex: &String) -> (t: TokenType)
    ensures
        t == keyword_kind(lex@),
{
    if *lex == String::from_str("and") {
        TokenType::And
    } else if *lex == String::from_str("class") {
        TokenType::Class
    } else if *lex == String::from_str("else") {
        TokenType::Else
    } else if *lex == String::from_str("false") {
        TokenType::False
    } else if *lex == String::from_str("for") {
        TokenType::For
    } else if *lex == String::from_str("fun") {
        TokenType::Fun
    } else if *lex == String::from_str("if") {
        TokenType::If
    } else if *lex == String::from_str("nil") {
        TokenType::Nil
    } else if *lex == String::from_str("or") {
        TokenType::Or
    } else if *lex == String::from_str("print") {
        TokenType::Print
    } else if *lex == String::from_str("return") {
        TokenType::Return
    } else if *lex == String::from_str("super") {
        TokenType::Super
    } else if *lex == String::from_str("this") {
        TokenType::This
    } else if *lex == String::from_str("true") {
        TokenType::True
    } else if *lex == String::from_str("var") {
        TokenType::Var
    } else if *lex == String::from_str("while") {
        TokenType::While
    } else {
        TokenType::Identifier
    }
}

fn one_two_token(c: char, two: bool) -> (t: TokenType)
    ensures
        t == one_two_kind(c, two),
{
    if c == '!' {
        if two {
            TokenType::BangEqual
        } else {
            TokenType::Bang
        }
    } else if c == '=' {
        if two {
            TokenType::EqualEqual
        } else {
            TokenType::Bang
        }
    } else if c == '<' {
        if two {
            TokenType::LessEqual
        } else {
            TokenType::Less
        }
    } else {
        if two {
            TokenType::GreaterEqual
        } else {
            TokenType::Greater
        }
    }
}

/// The kind of a token a lone punctuation character scans to, if any.
pub open spec fn single_kind(c: char) -> Option<TokenType> {
    if c == '(' {
        Some(TokenType::LeftParen)
    } else if c == ')' {
        Some(TokenType::RightParen)
    } else if c == '{' {
        Some(TokenType::LeftBrace)
    } else if c == '}' {
        Some(TokenType::RightBrace)
    } else if c == ',' {
        Some(TokenType::Comma)
    } else if c == '.' {
        Some(TokenType::Dot)
    } else if c == '-' {
        Some(TokenType::Minus)
    } else if c == '+' {
        Some(TokenType::Plus)
    } else if c == ';' {
        Some(TokenType::Semicolon)
    } else if c == '*' {
        Some(TokenType::Star)
    } else {
        None
    }
}

fn single_token_kind(c: char) -> (r: Option<TokenType>)
    ensures
        r == single_kind(c),
{
    if c == '(' {
        Some(TokenType::LeftParen)
    } else if c == ')' {
        Some(TokenType::RightParen)
    } else if c == '{' {
        Some(TokenType::LeftBrace)
    } else if c == '}' {
        Some(TokenType::RightBrace)
    } else if c == ',' {
        Some(TokenType::Comma)
    } else if c == '.' {
        Some(TokenType::Dot)
    } else if c == '-' {
        Some(TokenType::Minus)
    } else if c == '+' {
        Some(TokenType::Plus)
    } else if c == ';' {
        Some(TokenType::Semicolon)
    } else if c == '*' {
        Some(TokenType::Star)
    } else {
        None
    }
}

/// The scanner's state: the source characters, the start of the lexeme
/// being scanned, the scan position, the 1-based line counter and the
/// tokens produced so far.
pub struct Scanner {
    pub src: Vec<char>,
    pub start: usize,
    pub current: usize,
    pub line: usize,
    pub tokens: Vec<Token>,
}

impl Scanner {
    /// The scanner's internal invariant.
    pub open spec fn wf(&self) -> bool {
        &&& self.start <= self.current <= self.src@.len()
        &&& self.src@.len() < usize::MAX
        &&& 1 <= self.line
        &&& self.line as int <= self.current as int + 1
    }

    /// Builds a scanner over a copy of the source characters. The source
    /// must leave room for the line counter, which the machine keeps in a
    /// word.
    pub fn new(source: &str) -> (s: Scanner)
        requires
            source@.len() < usize::MAX,
        ensures
            s.wf(),
            s.src@ == source@,
            s.start == 0,
            s.current == 0,
            s.line == 1,
            s.tokens@.len() == 0,
    {
        let n = source.unicode_len();
        let mut src: Vec<char> = Vec::new();
        let mut i: usize = 0;
        proof {
            assert(src@ =~= source@.subrange(0, 0));
        }
        while i < n
            invariant
                i <= n == source@.len(),
                src@ == source@.subrange(0, i as int),
            decreases n - i,
        {
            let c = source.get_char(i);
            src.push(c);
            i = i + 1;
            proof {
                assert(src@ =~= source@.subrange(0, i as int));
            }
        }
        proof {
            assert(src@ =~= source@);
        }
        Scanner { src, start: 0, current: 0, line: 1, tokens: Vec::new() }
    }

    /// Appends one token for the current lexeme.
    fn add_token_with_literal(&mut self, ttype: TokenType, literal: Option<Literal>)
        requires
            old(self).wf(),
        ensures
            final(self).wf(),
            final(self).src@ == old(self).src@,
            final(self).start == old(self).start,
            final(self).current == old(self).current,
            final(self).line == old(self).line,
            final(self).tokens@.len() == old(self).tokens@.len() + 1,
            tokens_view(final(self).tokens@) == tokens_view(old(self).tokens@).push(
                TokenModel {
                    ttype,
                    lexeme: old(self).src@.subrange(
                        old(self).start as int,
                        old(self).current as int,
                    ),
                    literal: opt_literal_view(literal),
                    line: old(self).line as int,
                },
            ),
    {
        let lexeme = chars_to_string(&self.src, self.start, self.current);
        let line = self.line;
        let ghost expected = TokenModel {
            ttype,
            lexeme: self.src@.subrange(self.start as int, self.current as int),
            literal: opt_literal_view(literal),
            line: self.line as int,
        };
        self.tokens.push(Token { ttype, lexeme, literal, line });
        proof {
            assert(tokens_view(self.tokens@) =~= tokens_view(old(self).tokens@).push(expected));
        }
    }

    fn add_token(&mut self, ttype: TokenType)
        requires
            old(self).wf(),
        ensures
            final(self).wf(),
            final(self).src@ == old(self).src@,
            final(self).start == old(self).start,
            final(self).current == old(self).current,
            final(self).line == old(self).line,
            final(self).tokens@.len() == old(self).tokens@.len() + 1,
            tokens_view(final(self).tokens@) == tokens_view(old(self).tokens@).push(
                tok(
                    ttype,
                    old(self).src@.subrange(old(self).start as int, old(self).current as int),
                    old(self).line as int,
                ),
            ),
    {
        self.add_token_with_literal(ttype, None);
    }

    /// Consumes the next character when it equals `expected`.
    fn advance_if_match(&mut self, expected: char) -> (r: bool)
        requires
            old(self).wf(),
        ensures
            final(self).wf(),
            final(self).src@ == old(self).src@,
            final(self).start == old(self).start,
            final(self).line == old(self).line,
            tokens_view(final(self).tokens@) == tokens_view(old(self).tokens@),
            r == (old(self).current < old(self).src@.len() && old(self).src@[old(
                self,
            ).current as int] == expected),
            final(self).current as int == if r {
                old(self).current as int + 1
            } else {
                old(self).current as int
            },
    {
        if self.current >= self.src.len() {
            return false;
        }
        let c = self.src[self.current];
        if c != expected {
            return false;
        }
        self.current = self.current + 1;
        true
    }

    /// Scans the remainder of a string literal; the opening quote has just
    /// been consumed. Embedded newlines advance the line counter; reaching
    /// the end of input first is an error.
    fn scan_string(&mut self) -> (r: Result<(), CompileError>)
        requires
            old(self).wf(),
            old(self).start + 1 == old(self).current,
            old(self).src@[old(self).start as int] == '"',
        ensures
            final(self).wf(),
            final(self).src@ == old(self).src@,
            final(self).start == old(self).start,
            final(self).current > old(self).start,
            ({
                let s = old(self).src@;
                let i = old(self).start as int;
                let e = string_end(s, i + 1);
                let nl = newlines_in(s, i + 1, e);
                match r {
                    Ok(()) => {
                        &&& e < s.len()
                        &&& final(self).current as int == e + 1
                        &&& final(self).line as int == old(self).line as int + nl
                        &&& tokens_view(final(self).tokens@) == tokens_view(
                            old(self).tokens@,
                        ).push(
                            TokenModel {
                                ttype: TokenType::Str,
                                lexeme: s.subrange(i, e + 1),
                                literal: Some(LiteralModel::Str(s.subrange(i + 1, e))),
                                line: old(self).line as int + nl,
                            },
                        )
                    },
                    Err(err) => {
                        &&& e >= s.len()
                        &&& err@ == scan_err(
                            CompileErrorTypeModel::UnterminatedString,
                            old(self).line as int + nl,
                        )
                        &&& tokens_view(final(self).tokens@) == tokens_view(old(self).tokens@)
                    },
                }
            }),
    {
        let ghost s = old(self).src@;
        let ghost i = old(self).start as int;
        loop
            invariant
                self.wf(),
                self.src@ == s,
                self.start == old(self).start,
                self.start + 1 <= self.current,
                i == self.start as int,
                string_end(s, i + 1) == string_end(s, self.current as int),
                self.line as int == old(self).line as int + newlines_in(
                    s,
                    i + 1,
                    self.current as int,
                ),
                tokens_view(self.tokens@) == tokens_view(old(self).tokens@),
            ensures
                self.wf(),
                self.src@ == s,
                self.start == old(self).start,
                self.start + 1 <= self.current,
                string_end(s, i + 1) == string_end(s, self.current as int),
                self.line as int == old(self).line as int + newlines_in(
                    s,
                    i + 1,
                    self.current as int,
                ),
                tokens_view(self.tokens@) == tokens_view(old(self).tokens@),
                self.current as int == s.len() || s[self.current as int] == '"',
            decreases s.len() - self.current,
        {
            if self.current >= self.src.len() {
                break ;
            }
            let c = self.src[self.current];
            if c == '"' {
                break ;
            }
            if c == '\n' {
                self.line = self.line + 1;
            }
            self.current = self.current + 1;
        }
        if self.current >= self.src.len() {
            proof {
                assert(string_end(s, i + 1) == s.len() as int);
            }
            return Err(
                CompileError {
                    err: CompileErrorType::UnterminatedString,
                    line: self.line,
                    text: None,
                },
            );
        }
        // the closing quote
        proof {
            assert(string_end(s, i + 1) == self.current as int);
        }
        self.current = self.current + 1;
        let content = chars_to_string(&self.src, self.start + 1, self.current - 1);
        self.add_token_with_literal(TokenType::Str, Some(Literal::Str(content)));
        Ok(())
    }

    /// Scans the remainder of a number literal; the first digit has just
    /// been consumed: the rest of a digit run, then optionally a dot
    /// followed by a required digit and a fractional run.
    fn scan_number(&mut self)
        requires
            old(self).wf(),
            old(self).start + 1 == old(self).current,
            is_digit(old(self).src@[old(self).start as int]),
        ensures
            final(self).wf(),
            final(self).src@ == old(self).src@,
            final(self).start == old(self).start,
            final(self).line == old(self).line,
            final(self).current > old(self).start,
            ({
                let s = old(self).src@;
                let i = old(self).start as int;
                let de = digits_end(s, i + 1);
                let end = if de < s.len() && s[de] == '.' && de + 1 < s.len() && is_digit(
                    s[de + 1],
                ) {
                    digits_end(s, de + 1)
                } else {
                    de
                };
                &&& final(self).current as int == end
                &&& tokens_view(final(self).tokens@) == tokens_view(old(self).tokens@).push(
                    TokenModel {
                        ttype: TokenType::Number,
                        lexeme: s.subrange(i, end),
                        literal: Some(LiteralModel::Number(s.subrange(i, end))),
                        line: old(self).line as int,
                    },
                )
            }),
    {
        let ghost s = old(self).src@;
        let ghost i = old(self).start as int;
        loop
            invariant
                self.wf(),
                self.src@ == s,
                self.start == old(self).start,
                self.start + 1 <= self.current,
                self.line == old(self).line,
                i == self.start as int,
                digits_end(s, i + 1) == digits_end(s, self.current as int),
                tokens_view(self.tokens@) == tokens_view(old(self).tokens@),
            ensures
                self.wf(),
                self.src@ == s,
                self.start == old(self).start,
                self.start + 1 <= self.current,
                self.line == old(self).line,
                tokens_view(self.tokens@) == tokens_view(old(self).tokens@),
                self.current as int == digits_end(s, i + 1),
            decreases s.len() - self.current,
        {
            if self.current >= self.src.len() {
                break ;
            }
            let c = self.src[self.current];
            if !is_digit_char(c) {
                break ;
            }
            self.current = self.current + 1;
        }
        if self.current < self.src.len() && self.src[self.current] == '.' {
            if self.current + 1 < self.src.len() && is_digit_char(self.src[self.current + 1]) {
                let ghost de = self.current as int;
                self.current = self.current + 1;
                loop
                    invariant
                        self.wf(),
                        self.src@ == s,
                        self.start == old(self).start,
                        self.start + 1 <= self.current,
                        self.line == old(self).line,
                        i == self.start as int,
                        de == digits_end(s, i + 1),
                        de + 1 <= self.current as int,
                        digits_end(s, de + 1) == digits_end(s, self.current as int),
                        tokens_view(self.tokens@) == tokens_view(old(self).tokens@),
                    ensures
                        self.wf(),
                        self.src@ == s,
                        self.start == old(self).start,
                        self.start + 1 <= self.current,
                        self.line == old(self).line,
                        tokens_view(self.tokens@) == tokens_view(old(self).tokens@),
                        self.current as int == digits_end(s, de + 1),
                    decreases s.len() - self.current,
                {
                    if self.current >= self.src.len() {
                        break ;
                    }
                    let c = self.src[self.current];
                    if !is_digit_char(c) {
                        break ;
                    }
                    self.current = self.current + 1;
                }
            }
        }
        let text = chars_to_string(&self.src, self.start, self.current);
        self.add_token_with_literal(TokenType::Number, Some(Literal::Number(text)));
    }

    /// Scans the remainder of an identifier or keyword; its first character
    /// has just been consumed.
    fn scan_identifier(&mut self)
        requires
            old(self).wf(),
            old(self).start + 1 == old(self).current,
        ensures
            final(self).wf(),
            final(self).src@ == old(self).src@,
            final(self).start == old(self).start,
            final(self).line == old(self).line,
            final(self).current > old(self).start,
            ({
                let s = old(self).src@;
                let i = old(self).start as int;
                let e = ident_end(s, i + 1);
                &&& final(self).current as int == e
                &&& tokens_view(final(self).tokens@) == tokens_view(old(self).tokens@).push(
                    tok(keyword_kind(s.subrange(i, e)), s.subrange(i, e), old(self).line as int),
                )
            }),
    {
        let ghost s = old(self).src@;
        let ghost i = old(self).start as int;
        loop
            invariant
                self.wf(),
                self.src@ == s,
                self.start == old(self).start,
                self.start + 1 <= self.current,
                self.line == old(self).line,
                i == self.start as int,
                ident_end(s, i + 1) == ident_end(s, self.current as int),
                tokens_view(self.tokens@) == tokens_view(old(self).tokens@),
            ensures
                self.wf(),
                self.src@ == s,
                self.start == old(self).start,
                self.start + 1 <= self.current,
                self.line == old(self).line,
                tokens_view(self.tokens@) == tokens_view(old(self).tokens@),
                self.current as int == ident_end(s, i + 1),
            decreases s.len() - self.current,
        {
            if self.current >= self.src.len() {
                break ;
            }
            let c = self.src[self.current];
            if !is_ident_char_at(c) {
                break ;
            }
            self.current = self.current + 1;
        }
        let lexeme = chars_to_string(&self.src, self.start, self.current);
        let kind = keyword_or_identifier(&lexeme);
        self.add_token(kind);
    }

    /// Scans one lexeme starting at the current position: it either
    /// appends the tokens the model prescribes for that lexeme (none for
    /// whitespace or a comment) and advances past it, or returns the
    /// diagnostic the model prescribes.
    fn scan_token(&mut self) -> (r: Result<(), CompileError>)
        requires
            old(self).wf(),
            old(self).current < old(self).src@.len(),
        ensures
            final(self).wf(),
            final(self).src@ == old(self).src@,
            final(self).current > old(self).current,
            match r {
                Ok(()) => ({
                    &&& old(self).tokens@.len() <= final(self).tokens@.len()
                    &&& tokens_view(final(self).tokens@).subrange(
                        0,
                        old(self).tokens@.len() as int,
                    ) == tokens_view(old(self).tokens@)
                    &&& scan_from(
                        old(self).src@,
                        old(self).current as int,
                        old(self).line as int,
                    ) == with_toks(
                        tokens_view(final(self).tokens@).subrange(
                            old(self).tokens@.len() as int,
                            final(self).tokens@.len() as int,
                        ),
                        scan_from(
                            final(self).src@,
                            final(self).current as int,
                            final(self).line as int,
                        ),
                    )
                    &&& forall|j: int|
                        old(self).tokens@.len() <= j < final(self).tokens@.len() ==> (
                        #[trigger] tokens_view(final(self).tokens@)[j]).ttype != TokenType::Eof
                }),
                Err(e) => ({
                    &&& scan_from(
                        old(self).src@,
                        old(self).current as int,
                        old(self).line as int,
                    ) == Err::<Seq<TokenModel>, CompileErrorModel>(e@)
                    &&& tokens_view(final(self).tokens@) == tokens_view(old(self).tokens@)
                }),
            },
    {
        let ghost s = old(self).src@;
        let ghost i = old(self).current as int;
        let ghost line0 = old(self).line as int;
        let ghost n0 = old(self).tokens@.len() as int;
        self.start = self.current;
        let c = self.src[self.current];
        self.current = self.current + 1;
        if let Some(k) = single_token_kind(c) {
            self.add_token(k);
            proof {
                let t = tok(k, s.subrange(i, i + 1), line0);
                assert(tokens_view(self.tokens@).subrange(0, n0) =~= tokens_view(
                    old(self).tokens@,
                ));
                assert(tokens_view(self.tokens@).subrange(n0, n0 + 1) =~= seq![t]);
                assert(scan_from(s, i, line0) == with_toks(
                    seq![t],
                    scan_from(s, i + 1, line0),
                ));
            }
            Ok(())
        } else if c == '!' || c == '=' || c == '<' || c == '>' {
            let two = self.advance_if_match('=');
            let kind = one_two_token(c, two);
            self.add_token(kind);
            proof {
                let j = if two {
                    i + 2
                } else {
                    i + 1
                };
                let t = tok(one_two_kind(c, two), s.subrange(i, j), line0);
                assert(tokens_view(self.tokens@).subrange(0, n0) =~= tokens_view(
                    old(self).tokens@,
                ));
                assert(tokens_view(self.tokens@).subrange(n0, n0 + 1) =~= seq![t]);
                assert(scan_from(s, i, line0) == with_toks(seq![t], scan_from(s, j, line0)));
            }
            Ok(())
        } else if c == '/' {
            let second = self.advance_if_match('/');
            if second {
                loop
                    invariant
                        self.wf(),
                        self.src@ == s,
                        i + 2 <= self.current as int,
                        self.line as int == line0,
                        comment_end(s, i + 2) == comment_end(s, self.current as int),
                        tokens_view(self.tokens@) == tokens_view(old(self).tokens@),
                    ensures
                        self.wf(),
                        self.src@ == s,
                        i + 2 <= self.current as int,
                        self.line as int == line0,
                        tokens_view(self.tokens@) == tokens_view(old(self).tokens@),
                        self.current as int == comment_end(s, i + 2),
                    decreases s.len() - self.current,
                {
                    if self.current >= self.src.len() {
                        break ;
                    }
                    let ch = self.src[self.current];
                    if ch == '\n' {
                        break ;
                    }
                    self.current = self.current + 1;
                }
                proof {
                    assert(tokens_view(self.tokens@).subrange(n0, n0)
                        =~= Seq::<TokenModel>::empty());
                    lemma_with_toks_nil(scan_from(s, self.current as int, line0));
                    assert(scan_from(s, i, line0) == scan_from(s, comment_end(s, i + 2), line0));
                }
                Ok(())
            } else {
                self.add_token(TokenType::Slash);
                proof {
                    let t = tok(TokenType::Slash, s.subrange(i, i + 1), line0);
                    assert(tokens_view(self.tokens@).subrange(0, n0) =~= tokens_view(
                        old(self).tokens@,
                    ));
                    assert(tokens_view(self.tokens@).subrange(n0, n0 + 1) =~= seq![t]);
                    assert(scan_from(s, i, line0) == with_toks(
                        seq![t],
                        scan_from(s, i + 1, line0),
                    ));
                }
                Ok(())
            }
        } else if c == ' ' || c == '\r' || c == '\t' {
            proof {
                assert(tokens_view(self.tokens@).subrange(n0, n0) =~= Seq::<TokenModel>::empty());
                lemma_with_toks_nil(scan_from(s, i + 1, line0));
            }
            Ok(())
        } else if c == '\n' {
            self.line = self.line + 1;
            proof {
                assert(tokens_view(self.tokens@).subrange(n0, n0) =~= Seq::<TokenModel>::empty());
                lemma_with_toks_nil(scan_from(s, i + 1, line0 + 1));
            }
            Ok(())
        } else if c == '"' {
            match self.scan_string() {
                Ok(()) => {
                    proof {
                        let e = string_end(s, i + 1);
                        let nl = newlines_in(s, i + 1, e);
                        let t = TokenModel {
                            ttype: TokenType::Str,
                            lexeme: s.subrange(i, e + 1),
                            literal: Some(LiteralModel::Str(s.subrange(i + 1, e))),
                            line: line0 + nl,
                        };
                        assert(tokens_view(self.tokens@).subrange(0, n0) =~= tokens_view(
                            old(self).tokens@,
                        ));
                        assert(tokens_view(self.tokens@).subrange(n0, n0 + 1) =~= seq![t]);
                        assert(scan_from(s, i, line0) == with_toks(
                            seq![t],
                            scan_from(s, e + 1, line0 + nl),
                        ));
                    }
                    Ok(())
                },
                Err(e) => {
                    proof {
                        assert(scan_from(s, i, line0) == Err::<
                            Seq<TokenModel>,
                            CompileErrorModel,
                        >(e@));
                    }
                    Err(e)
                },
            }
        } else if is_digit_char(c) {
            self.scan_number();
            proof {
                let de = digits_end(s, i + 1);
                let end = if de < s.len() && s[de] == '.' && de + 1 < s.len() && is_digit(
                    s[de + 1],
                ) {
                    digits_end(s, de + 1)
                } else {
                    de
                };
                let t = TokenModel {
                    ttype: TokenType::Number,
                    lexeme: s.subrange(i, end),
                    literal: Some(LiteralModel::Number(s.subrange(i, end))),
                    line: line0,
                };
                assert(tokens_view(self.tokens@).subrange(0, n0) =~= tokens_view(
                    old(self).tokens@,
                ));
                assert(tokens_view(self.tokens@).subrange(n0, n0 + 1) =~= seq![t]);
                assert(scan_from(s, i, line0) == with_toks(seq![t], scan_from(s, end, line0)));
            }
            Ok(())
        } else if is_alpha_char(c) || c == '_' {
            self.scan_identifier();
            proof {
                let e = ident_end(s, i + 1);
                let t = tok(keyword_kind(s.subrange(i, e)), s.subrange(i, e), line0);
                assert(tokens_view(self.tokens@).subrange(0, n0) =~= tokens_view(
                    old(self).tokens@,
                ));
                assert(tokens_view(self.tokens@).subrange(n0, n0 + 1) =~= seq![t]);
                assert(scan_from(s, i, line0) == with_toks(seq![t], scan_from(s, e, line0)));
            }
            Ok(())
        } else {
            let err = CompileError {
                err: CompileErrorType::UnexpectedChar(c),
                line: self.line,
                text: None,
            };
            proof {
                assert(scan_from(s, i, line0) == Err::<Seq<TokenModel>, CompileErrorModel>(
                    scan_err(CompileErrorTypeModel::UnexpectedChar(c), line0),
                ));
                assert(err@ == scan_err(CompileErrorTypeModel::UnexpectedChar(c), line0));
            }
            Err(err)
        }
    }

    /// Scans the whole source: on success the token sequence the model
    /// prescribes, ending in exactly one `Eof` token; otherwise the first
    /// diagnostic.
    #[verifier::loop_isolation(false)]
    pub fn scan_tokens(&mut self) -> (r: Result<Vec<Token>, CompileError>)
        requires
            old(self).wf(),
            old(self).current == 0,
            old(self).line == 1,
            old(self).tokens@.len() == 0,
        ensures
            final(self).wf(),
            final(self).src@ == old(self).src@,
            match r {
                Ok(toks) => ({
                    &&& scan_spec(old(self).src@) == Ok::<Seq<TokenModel>, CompileErrorModel>(
                        tokens_view(toks@),
                    )
                    &&& toks@.len() >= 1
                    &&& toks@[toks@.len() - 1].ttype == TokenType::Eof
                    &&& forall|j: int|
                        0 <= j < toks@.len() - 1 ==> (#[trigger] toks@[j].ttype)
                            != TokenType::Eof
                }),
                Err(e) => scan_spec(old(self).src@) == Err::<Seq<TokenModel>, CompileErrorModel>(
                    e@,
                ),
            },
    {
        let ghost s = old(self).src@;
        while self.current < self.src.len()
            invariant
                self.wf(),
                self.src@ == s,
                with_toks(
                    tokens_view(self.tokens@),
                    scan_from(s, self.current as int, self.line as int),
                ) == scan_spec(s),
                forall|j: int|
                    0 <= j < self.tokens@.len() ==> (#[trigger] tokens_view(self.tokens@)[j]).ttype
                        != TokenType::Eof,
            decreases s.len() - self.current,
        {
            let ghost pre = *self;
            self.start = self.current;
            match self.scan_token() {
                Ok(()) => {
                    proof {
                        let delta = tokens_view(self.tokens@).subrange(
                            pre.tokens@.len() as int,
                            self.tokens@.len() as int,
                        );
                        lemma_with_toks_assoc(
                            tokens_view(pre.tokens@),
                            delta,
                            scan_from(s, self.current as int, self.line as int),
                        );
                        assert(tokens_view(pre.tokens@) + delta =~= tokens_view(self.tokens@));
                    }
                },
                Err(e) => {
                    return Err(e);
                },
            }
        }
        self.start = self.current;
        let ghost line_end = self.line as int;
        let ghost before = tokens_view(self.tokens@);
        self.add_token(TokenType::Eof);
        let out = copy_tokens(&self.tokens);
        proof {
            let eof_t = tok(TokenType::Eof, Seq::empty(), line_end);
            assert(s.subrange(s.len() as int, s.len() as int) =~= Seq::<char>::empty());
            assert(tokens_view(self.tokens@) =~= before + seq![eof_t]);
            assert(scan_spec(s) == Ok::<Seq<TokenModel>, CompileErrorModel>(
                before + seq![eof_t],
            ));
            assert(tokens_view(out@) =~= tokens_view(self.tokens@));
            assert forall|j: int| 0 <= j < out@.len() - 1 implies (#[trigger] out@[j].ttype)
                != TokenType::Eof by {
                assert(out@[j]@ == tokens_view(out@)[j]);
                assert(tokens_view(out@)[j] == before[j]);
            }
            let n = out@.len() as int;
            assert(tokens_view(out@)[n - 1] == (before + seq![eof_t])[n - 1]);
            assert(out@[n - 1]@ == tokens_view(out@)[n - 1]);
            assert(out@[n - 1].ttype == TokenType::Eof);
        }
        Ok(out)
    }
}

} // verus!
