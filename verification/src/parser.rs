//! Recursive-descent parsing: a token sequence to a precedence-layered
//! syntax tree.
//!
//! The grammar, precedence low to high:
//!
//! ```text
//! Program  -> Statement
//! Statement -> Expr
//! Expr     -> Multiply (('+' | '-') Expr)?
//! Multiply -> Term (('*' | '/') Multiply)?
//! Term     -> IntegerLiteral
//! ```
//!
//! Each layer parses one unit of the next-higher layer as its left operand,
//! then peeks one token: the layer's own operator leads to a recursive parse
//! of the *same* layer for the right side, anything else wraps the left
//! operand in the layer's pass-through variant.  The right child of a binary
//! node is therefore a full same-layer subtree, so `a - b - c` parses as
//! `Sub(a, Sub(b, c))` — a right-leaning chain, kept exactly as the grammar
//! prescribes.  Trailing tokens after a complete expression are ignored.

use crate::tokenizer::Token;
use vstd::prelude::*;

verus! {

/// The root of the syntax tree.  The `Assignment` variant is a reserved
/// grammar placeholder: the parser never constructs it and code generation
/// refuses it.
#[derive(Debug, PartialEq)]
pub enum Program {
    Assignment(LValue),
    Statement(Statement),
}

/// The target of the reserved assignment production; never produced by the
/// parser.
#[derive(Debug, Clone, PartialEq)]
pub enum LValue {
    Identifier(String),
}

/// A statement is a bare expression.
#[derive(Debug, PartialEq)]
pub enum Statement {
    Expr(Expr),
}

/// The additive layer: the right child of `Add`/`Sub` is a full additive
/// subtree, the left child one multiplicative unit.
#[derive(Debug, PartialEq)]
pub enum Expr {
    Add(Multiply, Box<Expr>),
    Sub(Multiply, Box<Expr>),
    Multiply(Multiply),
}

/// The multiplicative layer: the right child of `Mul`/`Div` is a full
/// multiplicative subtree, the left child one leaf term.
#[derive(Debug, PartialEq)]
pub enum Multiply {
    Mul(Term, Box<Multiply>),
    Div(Term, Box<Multiply>),
    Term(Term),
}

/// The leaf layer: an integer literal.
#[derive(Debug, Clone, Copy, PartialEq)]
pub enum Term {
    Int64(i64),
}

/// The ways parsing can fail: a token that is not valid in the current
/// grammar position, or a token required where the stream is exhausted.
#[derive(Debug, Clone, Copy, PartialEq)]
pub enum ParseError {
    UnexpectedToken(Token),
    UnexpectedEOF,
}

/// What parsing one leaf term at `pos` returns: the literal and the position
/// right after it, an `UnexpectedToken` error on any other token, and an
/// `UnexpectedEOF` error past the end of the stream.
pub open spec fn spec_parse_term(tokens: Seq<Token>, pos: int) -> Result<(Term, int), ParseError>
    recommends
        0 <= pos,
{
    if pos < tokens.len() {
        match tokens[pos] {
            Token::Int64(v) => Ok((Term::Int64(v), pos + 1)),
            t => Err(ParseError::UnexpectedToken(t)),
        }
    } else {
        Err(ParseError::UnexpectedEOF)
    }
}

/// What parsing one multiplicative subtree at `pos` returns: a term, then,
/// if a `*` or `/` follows, the whole rest of the multiplicative chain as
/// the right child; otherwise the term wrapped in the pass-through variant.
pub open spec fn spec_parse_multiply(tokens: Seq<Token>, pos: int) -> Result<
    (Multiply, int),
    ParseError,
>
    recommends
        0 <= pos,
    decreases tokens.len() - pos,
{
    match spec_parse_term(tokens, pos) {
        Err(e) => Err(e),
        Ok((lhs, p)) => {
            if p < tokens.len() && tokens[p] == Token::Asterisk {
                match spec_parse_multiply(tokens, p + 1) {
                    Ok((rhs, q)) => Ok((Multiply::Mul(lhs, Box::new(rhs)), q)),
                    Err(e) => Err(e),
                }
            } else if p < tokens.len() && tokens[p] == Token::Slash {
                match spec_parse_multiply(tokens, p + 1) {
                    Ok((rhs, q)) => Ok((Multiply::Div(lhs, Box::new(rhs)), q)),
                    Err(e) => Err(e),
                }
            } else {
                Ok((Multiply::Term(lhs), p))
            }
        },
    }
}

/// A successful multiplicative parse consumes at least one token and never
/// runs past the end of the stream.
pub proof fn lemma_parse_multiply_advances(tokens: Seq<Token>, pos: int)
    ensures
        spec_parse_multiply(tokens, pos) matches Ok(mp) ==> pos < mp.1 <= tokens.len(),
    decreases tokens.len() - pos,
{
    match spec_parse_term(tokens, pos) {
        Err(_) => {},
        Ok((lhs, p)) => {
            if p < tokens.len() && (tokens[p] == Token::Asterisk || tokens[p] == Token::Slash) {
                lemma_parse_multiply_advances(tokens, p + 1);
            }
        },
    }
}

/// What parsing one additive subtree at `pos` returns: a multiplicative
/// unit, then, if a `+` or `-` follows, the whole rest of the additive chain
/// as the right child; otherwise the unit wrapped in the pass-through
/// variant.
pub open spec fn spec_parse_expr(tokens: Seq<Token>, pos: int) -> Result<(Expr, int), ParseError>
    recommends
        0 <= pos,
    decreases tokens.len() - pos,
    via spec_parse_expr_decreases
{
    match spec_parse_multiply(tokens, pos) {
        Err(e) => Err(e),
        Ok((lhs, p)) => {
            if p < tokens.len() && tokens[p] == Token::Plus {
                match spec_parse_expr(tokens, p + 1) {
                    Ok((rhs, q)) => Ok((Expr::Add(lhs, Box::new(rhs)), q)),
                    Err(e) => Err(e),
                }
            } else if p < tokens.len() && tokens[p] == Token::Minus {
                match spec_parse_expr(tokens, p + 1) {
                    Ok((rhs, q)) => Ok((Expr::Sub(lhs, Box::new(rhs)), q)),
                    Err(e) => Err(e),
                }
            } else {
                Ok((Expr::Multiply(lhs), p))
            }
        },
    }
}

#[via_fn]
proof fn spec_parse_expr_decreases(tokens: Seq<Token>, pos: int) {
    lemma_parse_multiply_advances(tokens, pos);
}

/// What parsing a whole program at `pos` returns: one additive expression,
/// wrapped as a statement.
pub open spec fn spec_parse_program(tokens: Seq<Token>, pos: int) -> Result<
    (Program, int),
    ParseError,
>
    recommends
        0 <= pos,
{
    match spec_parse_expr(tokens, pos) {
        Ok((e, p)) => Ok((Program::Statement(Statement::Expr(e)), p)),
        Err(e) => Err(e),
    }
}

/// What parsing the whole token sequence returns.  Tokens left over after
/// one complete expression are ignored.
pub open spec fn spec_parse(tokens: Seq<Token>) -> Result<Program, ParseError> {
    match spec_parse_program(tokens, 0) {
        Ok((prog, _)) => Ok(prog),
        Err(e) => Err(e),
    }
}

fn parse_term(tokens: &[Token], pos: &mut usize) -> (r: Result<Term, ParseError>)
    requires
        *old(pos) <= tokens@.len(),
    ensures
        (match spec_parse_term(tokens@, *old(pos) as int) {
            Ok(tp) => r == Ok::<Term, ParseError>(tp.0) && *final(pos) == tp.1,
            Err(e) => r == Err::<Term, ParseError>(e) && *final(pos) == *old(pos),
        }),
{
    if *pos < tokens.len() {
        let t = tokens[*pos];
        match t {
            Token::Int64(v) => {
                *pos = *pos + 1;
                Ok(Term::Int64(v))
            },
            _ => Err(ParseError::UnexpectedToken(t)),
        }
    } else {
        Err(ParseError::UnexpectedEOF)
    }
}

fn parse_multiply(tokens: &[Token], pos: &mut usize) -> (r: Result<Multiply, ParseError>)
    requires
        *old(pos) <= tokens@.len(),
    ensures
        (match spec_parse_multiply(tokens@, *old(pos) as int) {
            Ok(mp) => r == Ok::<Multiply, ParseError>(mp.0) && *final(pos) == mp.1,
            Err(e) => r == Err::<Multiply, ParseError>(e),
        }),
    decreases tokens@.len() - *old(pos),
{
    proof {
        lemma_parse_multiply_advances(tokens@, *old(pos) as int);
    }
    let lhs = match parse_term(tokens, pos) {
        Ok(t) => t,
        Err(e) => {
            return Err(e);
        },
    };
    if *pos < tokens.len() {
        let t = tokens[*pos];
        match t {
            Token::Asterisk => {
                *pos = *pos + 1;
                match parse_multiply(tokens, pos) {
                    Ok(rhs) => Ok(Multiply::Mul(lhs, Box::new(rhs))),
                    Err(e) => Err(e),
                }
            },
            Token::Slash => {
                *pos = *pos + 1;
                match parse_multiply(tokens, pos) {
                    Ok(rhs) => Ok(Multiply::Div(lhs, Box::new(rhs))),
                    Err(e) => Err(e),
                }
            },
            _ => Ok(Multiply::Term(lhs)),
        }
    } else {
        Ok(Multiply::Term(lhs))
    }
}

fn parse_expr(tokens: &[Token], pos: &mut usize) -> (r: Result<Expr, ParseError>)
    requires
        *old(pos) <= tokens@.len(),
    ensures
        (match spec_parse_expr(tokens@, *old(pos) as int) {
            Ok(ep) => r == Ok::<Expr, ParseError>(ep.0) && *final(pos) == ep.1,
            Err(e) => r == Err::<Expr, ParseError>(e),
        }),
    decreases tokens@.len() - *old(pos),
{
    proof {
        lemma_parse_multiply_advances(tokens@, *old(pos) as int);
    }
    let lhs = match parse_multiply(tokens, pos) {
        Ok(m) => m,
        Err(e) => {
            return Err(e);
        },
    };
    if *pos < tokens.len() {
        let t = tokens[*pos];
        match t {
            Token::Plus => {
                *pos = *pos + 1;
                match parse_expr(tokens, pos) {
                    Ok(rhs) => Ok(Expr::Add(lhs, Box::new(rhs))),
                    Err(e) => Err(e),
                }
            },
            Token::Minus => {
                *pos = *pos + 1;
                match parse_expr(tokens, pos) {
                    Ok(rhs) => Ok(Expr::Sub(lhs, Box::new(rhs))),
                    Err(e) => Err(e),
                }
            },
            _ => Ok(Expr::Multiply(lhs)),
        }
    } else {
        Ok(Expr::Multiply(lhs))
    }
}

fn parse_program(tokens: &[Token], pos: &mut usize) -> (r: Result<Program, ParseError>)
    requires
        *old(pos) <= tokens@.len(),
    ensures
        (match spec_parse_program(tokens@, *old(pos) as int) {
            Ok(pp) => r == Ok::<Program, ParseError>(pp.0) && *final(pos) == pp.1,
            Err(e) => r == Err::<Program, ParseError>(e),
        }),
{
    let result = match parse_expr(tokens, pos) {
        Ok(e) => Program::Statement(Statement::Expr(e)),
        Err(e) => {
            return Err(e);
        },
    };
    Ok(result)
}

/// Parsing a single integer literal token yields a program whose
/// expression is the pass-through wrap of that literal at every layer.
pub proof fn lemma_parse_single_literal(v: i64)
    ensures
        spec_parse(seq![Token::Int64(v)]) == Ok::<Program, ParseError>(
            Program::Statement(Statement::Expr(Expr::Multiply(Multiply::Term(Term::Int64(v))))),
        ),
{
}

/// Multiplication binds tighter than addition: a literal, a `+`, and a
/// two-literal `*` chain parse with the whole multiplicative chain nested
/// as the right side of the additive node.
pub proof fn lemma_parse_precedence(a: i64, b: i64, c: i64)
    ensures
        spec_parse(
            seq![
                Token::Int64(a),
                Token::Plus,
                Token::Int64(b),
                Token::Asterisk,
                Token::Int64(c),
            ],
        ) == Ok::<Program, ParseError>(
            Program::Statement(
                Statement::Expr(
                    Expr::Add(
                        Multiply::Term(Term::Int64(a)),
                        Box::new(
                            Expr::Multiply(
                                Multiply::Mul(
                                    Term::Int64(b),
                                    Box::new(Multiply::Term(Term::Int64(c))),
                                ),
                            ),
                        ),
                    ),
                ),
            ),
        ),
{
    reveal_with_fuel(spec_parse_expr, 3);
    reveal_with_fuel(spec_parse_multiply, 3);
}

/// Parses the token sequence into a syntax tree, returning exactly what
/// [`spec_parse`] says: the program, or the first error encountered.
pub fn parse(tokens: &[Token]) -> (r: Result<Program, ParseError>)
    ensures
        r == spec_parse(tokens@),
{
    let mut pos: usize = 0;
    parse_program(tokens, &mut pos)
}

} // verus!
