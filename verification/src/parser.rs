//! The parser: recursive-descent statements with Pratt-style expressions.
//!
//! Parsing halts on the first error. On success the returned program
//! satisfies the structural invariants of the language: every `break` and
//! `continue` stands inside a `while` body, and every function declaration
//! stands at program top level. On failure the error's span lies within
//! the bounds of the source that was tokenised.

use vstd::prelude::*;

use crate::ast::{
    expr_abs,
    expr_valid,
    exprs_valid,
    exprs_abs,
    lemma_exprs_abs_push,
    lemma_exprs_valid_push,
    lemma_params_abs_push,
    lemma_stmts_abs_push,
    lemma_stmts_valid_push,
    param_abs,
    params_abs,
    spec_valid_type_name,
    stmt_abs,
    stmts_abs,
    SpExpr,
    SpParam,
    SpStmt,
    stmt_valid,
    stmts_valid,
    Expression,
    Op,
    Parameter,
    Program,
    Statement,
    Type,
};
use crate::lexer::Lexer;
use crate::token::{Span, Token, TokenKind};

verus! {

/// What went wrong, as the driver reports it.
#[derive(Debug, Clone, PartialEq)]
pub enum ParserErrorType {
    UnexpectedToken(TokenKind, Option<TokenKind>),
    ExpectedIdentifier,
    InvalidBreakableScope,
    InvalidContinuableScope,
    NestedFunctionDefinition,
}

/// A parse error: the line and span of the offending token, and its kind.
#[derive(Debug, Clone, PartialEq)]
pub struct ParserError {
    pub line: usize,
    pub span: Span,
    pub err: ParserErrorType,
}

/// Every token's span is ordered and ends within `bound`.
pub open spec fn toks_bounded(toks: Seq<Token>, bound: int) -> bool {
    forall|i: int|
        0 <= i < toks.len() ==> (#[trigger] toks[i]).span.0 <= toks[i].span.1 && toks[i].span.1
            <= bound
}

/// The error's span is ordered and ends within `bound`.
pub open spec fn err_in(e: ParserError, bound: int) -> bool {
    e.span.0 <= e.span.1 && e.span.1 <= bound
}

/// A position returned by a sub-parse, held to the range a caller knows
/// it lies in: `p` itself when `lo <= p <= hi`, else `hi`. Every
/// sub-parse ends after its start and within the tokens, so the held
/// value is always `p`; the bound makes the recursion below well-founded.
pub open spec fn padv(p: int, lo: int, hi: int) -> int {
    if lo <= p && p <= hi {
        p
    } else {
        hi
    }
}

/// The error the parser reports for an unexpected token at `cur`, or for
/// the end of the input.
pub open spec fn sp_unexpected(toks: Seq<Token>, cur: int, expected: Option<TokenKind>) -> ParserError {
    if 0 <= cur < toks.len() {
        ParserError {
            line: toks[cur].line,
            span: toks[cur].span,
            err: ParserErrorType::UnexpectedToken(toks[cur].kind, expected),
        }
    } else if toks.len() > 0 {
        ParserError {
            line: toks[toks.len() - 1].line,
            span: toks[toks.len() - 1].span,
            err: ParserErrorType::UnexpectedToken(toks[toks.len() - 1].kind, expected),
        }
    } else {
        ParserError {
            line: 1,
            span: Span(0, 0),
            err: ParserErrorType::UnexpectedToken(TokenKind::Eof, expected),
        }
    }
}

/// An error of the given kind at the token at `cur`.
pub open spec fn sp_err_at(toks: Seq<Token>, cur: int, err: ParserErrorType) -> ParserError {
    ParserError { line: toks[cur].line, span: toks[cur].span, err }
}

/// One semicolon at `cur` is stepped over.
pub open spec fn sp_skip_semi(toks: Seq<Token>, cur: int) -> int {
    if 0 <= cur < toks.len() && toks[cur].kind is Semicolon {
        cur + 1
    } else {
        cur
    }
}

/// The type annotation parse at `pos`: an identifier naming one of the
/// three valid type names, or the error reported.
pub open spec fn sp_type(toks: Seq<Token>, pos: int) -> Result<(Type, int), ParserError> {
    if !(0 <= pos < toks.len()) {
        Err(sp_unexpected(toks, pos, None))
    } else {
        match toks[pos].kind {
            TokenKind::Identifier(s) => if spec_valid_type_name(s@) {
                Ok(
                    (
                        if s@ == "string"@ {
                            Type::String
                        } else if s@ == "bool"@ {
                            Type::Bool
                        } else {
                            Type::Number
                        },
                        pos + 1,
                    ),
                )
            } else {
                Err(sp_unexpected(toks, pos, None))
            },
            _ => Err(sp_err_at(toks, pos, ParserErrorType::ExpectedIdentifier)),
        }
    }
}

/// The parameter-list parse, from its `(`.
pub open spec fn sp_params(toks: Seq<Token>, pos: int) -> Result<(Seq<SpParam>, int), ParserError> {
    if 0 <= pos < toks.len() && toks[pos].kind is LeftParen {
        sp_params_rest(toks, Seq::empty(), pos + 1)
    } else {
        Err(sp_unexpected(toks, pos, Some(TokenKind::LeftParen)))
    }
}

/// The parameter-list parse after `acc` parameters, at `cur`: a closing
/// `)`, or one more `name` with its optional `: type`.
pub open spec fn sp_params_rest(toks: Seq<Token>, acc: Seq<SpParam>, cur: int) -> Result<
    (Seq<SpParam>, int),
    ParserError,
>
    decreases toks.len() - cur, 1int,
{
    if !(0 <= cur < toks.len()) {
        Err(sp_unexpected(toks, cur, Some(TokenKind::RightParen)))
    } else if toks[cur].kind is RightParen {
        Ok((acc, cur + 1))
    } else {
        match toks[cur].kind {
            TokenKind::Identifier(s) => if cur + 1 < toks.len() && toks[cur + 1].kind is Colon {
                match sp_type(toks, cur + 2) {
                    Ok(tp) => sp_params_fin(
                        toks,
                        acc.push(SpParam { name: s@, ty: Some(tp.0) }),
                        padv(tp.1, cur + 3, toks.len() as int),
                    ),
                    Err(e) => Err(e),
                }
            } else {
                sp_params_fin(toks, acc.push(SpParam { name: s@, ty: None }), cur + 1)
            },
            _ => Err(sp_err_at(toks, cur, ParserErrorType::ExpectedIdentifier)),
        }
    }
}

/// After one parameter: a `,` continues the list, a `)` closes it.
pub open spec fn sp_params_fin(toks: Seq<Token>, acc: Seq<SpParam>, cur: int) -> Result<
    (Seq<SpParam>, int),
    ParserError,
>
    decreases toks.len() - cur, 0int,
{
    if 0 <= cur < toks.len() && toks[cur].kind is Comma {
        sp_params_rest(toks, acc, cur + 1)
    } else if 0 <= cur < toks.len() && toks[cur].kind is RightParen {
        Ok((acc, cur + 1))
    } else {
        Err(sp_unexpected(toks, cur, Some(TokenKind::RightParen)))
    }
}

/// The whole-program parse: every statement of the token stream, in
/// order, or the first error.
pub open spec fn sp_program(toks: Seq<Token>) -> Result<Seq<SpStmt>, ParserError> {
    sp_program_rest(toks, Seq::empty(), 0)
}

/// The program parse after `acc` statements, from `pos`.
pub open spec fn sp_program_rest(toks: Seq<Token>, acc: Seq<SpStmt>, pos: int) -> Result<
    Seq<SpStmt>,
    ParserError,
>
    decreases toks.len() - pos, 5int,
{
    if !(0 <= pos < toks.len()) {
        Ok(acc)
    } else {
        match sp_statement(toks, pos, false, true) {
            Ok(sp) => sp_program_rest(toks, acc.push(sp.0), padv(sp.1, pos + 1, toks.len() as int)),
            Err(e) => Err(e),
        }
    }
}

/// The statement parse at `pos`: which statement each leading token
/// begins, where `break` and `continue` are rejected outside a loop and
/// a function declaration is rejected below top level.
pub open spec fn sp_statement(toks: Seq<Token>, pos: int, in_loop: bool, top: bool) -> Result<
    (SpStmt, int),
    ParserError,
>
    decreases toks.len() - pos, 4int,
{
    if !(0 <= pos < toks.len()) {
        Err(sp_unexpected(toks, pos, None))
    } else {
        match toks[pos].kind {
            TokenKind::Let => sp_let(toks, pos),
            TokenKind::Const => sp_let(toks, pos),
            TokenKind::Fn => if top {
                sp_function(toks, pos)
            } else {
                Err(sp_err_at(toks, pos, ParserErrorType::NestedFunctionDefinition))
            },
            TokenKind::If => sp_if(toks, pos, in_loop),
            TokenKind::While => sp_while(toks, pos),
            TokenKind::Return => sp_return(toks, pos),
            TokenKind::Break => if in_loop {
                Ok((SpStmt::Break, sp_skip_semi(toks, pos + 1)))
            } else {
                Err(sp_err_at(toks, pos, ParserErrorType::InvalidBreakableScope))
            },
            TokenKind::Continue => if in_loop {
                Ok((SpStmt::Continue, sp_skip_semi(toks, pos + 1)))
            } else {
                Err(sp_err_at(toks, pos, ParserErrorType::InvalidContinuableScope))
            },
            TokenKind::Use => if pos + 1 < toks.len() {
                match toks[pos + 1].kind {
                    TokenKind::String(s) => Ok(
                        (SpStmt::Use { module: s@ }, sp_skip_semi(toks, pos + 2)),
                    ),
                    _ => Err(sp_unexpected(toks, pos + 1, None)),
                }
            } else {
                Err(sp_unexpected(toks, pos + 1, None))
            },
            TokenKind::Pub => match sp_statement(toks, pos + 1, in_loop, top) {
                Ok(ip) => Ok((SpStmt::Pub { inner: Box::new(ip.0) }, ip.1)),
                Err(e) => Err(e),
            },
            _ => match sp_expression(toks, pos, 1) {
                Ok(ep) => Ok(
                    (SpStmt::Expression { expression: ep.0 }, sp_skip_semi(toks, ep.1)),
                ),
                Err(e) => Err(e),
            },
        }
    }
}

/// The `let`/`const` parse at `pos`: name, optional `: type`, `=`,
/// initial expression, `;`.
pub open spec fn sp_let(toks: Seq<Token>, pos: int) -> Result<(SpStmt, int), ParserError>
    decreases toks.len() - pos, 3int,
{
    if !(pos + 1 < toks.len()) {
        Err(sp_unexpected(toks, pos + 1, None))
    } else {
        match toks[pos + 1].kind {
            TokenKind::Identifier(s) => if pos + 2 < toks.len() && toks[pos + 2].kind is Colon {
                match sp_type(toks, pos + 3) {
                    Ok(tp) => sp_let_tail(
                        toks,
                        s@,
                        Some(tp.0),
                        padv(tp.1, pos + 4, toks.len() as int),
                    ),
                    Err(e) => Err(e),
                }
            } else {
                sp_let_tail(toks, s@, None, pos + 2)
            },
            _ => Err(sp_err_at(toks, pos + 1, ParserErrorType::ExpectedIdentifier)),
        }
    }
}

/// The tail of a binding after its name and annotation: `=`, the initial
/// expression, and the closing `;`.
pub open spec fn sp_let_tail(
    toks: Seq<Token>,
    identifier: Seq<char>,
    ty: Option<Type>,
    cur: int,
) -> Result<(SpStmt, int), ParserError>
    decreases toks.len() - cur, 3int,
{
    if 0 <= cur < toks.len() && toks[cur].kind is Equals {
        match sp_expression(toks, cur + 1, 1) {
            Ok(ep) => {
                let p2 = padv(ep.1, cur + 2, toks.len() as int);
                if p2 < toks.len() && toks[p2].kind is Semicolon {
                    Ok((SpStmt::Let { identifier, ty, initial: ep.0 }, p2 + 1))
                } else {
                    Err(sp_unexpected(toks, p2, Some(TokenKind::Semicolon)))
                }
            },
            Err(e) => Err(e),
        }
    } else {
        Err(sp_unexpected(toks, cur, Some(TokenKind::Equals)))
    }
}

/// The function-declaration parse at its `fn`.
pub open spec fn sp_function(toks: Seq<Token>, pos: int) -> Result<(SpStmt, int), ParserError>
    decreases toks.len() - pos, 3int,
{
    if !(pos + 1 < toks.len()) {
        Err(sp_unexpected(toks, pos + 1, None))
    } else {
        match toks[pos + 1].kind {
            TokenKind::Identifier(s) => match sp_params(toks, pos + 2) {
                Ok(pp) => {
                    let cur = padv(pp.1, pos + 3, toks.len() as int);
                    if cur < toks.len() && toks[cur].kind is Colon {
                        match sp_type(toks, cur + 1) {
                            Ok(tp) => sp_fn_tail(
                                toks,
                                s@,
                                pp.0,
                                Some(tp.0),
                                padv(tp.1, cur + 2, toks.len() as int),
                            ),
                            Err(e) => Err(e),
                        }
                    } else {
                        sp_fn_tail(toks, s@, pp.0, None, cur)
                    }
                },
                Err(e) => Err(e),
            },
            _ => Err(sp_err_at(toks, pos + 1, ParserErrorType::ExpectedIdentifier)),
        }
    }
}

/// The tail of a function declaration: its braced body.
pub open spec fn sp_fn_tail(
    toks: Seq<Token>,
    identifier: Seq<char>,
    parameters: Seq<SpParam>,
    return_type: Option<Type>,
    cur: int,
) -> Result<(SpStmt, int), ParserError>
    decreases toks.len() - cur, 4int,
{
    match sp_block(toks, cur, false) {
        Ok(bp) => Ok(
            (SpStmt::Function { identifier, parameters, return_type, body: bp.0 }, bp.1),
        ),
        Err(e) => Err(e),
    }
}

/// The block parse from its `{`: statements to the matching `}`.
pub open spec fn sp_block(toks: Seq<Token>, pos: int, in_loop: bool) -> Result<
    (Seq<SpStmt>, int),
    ParserError,
>
    decreases toks.len() - pos, 3int,
{
    if 0 <= pos < toks.len() && toks[pos].kind is LeftBrace {
        sp_block_rest(toks, Seq::empty(), pos + 1, in_loop)
    } else {
        Err(sp_unexpected(toks, pos, Some(TokenKind::LeftBrace)))
    }
}

/// The block parse after `acc` statements, at `cur`.
pub open spec fn sp_block_rest(toks: Seq<Token>, acc: Seq<SpStmt>, cur: int, in_loop: bool) -> Result<
    (Seq<SpStmt>, int),
    ParserError,
>
    decreases toks.len() - cur, 5int,
{
    if !(0 <= cur < toks.len()) {
        Err(sp_unexpected(toks, cur, Some(TokenKind::RightBrace)))
    } else if toks[cur].kind is RightBrace {
        Ok((acc, cur + 1))
    } else {
        match sp_statement(toks, cur, in_loop, false) {
            Ok(sp) => sp_block_rest(
                toks,
                acc.push(sp.0),
                padv(sp.1, cur + 1, toks.len() as int),
                in_loop,
            ),
            Err(e) => Err(e),
        }
    }
}

/// The `if` parse at its `if`: condition, then-block, and an optional
/// `else` block or chained `else if`.
pub open spec fn sp_if(toks: Seq<Token>, pos: int, in_loop: bool) -> Result<
    (SpStmt, int),
    ParserError,
>
    decreases toks.len() - pos, 3int,
{
    if !(0 <= pos < toks.len()) {
        Err(sp_unexpected(toks, pos, None))
    } else {
        match sp_expression(toks, pos + 1, 1) {
        Ok(cp) => {
            let c1 = padv(cp.1, pos + 2, toks.len() as int);
            match sp_block(toks, c1, in_loop) {
                Ok(bp) => {
                    let c2 = padv(bp.1, c1 + 1, toks.len() as int);
                    if c2 < toks.len() && toks[c2].kind is Else {
                        if c2 + 1 < toks.len() && toks[c2 + 1].kind is If {
                            match sp_if(toks, c2 + 1, in_loop) {
                                Ok(ip) => Ok(
                                    (
                                        SpStmt::If {
                                            condition: cp.0,
                                            then: bp.0,
                                            otherwise: seq![ip.0],
                                        },
                                        ip.1,
                                    ),
                                ),
                                Err(e) => Err(e),
                            }
                        } else {
                            match sp_block(toks, c2 + 1, in_loop) {
                                Ok(op) => Ok(
                                    (
                                        SpStmt::If {
                                            condition: cp.0,
                                            then: bp.0,
                                            otherwise: op.0,
                                        },
                                        op.1,
                                    ),
                                ),
                                Err(e) => Err(e),
                            }
                        }
                    } else {
                        Ok(
                            (
                                SpStmt::If {
                                    condition: cp.0,
                                    then: bp.0,
                                    otherwise: Seq::empty(),
                                },
                                c2,
                            ),
                        )
                    }
                },
                Err(e) => Err(e),
            }
        },
        Err(e) => Err(e),
        }
    }
}

/// The `while` parse at its `while`: condition and loop body.
pub open spec fn sp_while(toks: Seq<Token>, pos: int) -> Result<(SpStmt, int), ParserError>
    decreases toks.len() - pos, 3int,
{
    if !(0 <= pos < toks.len()) {
        Err(sp_unexpected(toks, pos, None))
    } else {
        match sp_expression(toks, pos + 1, 1) {
            Ok(cp) => match sp_block(toks, padv(cp.1, pos + 2, toks.len() as int), true) {
                Ok(bp) => Ok((SpStmt::While { condition: cp.0, then: bp.0 }, bp.1)),
                Err(e) => Err(e),
            },
            Err(e) => Err(e),
        }
    }
}

/// The `return` parse at its `return`: the expression defaults to `null`
/// before `;` or `}` or the end of the input.
pub open spec fn sp_return(toks: Seq<Token>, pos: int) -> Result<(SpStmt, int), ParserError>
    decreases toks.len() - pos, 3int,
{
    let cur = pos + 1;
    if cur >= toks.len() || toks[cur].kind is RightBrace {
        Ok((SpStmt::Return { expression: SpExpr::Null }, cur))
    } else if toks[cur].kind is Semicolon {
        Ok((SpStmt::Return { expression: SpExpr::Null }, cur + 1))
    } else {
        match sp_expression(toks, cur, 1) {
            Ok(ep) => Ok((SpStmt::Return { expression: ep.0 }, sp_skip_semi(toks, ep.1))),
            Err(e) => Err(e),
        }
    }
}

/// The Pratt expression parse at `pos`: a unary expression, then the
/// infix operators of binding power at least `min_prec`.
pub open spec fn sp_expression(toks: Seq<Token>, pos: int, min_prec: u8) -> Result<
    (SpExpr, int),
    ParserError,
>
    decreases toks.len() - pos, 2int,
{
    if !(0 <= pos < toks.len()) {
        Err(sp_unexpected(toks, pos, None))
    } else {
        match sp_unary(toks, pos) {
            Ok(up) => sp_infix(toks, up.0, padv(up.1, pos + 1, toks.len() as int), min_prec),
            Err(e) => Err(e),
        }
    }
}

/// The infix continuation: while an operator of binding power at least
/// `min_prec` follows, its right operand is parsed one level tighter
/// (`=` reparses at its own level, so it associates to the right) and
/// the operands are folded left.
pub open spec fn sp_infix(toks: Seq<Token>, lhs: SpExpr, cur: int, min_prec: u8) -> Result<
    (SpExpr, int),
    ParserError,
>
    decreases toks.len() - cur, 5int,
{
    if !(0 <= cur < toks.len()) {
        Ok((lhs, cur))
    } else {
        match sp_infix_prec(toks[cur].kind) {
            None => Ok((lhs, cur)),
            Some(pr) => if pr.1 < min_prec {
                Ok((lhs, cur))
            } else {
                let next_min: u8 = if pr.0 is Assign {
                    pr.1
                } else {
                    (pr.1 + 1) as u8
                };
                match sp_expression(toks, cur + 1, next_min) {
                    Ok(rp) => {
                        let lhs2 = if pr.0 is Assign {
                            SpExpr::Assign(Box::new(lhs), Box::new(rp.0))
                        } else {
                            SpExpr::Infix(Box::new(lhs), pr.0, Box::new(rp.0))
                        };
                        sp_infix(toks, lhs2, padv(rp.1, cur + 2, toks.len() as int), min_prec)
                    },
                    Err(e) => Err(e),
                }
            },
        }
    }
}

/// The unary parse at `pos`: an optional prefix `-`, an atom, and the
/// postfix continuation.
pub open spec fn sp_unary(toks: Seq<Token>, pos: int) -> Result<(SpExpr, int), ParserError>
    decreases toks.len() - pos, 1int,
{
    if !(0 <= pos < toks.len()) {
        Err(sp_unexpected(toks, pos, None))
    } else if toks[pos].kind is Minus {
        match sp_unary(toks, pos + 1) {
            Ok(up) => Ok((SpExpr::Prefix(Op::Subtract, Box::new(up.0)), up.1)),
            Err(e) => Err(e),
        }
    } else {
        match toks[pos].kind {
            TokenKind::Number(n) => sp_postfix(toks, SpExpr::Number(n), pos + 1),
            TokenKind::String(s) => sp_postfix(toks, SpExpr::String(s@), pos + 1),
            TokenKind::Identifier(s) => sp_postfix(toks, SpExpr::Identifier(s@), pos + 1),
            TokenKind::True => sp_postfix(toks, SpExpr::Bool(true), pos + 1),
            TokenKind::False => sp_postfix(toks, SpExpr::Bool(false), pos + 1),
            TokenKind::Null => sp_postfix(toks, SpExpr::Null, pos + 1),
            TokenKind::LeftParen => match sp_expression(toks, pos + 1, 1) {
                Ok(ep) => {
                    let p = padv(ep.1, pos + 2, toks.len() as int);
                    if p < toks.len() && toks[p].kind is RightParen {
                        sp_postfix(toks, ep.0, p + 1)
                    } else {
                        Err(sp_unexpected(toks, p, Some(TokenKind::RightParen)))
                    }
                },
                Err(e) => Err(e),
            },
            TokenKind::LeftBracket => match sp_array(toks, pos) {
                Ok(ap) => sp_postfix(toks, ap.0, padv(ap.1, pos + 1, toks.len() as int)),
                Err(e) => Err(e),
            },
            TokenKind::Fn => match sp_closure(toks, pos) {
                Ok(cp) => sp_postfix(toks, cp.0, padv(cp.1, pos + 1, toks.len() as int)),
                Err(e) => Err(e),
            },
            _ => Err(sp_unexpected(toks, pos, None)),
        }
    }
}

/// The postfix continuation: calls, index and append positions, and
/// member accesses, folded left onto the atom.
pub open spec fn sp_postfix(toks: Seq<Token>, e: SpExpr, cur: int) -> Result<
    (SpExpr, int),
    ParserError,
>
    decreases toks.len() - cur, 5int,
{
    if !(0 <= cur < toks.len()) {
        Ok((e, cur))
    } else if toks[cur].kind is LeftParen {
        match sp_args(toks, cur) {
            Ok(ap) => sp_postfix(
                toks,
                SpExpr::Call(Box::new(e), ap.0),
                padv(ap.1, cur + 1, toks.len() as int),
            ),
            Err(er) => Err(er),
        }
    } else if toks[cur].kind is LeftBracket {
        if cur + 1 < toks.len() && toks[cur + 1].kind is RightBracket {
            sp_postfix(toks, SpExpr::Index(Box::new(e), None), cur + 2)
        } else {
            match sp_expression(toks, cur + 1, 1) {
                Ok(ip) => {
                    let p2 = padv(ip.1, cur + 2, toks.len() as int);
                    if p2 < toks.len() && toks[p2].kind is RightBracket {
                        sp_postfix(
                            toks,
                            SpExpr::Index(Box::new(e), Some(Box::new(ip.0))),
                            p2 + 1,
                        )
                    } else {
                        Err(sp_unexpected(toks, p2, Some(TokenKind::RightBracket)))
                    }
                },
                Err(er) => Err(er),
            }
        }
    } else if toks[cur].kind is Dot {
        if cur + 1 < toks.len() {
            match toks[cur + 1].kind {
                TokenKind::Identifier(s) => sp_postfix(
                    toks,
                    SpExpr::Dot(Box::new(e), Box::new(SpExpr::Identifier(s@))),
                    cur + 2,
                ),
                _ => Err(sp_err_at(toks, cur + 1, ParserErrorType::ExpectedIdentifier)),
            }
        } else {
            Err(sp_unexpected(toks, cur + 1, None))
        }
    } else {
        Ok((e, cur))
    }
}

/// The array-literal parse from its `[`.
pub open spec fn sp_array(toks: Seq<Token>, pos: int) -> Result<(SpExpr, int), ParserError>
    decreases toks.len() - pos, 0int,
{
    if !(0 <= pos < toks.len()) {
        Err(sp_unexpected(toks, pos, Some(TokenKind::LeftBracket)))
    } else {
        sp_array_rest(toks, Seq::empty(), pos + 1)
    }
}

/// The array-literal parse after `acc` items, at `cur`.
pub open spec fn sp_array_rest(toks: Seq<Token>, acc: Seq<SpExpr>, cur: int) -> Result<
    (SpExpr, int),
    ParserError,
>
    decreases toks.len() - cur, 5int,
{
    if !(0 <= cur < toks.len()) {
        Err(sp_unexpected(toks, cur, Some(TokenKind::RightBracket)))
    } else if toks[cur].kind is RightBracket {
        Ok((SpExpr::Array(acc), cur + 1))
    } else {
        match sp_expression(toks, cur, 1) {
            Ok(ep) => sp_array_fin(toks, acc.push(ep.0), padv(ep.1, cur + 1, toks.len() as int)),
            Err(e) => Err(e),
        }
    }
}

/// After one array item: a `,` continues the list, a `]` closes it.
pub open spec fn sp_array_fin(toks: Seq<Token>, acc: Seq<SpExpr>, cur: int) -> Result<
    (SpExpr, int),
    ParserError,
>
    decreases toks.len() - cur, 6int,
{
    if 0 <= cur < toks.len() && toks[cur].kind is Comma {
        sp_array_rest(toks, acc, cur + 1)
    } else if 0 <= cur < toks.len() && toks[cur].kind is RightBracket {
        Ok((SpExpr::Array(acc), cur + 1))
    } else {
        Err(sp_unexpected(toks, cur, Some(TokenKind::RightBracket)))
    }
}

/// The argument-list parse from its `(`.
pub open spec fn sp_args(toks: Seq<Token>, pos: int) -> Result<(Seq<SpExpr>, int), ParserError>
    decreases toks.len() - pos, 0int,
{
    if !(0 <= pos < toks.len()) {
        Err(sp_unexpected(toks, pos, Some(TokenKind::LeftParen)))
    } else {
        sp_args_rest(toks, Seq::empty(), pos + 1)
    }
}

/// The argument-list parse after `acc` arguments, at `cur`.
pub open spec fn sp_args_rest(toks: Seq<Token>, acc: Seq<SpExpr>, cur: int) -> Result<
    (Seq<SpExpr>, int),
    ParserError,
>
    decreases toks.len() - cur, 5int,
{
    if !(0 <= cur < toks.len()) {
        Err(sp_unexpected(toks, cur, Some(TokenKind::RightParen)))
    } else if toks[cur].kind is RightParen {
        Ok((acc, cur + 1))
    } else {
        match sp_expression(toks, cur, 1) {
            Ok(ep) => sp_args_fin(toks, acc.push(ep.0), padv(ep.1, cur + 1, toks.len() as int)),
            Err(e) => Err(e),
        }
    }
}

/// After one argument: a `,` continues the list, a `)` closes it.
pub open spec fn sp_args_fin(toks: Seq<Token>, acc: Seq<SpExpr>, cur: int) -> Result<
    (Seq<SpExpr>, int),
    ParserError,
>
    decreases toks.len() - cur, 6int,
{
    if 0 <= cur < toks.len() && toks[cur].kind is Comma {
        sp_args_rest(toks, acc, cur + 1)
    } else if 0 <= cur < toks.len() && toks[cur].kind is RightParen {
        Ok((acc, cur + 1))
    } else {
        Err(sp_unexpected(toks, cur, Some(TokenKind::RightParen)))
    }
}

/// The closure parse at its `fn`: parameters, then `=> expression`
/// (desugared to a body of one `return`) or a braced body.
pub open spec fn sp_closure(toks: Seq<Token>, pos: int) -> Result<(SpExpr, int), ParserError>
    decreases toks.len() - pos, 0int,
{
    if !(0 <= pos < toks.len()) {
        Err(sp_unexpected(toks, pos, None))
    } else {
        match sp_params(toks, pos + 1) {
        Ok(pp) => {
            let cur = padv(pp.1, pos + 2, toks.len() as int);
            if cur < toks.len() && cur + 1 < toks.len() && toks[cur].kind is Equals && toks[cur
                + 1].kind is GreaterThan {
                match sp_expression(toks, cur + 2, 1) {
                    Ok(ep) => Ok(
                        (
                            SpExpr::Closure(pp.0, seq![SpStmt::Return { expression: ep.0 }]),
                            ep.1,
                        ),
                    ),
                    Err(e) => Err(e),
                }
            } else {
                match sp_block(toks, cur, false) {
                    Ok(bp) => Ok((SpExpr::Closure(pp.0, bp.0), bp.1)),
                    Err(e) => Err(e),
                }
            }
        },
        Err(e) => Err(e),
        }
    }
}

/// An error for an unexpected token at `cur`, or for the end of input.
fn unexpected_at(
    toks: &Vec<Token>,
    cur: usize,
    expected: Option<TokenKind>,
    Ghost(bound): Ghost<int>,
) -> (e: ParserError)
    requires
        toks_bounded(toks@, bound),
        bound >= 0,
    ensures
        err_in(e, bound),
        e == sp_unexpected(toks@, cur as int, expected),
{
    if cur < toks.len() {
        let t = &toks[cur];
        ParserError { line: t.line, span: t.span, err: ParserErrorType::UnexpectedToken(t.kind.dup(), expected) }
    } else if toks.len() > 0 {
        let t = &toks[toks.len() - 1];
        ParserError { line: t.line, span: t.span, err: ParserErrorType::UnexpectedToken(t.kind.dup(), expected) }
    } else {
        ParserError { line: 1, span: Span(0, 0), err: ParserErrorType::UnexpectedToken(TokenKind::Eof, expected) }
    }
}

/// An error of the given kind at the token at `cur`.
fn err_at(toks: &Vec<Token>, cur: usize, err: ParserErrorType, Ghost(bound): Ghost<int>) -> (e:
    ParserError)
    requires
        toks_bounded(toks@, bound),
        bound >= 0,
        cur < toks@.len(),
    ensures
        err_in(e, bound),
        e == sp_err_at(toks@, cur as int, err),
{
    let t = &toks[cur];
    ParserError { line: t.line, span: t.span, err }
}

/// The operator and binding power of each infix operator token, `None`
/// for every other kind. `=` maps to `Assign` and binds loosest; `== !=`
/// map to `Equals`/`NotEquals`; the four comparisons map to the operator
/// of the same name; `+ -` to `Add`/`Subtract`; `* /` to
/// `Multiply`/`Divide`, which bind tightest.
pub open spec fn sp_infix_prec(k: TokenKind) -> Option<(Op, u8)> {
    match k {
        TokenKind::Equals => Some((Op::Assign, 1u8)),
        TokenKind::EqualsEquals => Some((Op::Equals, 2u8)),
        TokenKind::NotEquals => Some((Op::NotEquals, 2u8)),
        TokenKind::LessThan => Some((Op::LessThan, 3u8)),
        TokenKind::GreaterThan => Some((Op::GreaterThan, 3u8)),
        TokenKind::LessThanEquals => Some((Op::LessThanEquals, 3u8)),
        TokenKind::GreaterThanEquals => Some((Op::GreaterThanEquals, 3u8)),
        TokenKind::Plus => Some((Op::Add, 4u8)),
        TokenKind::Minus => Some((Op::Subtract, 4u8)),
        TokenKind::Asterisk => Some((Op::Multiply, 5u8)),
        TokenKind::Slash => Some((Op::Divide, 5u8)),
        _ => None,
    }
}

/// The binding power of an infix operator token, or `None`: exactly the
/// token-to-operator map of `sp_infix_prec`.
fn infix_prec(k: &TokenKind) -> (r: Option<(Op, u8)>)
    ensures
        r == sp_infix_prec(*k),
        match r {
            Some(pair) => 1 <= pair.1 <= 5,
            None => true,
        },
{
    match k {
        TokenKind::Equals => Some((Op::Assign, 1)),
        TokenKind::EqualsEquals => Some((Op::Equals, 2)),
        TokenKind::NotEquals => Some((Op::NotEquals, 2)),
        TokenKind::LessThan => Some((Op::LessThan, 3)),
        TokenKind::GreaterThan => Some((Op::GreaterThan, 3)),
        TokenKind::LessThanEquals => Some((Op::LessThanEquals, 3)),
        TokenKind::GreaterThanEquals => Some((Op::GreaterThanEquals, 3)),
        TokenKind::Plus => Some((Op::Add, 4)),
        TokenKind::Minus => Some((Op::Subtract, 4)),
        TokenKind::Asterisk => Some((Op::Multiply, 5)),
        TokenKind::Slash => Some((Op::Divide, 5)),
        _ => None,
    }
}

/// Skip one semicolon if one stands at `cur`.
fn skip_semicolon(toks: &Vec<Token>, cur: usize) -> (r: usize)
    requires
        cur <= toks@.len(),
    ensures
        cur <= r <= toks@.len(),
        r == sp_skip_semi(toks@, cur as int),
{
    if cur < toks.len() && matches!(&toks[cur].kind, TokenKind::Semicolon) {
        cur + 1
    } else {
        cur
    }
}

/// Parse a whole token stream into a program: exactly `sp_program` of
/// the tokens.
pub fn parse_tokens(toks: &Vec<Token>, Ghost(bound): Ghost<int>) -> (r: Result<
    Program,
    ParserError,
>)
    requires
        toks_bounded(toks@, bound),
        bound >= 0,
    ensures
        match r {
            Ok(prog) => stmts_valid(prog@, false, true) && sp_program(toks@) == Ok::<
                Seq<SpStmt>,
                ParserError,
            >(stmts_abs(prog@)),
            Err(e) => err_in(e, bound) && sp_program(toks@) == Err::<Seq<SpStmt>, ParserError>(e),
        },
{
    let prog: Vec<Statement> = Vec::new();
    proof {
        assert(stmts_abs(prog@) =~= Seq::<SpStmt>::empty());
    }
    parse_program_rest(toks, prog, 0, Ghost(bound))
}

/// Parse the statements from `pos` to the end of the tokens, after those
/// already in `acc`.
fn parse_program_rest(
    toks: &Vec<Token>,
    acc: Vec<Statement>,
    pos: usize,
    Ghost(bound): Ghost<int>,
) -> (r: Result<Program, ParserError>)
    requires
        toks_bounded(toks@, bound),
        bound >= 0,
        pos <= toks@.len(),
        stmts_valid(acc@, false, true),
    ensures
        match r {
            Ok(prog) => stmts_valid(prog@, false, true) && sp_program_rest(
                toks@,
                stmts_abs(acc@),
                pos as int,
            ) == Ok::<Seq<SpStmt>, ParserError>(stmts_abs(prog@)),
            Err(e) => err_in(e, bound) && sp_program_rest(toks@, stmts_abs(acc@), pos as int)
                == Err::<Seq<SpStmt>, ParserError>(e),
        },
    decreases toks@.len() - pos, 5int,
{
    if pos >= toks.len() {
        return Ok(acc);
    }
    match parse_statement(toks, pos, false, true, Ghost(bound)) {
        Ok((st, p2)) => {
            let ghost acc0 = acc@;
            let mut acc2 = acc;
            proof {
                lemma_stmts_valid_push(acc0, st, false, true);
                lemma_stmts_abs_push(acc0, st);
            }
            acc2.push(st);
            parse_program_rest(toks, acc2, p2, Ghost(bound))
        },
        Err(e) => Err(e),
    }
}

/// Parse one statement beginning at `pos`.
fn parse_statement(
    toks: &Vec<Token>,
    pos: usize,
    in_loop: bool,
    top: bool,
    Ghost(bound): Ghost<int>,
) -> (r: Result<(Statement, usize), ParserError>)
    requires
        toks_bounded(toks@, bound),
        bound >= 0,
        pos <= toks@.len(),
    ensures
        match r {
            Ok((st, p2)) => pos < p2 <= toks@.len() && stmt_valid(st, in_loop, top)
                && sp_statement(toks@, pos as int, in_loop, top) == Ok::<
                (SpStmt, int),
                ParserError,
            >((stmt_abs(st), p2 as int)),
            Err(e) => err_in(e, bound) && sp_statement(toks@, pos as int, in_loop, top) == Err::<
                (SpStmt, int),
                ParserError,
            >(e),
        },
    decreases toks@.len() - pos, 4int,
{
    if pos >= toks.len() {
        return Err(unexpected_at(toks, pos, None, Ghost(bound)));
    }
    match &toks[pos].kind {
        TokenKind::Let | TokenKind::Const => parse_let(toks, pos, Ghost(bound)),
        TokenKind::Fn => {
            if top {
                parse_function(toks, pos, Ghost(bound))
            } else {
                Err(err_at(toks, pos, ParserErrorType::NestedFunctionDefinition, Ghost(bound)))
            }
        },
        TokenKind::If => parse_if(toks, pos, in_loop, Ghost(bound)),
        TokenKind::While => parse_while(toks, pos, Ghost(bound)),
        TokenKind::Return => parse_return(toks, pos, Ghost(bound)),
        TokenKind::Break => {
            if in_loop {
                let cur = skip_semicolon(toks, pos + 1);
                Ok((Statement::Break, cur))
            } else {
                Err(err_at(toks, pos, ParserErrorType::InvalidBreakableScope, Ghost(bound)))
            }
        },
        TokenKind::Continue => {
            if in_loop {
                let cur = skip_semicolon(toks, pos + 1);
                Ok((Statement::Continue, cur))
            } else {
                Err(err_at(toks, pos, ParserErrorType::InvalidContinuableScope, Ghost(bound)))
            }
        },
        TokenKind::Use => {
            let cur = pos + 1;
            if cur < toks.len() {
                match &toks[cur].kind {
                    TokenKind::String(s) => {
                        let module = s.clone();
                        let cur2 = skip_semicolon(toks, cur + 1);
                        Ok((Statement::Use { module }, cur2))
                    },
                    _ => Err(unexpected_at(toks, cur, None, Ghost(bound))),
                }
            } else {
                Err(unexpected_at(toks, cur, None, Ghost(bound)))
            }
        },
        TokenKind::Pub => {
            match parse_statement(toks, pos + 1, in_loop, top, Ghost(bound)) {
                Ok((inner, p2)) => Ok((Statement::Pub { inner: Box::new(inner) }, p2)),
                Err(e) => Err(e),
            }
        },
        _ => {
            match parse_expression(toks, pos, 1, Ghost(bound)) {
                Ok((e, p2)) => {
                    let cur = skip_semicolon(toks, p2);
                    Ok((Statement::Expression { expression: e }, cur))
                },
                Err(e) => Err(e),
            }
        },
    }
}

/// Parse a `let` or `const` binding: identifier, optional `: type`,
/// required `= expression` and `;`.
fn parse_let(toks: &Vec<Token>, pos: usize, Ghost(bound): Ghost<int>) -> (r: Result<
    (Statement, usize),
    ParserError,
>)
    requires
        toks_bounded(toks@, bound),
        bound >= 0,
        pos < toks@.len(),
        toks@[pos as int].kind is Let || toks@[pos as int].kind is Const,
    ensures
        match r {
            Ok((st, p2)) => pos < p2 <= toks@.len() && stmt_valid(st, false, false) && stmt_valid(
                st,
                false,
                true,
            ) && stmt_valid(st, true, false) && stmt_valid(st, true, true) && sp_let(
                toks@,
                pos as int,
            ) == Ok::<(SpStmt, int), ParserError>((stmt_abs(st), p2 as int)),
            Err(e) => err_in(e, bound) && sp_let(toks@, pos as int) == Err::<
                (SpStmt, int),
                ParserError,
            >(e),
        },
    decreases toks@.len() - pos, 3int,
{
    let n: usize = toks.len();
    let mut cur = pos + 1;
    if cur >= toks.len() {
        return Err(unexpected_at(toks, cur, None, Ghost(bound)));
    }
    let identifier = match &toks[cur].kind {
        TokenKind::Identifier(s) => s.clone(),
        _ => {
            return Err(err_at(toks, cur, ParserErrorType::ExpectedIdentifier, Ghost(bound)));
        },
    };
    cur = cur + 1;
    let mut ty: Option<Type> = None;
    if cur < toks.len() && matches!(&toks[cur].kind, TokenKind::Colon) {
        match parse_type(toks, cur + 1, Ghost(bound)) {
            Ok((t, p2)) => {
                ty = Some(t);
                cur = p2;
            },
            Err(e) => {
                return Err(e);
            },
        }
    }
    if cur < toks.len() && matches!(&toks[cur].kind, TokenKind::Equals) {
        cur = cur + 1;
    } else {
        return Err(unexpected_at(toks, cur, Some(TokenKind::Equals), Ghost(bound)));
    }
    let initial = match parse_expression(toks, cur, 1, Ghost(bound)) {
        Ok((e, p2)) => {
            cur = p2;
            e
        },
        Err(e) => {
            return Err(e);
        },
    };
    if cur < toks.len() && matches!(&toks[cur].kind, TokenKind::Semicolon) {
        cur = cur + 1;
    } else {
        return Err(unexpected_at(toks, cur, Some(TokenKind::Semicolon), Ghost(bound)));
    }
    Ok((Statement::Let { identifier, ty, initial }, cur))
}

/// Parse a type annotation: an identifier naming one of the valid types.
fn parse_type(toks: &Vec<Token>, pos: usize, Ghost(bound): Ghost<int>) -> (r: Result<
    (Type, usize),
    ParserError,
>)
    requires
        toks_bounded(toks@, bound),
        bound >= 0,
        pos <= toks@.len(),
    ensures
        match r {
            Ok((t, p2)) => pos < p2 <= toks@.len() && sp_type(toks@, pos as int) == Ok::<
                (Type, int),
                ParserError,
            >((t, p2 as int)),
            Err(e) => err_in(e, bound) && sp_type(toks@, pos as int) == Err::<
                (Type, int),
                ParserError,
            >(e),
        },
{
    if pos >= toks.len() {
        return Err(unexpected_at(toks, pos, None, Ghost(bound)));
    }
    match &toks[pos].kind {
        TokenKind::Identifier(s) => {
            if Type::valid(s.as_str()) {
                let t = Type::string(s.clone());
                proof {
                    reveal_strlit("string");
                    reveal_strlit("bool");
                    reveal_strlit("number");
                    assert("string"@.len() == 6);
                    assert("bool"@.len() == 4);
                    assert("number"@.len() == 6);
                    assert("string"@[0] == 's' && "number"@[0] == 'n');
                    assert("string"@ != "bool"@ && "string"@ != "number"@ && "bool"@
                        != "number"@);
                }
                Ok((t, pos + 1))
            } else {
                Err(unexpected_at(toks, pos, None, Ghost(bound)))
            }
        },
        _ => Err(err_at(toks, pos, ParserErrorType::ExpectedIdentifier, Ghost(bound))),
    }
}

/// Parse a top-level function declaration.
fn parse_function(toks: &Vec<Token>, pos: usize, Ghost(bound): Ghost<int>) -> (r: Result<
    (Statement, usize),
    ParserError,
>)
    requires
        toks_bounded(toks@, bound),
        bound >= 0,
        pos < toks@.len(),
        toks@[pos as int].kind is Fn,
    ensures
        match r {
            Ok((st, p2)) => pos < p2 <= toks@.len() && stmt_valid(st, false, true) && stmt_valid(
                st,
                true,
                true,
            ) && sp_function(toks@, pos as int) == Ok::<(SpStmt, int), ParserError>(
                (stmt_abs(st), p2 as int),
            ),
            Err(e) => err_in(e, bound) && sp_function(toks@, pos as int) == Err::<
                (SpStmt, int),
                ParserError,
            >(e),
        },
    decreases toks@.len() - pos, 3int,
{
    let n: usize = toks.len();
    let mut cur = pos + 1;
    if cur >= toks.len() {
        return Err(unexpected_at(toks, cur, None, Ghost(bound)));
    }
    let identifier = match &toks[cur].kind {
        TokenKind::Identifier(s) => s.clone(),
        _ => {
            return Err(err_at(toks, cur, ParserErrorType::ExpectedIdentifier, Ghost(bound)));
        },
    };
    cur = cur + 1;
    let (parameters, p2) = match parse_params(toks, cur, Ghost(bound)) {
        Ok(pair) => pair,
        Err(e) => {
            return Err(e);
        },
    };
    cur = p2;
    let mut return_type: Option<Type> = None;
    if cur < toks.len() && matches!(&toks[cur].kind, TokenKind::Colon) {
        match parse_type(toks, cur + 1, Ghost(bound)) {
            Ok((t, p3)) => {
                return_type = Some(t);
                cur = p3;
            },
            Err(e) => {
                return Err(e);
            },
        }
    }
    match parse_block(toks, cur, false, Ghost(bound)) {
        Ok((body, p3)) => Ok(
            (Statement::Function { identifier, parameters, return_type, body }, p3),
        ),
        Err(e) => Err(e),
    }
}

/// Parse a parenthesised, comma-separated parameter list.
fn parse_params(toks: &Vec<Token>, pos: usize, Ghost(bound): Ghost<int>) -> (r: Result<
    (Vec<Parameter>, usize),
    ParserError,
>)
    requires
        toks_bounded(toks@, bound),
        bound >= 0,
        pos <= toks@.len(),
    ensures
        match r {
            Ok((ps, p2)) => pos < p2 <= toks@.len() && sp_params(toks@, pos as int) == Ok::<
                (Seq<SpParam>, int),
                ParserError,
            >((params_abs(ps@), p2 as int)),
            Err(e) => err_in(e, bound) && sp_params(toks@, pos as int) == Err::<
                (Seq<SpParam>, int),
                ParserError,
            >(e),
        },
{
    if pos < toks.len() && matches!(&toks[pos].kind, TokenKind::LeftParen) {
        let params: Vec<Parameter> = Vec::new();
        proof {
            assert(params_abs(params@) =~= Seq::<SpParam>::empty());
        }
        parse_params_rest(toks, params, pos + 1, Ghost(bound))
    } else {
        Err(unexpected_at(toks, pos, Some(TokenKind::LeftParen), Ghost(bound)))
    }
}

/// Parse the parameters after those already in `params`, at `cur`.
fn parse_params_rest(
    toks: &Vec<Token>,
    params: Vec<Parameter>,
    cur: usize,
    Ghost(bound): Ghost<int>,
) -> (r: Result<(Vec<Parameter>, usize), ParserError>)
    requires
        toks_bounded(toks@, bound),
        bound >= 0,
        cur <= toks@.len(),
    ensures
        match r {
            Ok((ps, p2)) => cur < p2 <= toks@.len() && sp_params_rest(
                toks@,
                params_abs(params@),
                cur as int,
            ) == Ok::<(Seq<SpParam>, int), ParserError>((params_abs(ps@), p2 as int)),
            Err(e) => err_in(e, bound) && sp_params_rest(toks@, params_abs(params@), cur as int)
                == Err::<(Seq<SpParam>, int), ParserError>(e),
        },
    decreases toks@.len() - cur, 1int,
{
    if cur >= toks.len() {
        return Err(unexpected_at(toks, cur, Some(TokenKind::RightParen), Ghost(bound)));
    }
    if matches!(&toks[cur].kind, TokenKind::RightParen) {
        return Ok((params, cur + 1));
    }
    let name = match &toks[cur].kind {
        TokenKind::Identifier(s) => s.clone(),
        _ => {
            return Err(err_at(toks, cur, ParserErrorType::ExpectedIdentifier, Ghost(bound)));
        },
    };
    if cur + 1 < toks.len() && matches!(&toks[cur + 1].kind, TokenKind::Colon) {
        match parse_type(toks, cur + 2, Ghost(bound)) {
            Ok((t, p2)) => {
                let ghost ps0 = params@;
                let p = Parameter { name, ty: Some(t) };
                let ghost pv = p;
                let mut params2 = params;
                proof {
                    lemma_params_abs_push(ps0, pv);
                }
                params2.push(p);
                parse_params_fin(toks, params2, p2, Ghost(bound))
            },
            Err(e) => Err(e),
        }
    } else {
        let ghost ps0 = params@;
        let p = Parameter { name, ty: None };
        let ghost pv = p;
        let mut params2 = params;
        proof {
            lemma_params_abs_push(ps0, pv);
        }
        params2.push(p);
        parse_params_fin(toks, params2, cur + 1, Ghost(bound))
    }
}

/// After one parameter: a comma continues the list, a `)` closes it.
fn parse_params_fin(
    toks: &Vec<Token>,
    params: Vec<Parameter>,
    cur: usize,
    Ghost(bound): Ghost<int>,
) -> (r: Result<(Vec<Parameter>, usize), ParserError>)
    requires
        toks_bounded(toks@, bound),
        bound >= 0,
        cur <= toks@.len(),
    ensures
        match r {
            Ok((ps, p2)) => cur < p2 <= toks@.len() && sp_params_fin(
                toks@,
                params_abs(params@),
                cur as int,
            ) == Ok::<(Seq<SpParam>, int), ParserError>((params_abs(ps@), p2 as int)),
            Err(e) => err_in(e, bound) && sp_params_fin(toks@, params_abs(params@), cur as int)
                == Err::<(Seq<SpParam>, int), ParserError>(e),
        },
    decreases toks@.len() - cur, 0int,
{
    if cur < toks.len() && matches!(&toks[cur].kind, TokenKind::Comma) {
        parse_params_rest(toks, params, cur + 1, Ghost(bound))
    } else if cur < toks.len() && matches!(&toks[cur].kind, TokenKind::RightParen) {
        Ok((params, cur + 1))
    } else {
        Err(unexpected_at(toks, cur, Some(TokenKind::RightParen), Ghost(bound)))
    }
}

/// Parse a braced statement block.
fn parse_block(toks: &Vec<Token>, pos: usize, in_loop: bool, Ghost(bound): Ghost<int>) -> (r:
    Result<(Vec<Statement>, usize), ParserError>)
    requires
        toks_bounded(toks@, bound),
        bound >= 0,
        pos <= toks@.len(),
    ensures
        match r {
            Ok((ss, p2)) => pos < p2 <= toks@.len() && stmts_valid(ss@, in_loop, false)
                && sp_block(toks@, pos as int, in_loop) == Ok::<(Seq<SpStmt>, int), ParserError>(
                (stmts_abs(ss@), p2 as int),
            ),
            Err(e) => err_in(e, bound) && sp_block(toks@, pos as int, in_loop) == Err::<
                (Seq<SpStmt>, int),
                ParserError,
            >(e),
        },
    decreases toks@.len() - pos, 3int,
{
    if pos < toks.len() && matches!(&toks[pos].kind, TokenKind::LeftBrace) {
        let body: Vec<Statement> = Vec::new();
        proof {
            assert(stmts_abs(body@) =~= Seq::<SpStmt>::empty());
        }
        parse_block_rest(toks, body, pos + 1, in_loop, Ghost(bound))
    } else {
        Err(unexpected_at(toks, pos, Some(TokenKind::LeftBrace), Ghost(bound)))
    }
}

/// Parse the statements of a block after those already in `body`.
fn parse_block_rest(
    toks: &Vec<Token>,
    body: Vec<Statement>,
    cur: usize,
    in_loop: bool,
    Ghost(bound): Ghost<int>,
) -> (r: Result<(Vec<Statement>, usize), ParserError>)
    requires
        toks_bounded(toks@, bound),
        bound >= 0,
        cur <= toks@.len(),
        stmts_valid(body@, in_loop, false),
    ensures
        match r {
            Ok((ss, p2)) => cur < p2 <= toks@.len() && stmts_valid(ss@, in_loop, false)
                && sp_block_rest(toks@, stmts_abs(body@), cur as int, in_loop) == Ok::<
                (Seq<SpStmt>, int),
                ParserError,
            >((stmts_abs(ss@), p2 as int)),
            Err(e) => err_in(e, bound) && sp_block_rest(toks@, stmts_abs(body@), cur as int, in_loop)
                == Err::<(Seq<SpStmt>, int), ParserError>(e),
        },
    decreases toks@.len() - cur, 5int,
{
    if cur >= toks.len() {
        return Err(unexpected_at(toks, cur, Some(TokenKind::RightBrace), Ghost(bound)));
    }
    if matches!(&toks[cur].kind, TokenKind::RightBrace) {
        return Ok((body, cur + 1));
    }
    match parse_statement(toks, cur, in_loop, false, Ghost(bound)) {
        Ok((st, p2)) => {
            let ghost b0 = body@;
            let mut body2 = body;
            proof {
                lemma_stmts_valid_push(b0, st, in_loop, false);
                lemma_stmts_abs_push(b0, st);
            }
            body2.push(st);
            parse_block_rest(toks, body2, p2, in_loop, Ghost(bound))
        },
        Err(e) => Err(e),
    }
}

/// Parse an `if` statement, with `else { ... }` or a chained `else if`.
fn parse_if(toks: &Vec<Token>, pos: usize, in_loop: bool, Ghost(bound): Ghost<int>) -> (r: Result<
    (Statement, usize),
    ParserError,
>)
    requires
        toks_bounded(toks@, bound),
        bound >= 0,
        pos < toks@.len(),
        toks@[pos as int].kind is If,
    ensures
        match r {
            Ok((st, p2)) => pos < p2 <= toks@.len() && stmt_valid(st, in_loop, false)
                && stmt_valid(st, in_loop, true) && sp_if(toks@, pos as int, in_loop) == Ok::<
                (SpStmt, int),
                ParserError,
            >((stmt_abs(st), p2 as int)),
            Err(e) => err_in(e, bound) && sp_if(toks@, pos as int, in_loop) == Err::<
                (SpStmt, int),
                ParserError,
            >(e),
        },
    decreases toks@.len() - pos, 3int,
{
    let n: usize = toks.len();
    let mut cur = pos + 1;
    let condition = match parse_expression(toks, cur, 1, Ghost(bound)) {
        Ok((e, p2)) => {
            cur = p2;
            e
        },
        Err(e) => {
            return Err(e);
        },
    };
    let then = match parse_block(toks, cur, in_loop, Ghost(bound)) {
        Ok((ss, p2)) => {
            cur = p2;
            ss
        },
        Err(e) => {
            return Err(e);
        },
    };
    let mut otherwise: Vec<Statement> = Vec::new();
    if cur < toks.len() && matches!(&toks[cur].kind, TokenKind::Else) {
        let after_else = cur + 1;
        if after_else < toks.len() && matches!(&toks[after_else].kind, TokenKind::If) {
            match parse_if(toks, after_else, in_loop, Ghost(bound)) {
                Ok((st, p2)) => {
                    proof {
                        lemma_stmts_valid_push(otherwise@, st, in_loop, false);
                        lemma_stmts_abs_push(otherwise@, st);
                        assert(stmts_abs(Seq::<Statement>::empty()) =~= Seq::<SpStmt>::empty());
                        assert(stmts_abs(otherwise@).push(stmt_abs(st)) =~= seq![stmt_abs(st)]);
                    }
                    otherwise.push(st);
                    cur = p2;
                },
                Err(e) => {
                    return Err(e);
                },
            }
        } else {
            match parse_block(toks, after_else, in_loop, Ghost(bound)) {
                Ok((ss, p2)) => {
                    otherwise = ss;
                    cur = p2;
                },
                Err(e) => {
                    return Err(e);
                },
            }
        }
    }
    proof {
        assert(stmts_valid(otherwise@, in_loop, false));
        assert(stmts_valid(then@, in_loop, false));
        assert(stmts_abs(Seq::<Statement>::empty()) =~= Seq::<SpStmt>::empty());
    }
    let st = Statement::If { condition, then, otherwise };
    proof {
        assert(stmt_valid(st, in_loop, false));
        assert(stmt_valid(st, in_loop, true));
    }
    Ok((st, cur))
}

/// Parse a `while` loop; its body may hold `break` and `continue`.
fn parse_while(toks: &Vec<Token>, pos: usize, Ghost(bound): Ghost<int>) -> (r: Result<
    (Statement, usize),
    ParserError,
>)
    requires
        toks_bounded(toks@, bound),
        bound >= 0,
        pos < toks@.len(),
        toks@[pos as int].kind is While,
    ensures
        match r {
            Ok((st, p2)) => pos < p2 <= toks@.len() && stmt_valid(st, false, false) && stmt_valid(
                st,
                false,
                true,
            ) && stmt_valid(st, true, false) && stmt_valid(st, true, true) && sp_while(
                toks@,
                pos as int,
            ) == Ok::<(SpStmt, int), ParserError>((stmt_abs(st), p2 as int)),
            Err(e) => err_in(e, bound) && sp_while(toks@, pos as int) == Err::<
                (SpStmt, int),
                ParserError,
            >(e),
        },
    decreases toks@.len() - pos, 3int,
{
    let n: usize = toks.len();
    let mut cur = pos + 1;
    let condition = match parse_expression(toks, cur, 1, Ghost(bound)) {
        Ok((e, p2)) => {
            cur = p2;
            e
        },
        Err(e) => {
            return Err(e);
        },
    };
    match parse_block(toks, cur, true, Ghost(bound)) {
        Ok((then, p2)) => Ok((Statement::While { condition, then }, p2)),
        Err(e) => Err(e),
    }
}

/// Parse a `return`; the expression defaults to `null` before `;` or `}`.
#[verifier::rlimit(100)]
#[verifier::spinoff_prover]
fn parse_return(toks: &Vec<Token>, pos: usize, Ghost(bound): Ghost<int>) -> (r: Result<
    (Statement, usize),
    ParserError,
>)
    requires
        toks_bounded(toks@, bound),
        bound >= 0,
        pos < toks@.len(),
        toks@[pos as int].kind is Return,
    ensures
        match r {
            Ok((st, p2)) => pos < p2 <= toks@.len() && stmt_valid(st, false, false) && stmt_valid(
                st,
                false,
                true,
            ) && stmt_valid(st, true, false) && stmt_valid(st, true, true) && sp_return(
                toks@,
                pos as int,
            ) == Ok::<(SpStmt, int), ParserError>((stmt_abs(st), p2 as int)),
            Err(e) => err_in(e, bound) && sp_return(toks@, pos as int) == Err::<
                (SpStmt, int),
                ParserError,
            >(e),
        },
    decreases toks@.len() - pos, 3int,
{
    let n: usize = toks.len();
    let cur = pos + 1;
    if cur >= toks.len() || matches!(&toks[cur].kind, TokenKind::RightBrace) {
        let st = Statement::Return { expression: Expression::Null };
        proof {
            assert(expr_valid(Expression::Null));
            assert(stmt_valid(st, false, false) && stmt_valid(st, false, true) && stmt_valid(
                st,
                true,
                false,
            ) && stmt_valid(st, true, true));
            assert(expr_abs(Expression::Null) == SpExpr::Null);
            assert(stmt_abs(st) == SpStmt::Return { expression: SpExpr::Null });
            assert(sp_return(toks@, pos as int) == Ok::<(SpStmt, int), ParserError>(
                (stmt_abs(st), cur as int),
            ));
        }
        return Ok((st, cur));
    }
    if matches!(&toks[cur].kind, TokenKind::Semicolon) {
        let st = Statement::Return { expression: Expression::Null };
        proof {
            assert(expr_valid(Expression::Null));
            assert(stmt_valid(st, false, false) && stmt_valid(st, false, true) && stmt_valid(
                st,
                true,
                false,
            ) && stmt_valid(st, true, true));
            assert(expr_abs(Expression::Null) == SpExpr::Null);
            assert(stmt_abs(st) == SpStmt::Return { expression: SpExpr::Null });
            assert(sp_return(toks@, pos as int) == Ok::<(SpStmt, int), ParserError>(
                (stmt_abs(st), cur + 1),
            ));
        }
        return Ok((st, cur + 1));
    }
    match parse_expression(toks, cur, 1, Ghost(bound)) {
        Ok((e, p2)) => {
            let p3 = skip_semicolon(toks, p2);
            let st = Statement::Return { expression: e };
            proof {
                assert(stmt_valid(st, false, false) && stmt_valid(st, false, true) && stmt_valid(
                    st,
                    true,
                    false,
                ) && stmt_valid(st, true, true));
                assert(stmt_abs(st) == SpStmt::Return { expression: expr_abs(e) });
                assert(sp_return(toks@, pos as int) == Ok::<(SpStmt, int), ParserError>(
                    (stmt_abs(st), p3 as int),
                ));
            }
            Ok((st, p3))
        },
        Err(e) => Err(e),
    }
}

/// Parse an expression with the Pratt scheme: a unary expression, then any
/// infix operators whose binding power is at least `min_prec`. `=` builds
/// an `Assign` node and associates to the right.
fn parse_expression(toks: &Vec<Token>, pos: usize, min_prec: u8, Ghost(bound): Ghost<int>) -> (r:
    Result<(Expression, usize), ParserError>)
    requires
        toks_bounded(toks@, bound),
        bound >= 0,
        pos <= toks@.len(),
    ensures
        match r {
            Ok((e, p2)) => pos < p2 <= toks@.len() && expr_valid(e) && sp_expression(
                toks@,
                pos as int,
                min_prec,
            ) == Ok::<(SpExpr, int), ParserError>((expr_abs(e), p2 as int)),
            Err(e) => err_in(e, bound) && sp_expression(toks@, pos as int, min_prec) == Err::<
                (SpExpr, int),
                ParserError,
            >(e),
        },
    decreases toks@.len() - pos, 2int,
{
    match parse_unary(toks, pos, Ghost(bound)) {
        Ok((e, p2)) => parse_infix(toks, e, p2, min_prec, Ghost(bound)),
        Err(e) => Err(e),
    }
}

/// The infix continuation of the Pratt scheme: fold operators of binding
/// power at least `min_prec` onto `lhs`.
fn parse_infix(
    toks: &Vec<Token>,
    lhs: Expression,
    cur: usize,
    min_prec: u8,
    Ghost(bound): Ghost<int>,
) -> (r: Result<(Expression, usize), ParserError>)
    requires
        toks_bounded(toks@, bound),
        bound >= 0,
        cur <= toks@.len(),
        expr_valid(lhs),
    ensures
        match r {
            Ok((e2, p3)) => cur <= p3 <= toks@.len() && expr_valid(e2) && sp_infix(
                toks@,
                expr_abs(lhs),
                cur as int,
                min_prec,
            ) == Ok::<(SpExpr, int), ParserError>((expr_abs(e2), p3 as int)),
            Err(e) => err_in(e, bound) && sp_infix(toks@, expr_abs(lhs), cur as int, min_prec)
                == Err::<(SpExpr, int), ParserError>(e),
        },
    decreases toks@.len() - cur, 5int,
{
    if cur >= toks.len() {
        return Ok((lhs, cur));
    }
    match infix_prec(&toks[cur].kind) {
        None => Ok((lhs, cur)),
        Some((op, prec)) => {
            if prec < min_prec {
                return Ok((lhs, cur));
            }
            let next_min: u8 = if matches!(op, Op::Assign) {
                prec
            } else {
                prec + 1
            };
            match parse_expression(toks, cur + 1, next_min, Ghost(bound)) {
                Ok((rhs, p3)) => {
                    let lhs2 = if matches!(op, Op::Assign) {
                        Expression::Assign(Box::new(lhs), Box::new(rhs))
                    } else {
                        Expression::Infix(Box::new(lhs), op, Box::new(rhs))
                    };
                    proof {
                        assert(expr_valid(lhs2));
                    }
                    parse_infix(toks, lhs2, p3, min_prec, Ghost(bound))
                },
                Err(e) => Err(e),
            }
        },
    }
}

/// Parse a unary expression: an optional prefix `-`, an atom, and any
/// postfix calls, index accesses and member accesses.
fn parse_unary(toks: &Vec<Token>, pos: usize, Ghost(bound): Ghost<int>) -> (r: Result<
    (Expression, usize),
    ParserError,
>)
    requires
        toks_bounded(toks@, bound),
        bound >= 0,
        pos <= toks@.len(),
    ensures
        match r {
            Ok((e, p2)) => pos < p2 <= toks@.len() && expr_valid(e) && sp_unary(toks@, pos as int)
                == Ok::<(SpExpr, int), ParserError>((expr_abs(e), p2 as int)),
            Err(e) => err_in(e, bound) && sp_unary(toks@, pos as int) == Err::<
                (SpExpr, int),
                ParserError,
            >(e),
        },
    decreases toks@.len() - pos, 1int,
{
    if pos >= toks.len() {
        return Err(unexpected_at(toks, pos, None, Ghost(bound)));
    }
    if matches!(&toks[pos].kind, TokenKind::Minus) {
        return match parse_unary(toks, pos + 1, Ghost(bound)) {
            Ok((e, p2)) => Ok((Expression::Prefix(Op::Subtract, Box::new(e)), p2)),
            Err(e) => Err(e),
        };
    }
    match &toks[pos].kind {
        TokenKind::Number(n) => parse_postfix(toks, Expression::Number(*n), pos + 1, Ghost(bound)),
        TokenKind::String(s) => parse_postfix(
            toks,
            Expression::String(s.clone()),
            pos + 1,
            Ghost(bound),
        ),
        TokenKind::Identifier(s) => parse_postfix(
            toks,
            Expression::Identifier(s.clone()),
            pos + 1,
            Ghost(bound),
        ),
        TokenKind::True => parse_postfix(toks, Expression::Bool(true), pos + 1, Ghost(bound)),
        TokenKind::False => parse_postfix(toks, Expression::Bool(false), pos + 1, Ghost(bound)),
        TokenKind::Null => parse_postfix(toks, Expression::Null, pos + 1, Ghost(bound)),
        TokenKind::LeftParen => {
            match parse_expression(toks, pos + 1, 1, Ghost(bound)) {
                Ok((inner, p2)) => {
                    if p2 < toks.len() && matches!(&toks[p2].kind, TokenKind::RightParen) {
                        parse_postfix(toks, inner, p2 + 1, Ghost(bound))
                    } else {
                        Err(unexpected_at(toks, p2, Some(TokenKind::RightParen), Ghost(bound)))
                    }
                },
                Err(er) => Err(er),
            }
        },
        TokenKind::LeftBracket => {
            match parse_array(toks, pos, Ghost(bound)) {
                Ok((arr, p2)) => parse_postfix(toks, arr, p2, Ghost(bound)),
                Err(er) => Err(er),
            }
        },
        TokenKind::Fn => {
            match parse_closure(toks, pos, Ghost(bound)) {
                Ok((cl, p2)) => parse_postfix(toks, cl, p2, Ghost(bound)),
                Err(er) => Err(er),
            }
        },
        _ => Err(unexpected_at(toks, pos, None, Ghost(bound))),
    }
}

/// The postfix continuation: calls, index and append positions, and
/// member accesses, folded left onto `e`.
#[verifier::rlimit(100)]
#[verifier::spinoff_prover]
fn parse_postfix(toks: &Vec<Token>, e: Expression, cur: usize, Ghost(bound): Ghost<int>) -> (r:
    Result<(Expression, usize), ParserError>)
    requires
        toks_bounded(toks@, bound),
        bound >= 0,
        cur <= toks@.len(),
        expr_valid(e),
    ensures
        match r {
            Ok((e2, p2)) => cur <= p2 <= toks@.len() && expr_valid(e2) && sp_postfix(
                toks@,
                expr_abs(e),
                cur as int,
            ) == Ok::<(SpExpr, int), ParserError>((expr_abs(e2), p2 as int)),
            Err(er) => err_in(er, bound) && sp_postfix(toks@, expr_abs(e), cur as int) == Err::<
                (SpExpr, int),
                ParserError,
            >(er),
        },
    decreases toks@.len() - cur, 5int,
{
    let ghost e0 = e;
    if cur >= toks.len() {
        return Ok((e, cur));
    }
    if matches!(&toks[cur].kind, TokenKind::LeftParen) {
        match parse_args(toks, cur, Ghost(bound)) {
            Ok((args, p2)) => {
                let e2 = Expression::Call(Box::new(e), args);
                proof {
                    assert(expr_valid(e2));
                    assert(expr_abs(e2) == SpExpr::Call(Box::new(expr_abs(e0)), exprs_abs(args@)));
                    assert(sp_postfix(toks@, expr_abs(e0), cur as int) == sp_postfix(
                        toks@,
                        expr_abs(e2),
                        p2 as int,
                    ));
                }
                parse_postfix(toks, e2, p2, Ghost(bound))
            },
            Err(er) => Err(er),
        }
    } else if matches!(&toks[cur].kind, TokenKind::LeftBracket) {
        if cur + 1 < toks.len() && matches!(&toks[cur + 1].kind, TokenKind::RightBracket) {
            let e2 = Expression::Index(Box::new(e), None);
            proof {
                assert(expr_valid(e2));
                assert(expr_abs(e2) == SpExpr::Index(Box::new(expr_abs(e0)), None));
                assert(sp_postfix(toks@, expr_abs(e0), cur as int) == sp_postfix(
                    toks@,
                    expr_abs(e2),
                    cur + 2,
                ));
            }
            parse_postfix(toks, e2, cur + 2, Ghost(bound))
        } else {
            match parse_expression(toks, cur + 1, 1, Ghost(bound)) {
                Ok((ix, p2)) => {
                    if p2 < toks.len() && matches!(&toks[p2].kind, TokenKind::RightBracket) {
                        let e2 = Expression::Index(Box::new(e), Some(Box::new(ix)));
                        proof {
                            assert(expr_valid(e2));
                            assert(expr_abs(e2) == SpExpr::Index(
                                Box::new(expr_abs(e0)),
                                Some(Box::new(expr_abs(ix))),
                            ));
                            assert(sp_postfix(toks@, expr_abs(e0), cur as int) == sp_postfix(
                                toks@,
                                expr_abs(e2),
                                p2 + 1,
                            ));
                        }
                        parse_postfix(toks, e2, p2 + 1, Ghost(bound))
                    } else {
                        Err(unexpected_at(toks, p2, Some(TokenKind::RightBracket), Ghost(bound)))
                    }
                },
                Err(er) => Err(er),
            }
        }
    } else if matches!(&toks[cur].kind, TokenKind::Dot) {
        if cur + 1 < toks.len() {
            match &toks[cur + 1].kind {
                TokenKind::Identifier(s) => {
                    let prop = Expression::Identifier(s.clone());
                    proof {
                        assert(expr_valid(prop));
                    }
                    let e2 = Expression::Dot(Box::new(e), Box::new(prop));
                    proof {
                        assert(expr_valid(e2));
                        assert(expr_abs(prop) == SpExpr::Identifier(s@));
                        assert(expr_abs(e2) == SpExpr::Dot(
                            Box::new(expr_abs(e0)),
                            Box::new(SpExpr::Identifier(s@)),
                        ));
                        assert(sp_postfix(toks@, expr_abs(e0), cur as int) == sp_postfix(
                            toks@,
                            expr_abs(e2),
                            cur + 2,
                        ));
                    }
                    parse_postfix(toks, e2, cur + 2, Ghost(bound))
                },
                _ => Err(err_at(toks, cur + 1, ParserErrorType::ExpectedIdentifier, Ghost(bound))),
            }
        } else {
            Err(unexpected_at(toks, cur + 1, None, Ghost(bound)))
        }
    } else {
        proof {
            assert(0 <= cur < toks@.len());
            assert(!(toks@[cur as int].kind is LeftParen));
            assert(!(toks@[cur as int].kind is LeftBracket));
            assert(!(toks@[cur as int].kind is Dot));
            assert(sp_postfix(toks@, expr_abs(e), cur as int) == Ok::<(SpExpr, int), ParserError>(
                (expr_abs(e), cur as int),
            ));
        }
        Ok((e, cur))
    }
}

/// Parse an array literal, starting at its `[`.
fn parse_array(toks: &Vec<Token>, pos: usize, Ghost(bound): Ghost<int>) -> (r: Result<
    (Expression, usize),
    ParserError,
>)
    requires
        toks_bounded(toks@, bound),
        bound >= 0,
        pos < toks@.len(),
        toks@[pos as int].kind is LeftBracket,
    ensures
        match r {
            Ok((e, p2)) => pos < p2 <= toks@.len() && expr_valid(e) && sp_array(toks@, pos as int)
                == Ok::<(SpExpr, int), ParserError>((expr_abs(e), p2 as int)),
            Err(e) => err_in(e, bound) && sp_array(toks@, pos as int) == Err::<
                (SpExpr, int),
                ParserError,
            >(e),
        },
    decreases toks@.len() - pos, 0int,
{
    let n: usize = toks.len();
    let items: Vec<Expression> = Vec::new();
    proof {
        assert(pos < n);
        assert(exprs_abs(items@) =~= Seq::<SpExpr>::empty());
    }
    parse_array_rest(toks, items, pos + 1, Ghost(bound))
}

/// Parse the items of an array literal after those already in `items`.
fn parse_array_rest(
    toks: &Vec<Token>,
    items: Vec<Expression>,
    cur: usize,
    Ghost(bound): Ghost<int>,
) -> (r: Result<(Expression, usize), ParserError>)
    requires
        toks_bounded(toks@, bound),
        bound >= 0,
        cur <= toks@.len(),
        exprs_valid(items@),
    ensures
        match r {
            Ok((e, p2)) => cur < p2 <= toks@.len() && expr_valid(e) && sp_array_rest(
                toks@,
                exprs_abs(items@),
                cur as int,
            ) == Ok::<(SpExpr, int), ParserError>((expr_abs(e), p2 as int)),
            Err(e) => err_in(e, bound) && sp_array_rest(toks@, exprs_abs(items@), cur as int)
                == Err::<(SpExpr, int), ParserError>(e),
        },
    decreases toks@.len() - cur, 5int,
{
    if cur >= toks.len() {
        return Err(unexpected_at(toks, cur, Some(TokenKind::RightBracket), Ghost(bound)));
    }
    if matches!(&toks[cur].kind, TokenKind::RightBracket) {
        let e = Expression::Array(items);
        proof {
            assert(expr_valid(e));
        }
        return Ok((e, cur + 1));
    }
    match parse_expression(toks, cur, 1, Ghost(bound)) {
        Ok((item, p2)) => {
            let ghost i0 = items@;
            let mut items2 = items;
            proof {
                lemma_exprs_valid_push(i0, item);
                lemma_exprs_abs_push(i0, item);
            }
            items2.push(item);
            parse_array_fin(toks, items2, p2, Ghost(bound))
        },
        Err(er) => Err(er),
    }
}

/// After one array item: a comma continues the list, a `]` closes it.
fn parse_array_fin(
    toks: &Vec<Token>,
    items: Vec<Expression>,
    cur: usize,
    Ghost(bound): Ghost<int>,
) -> (r: Result<(Expression, usize), ParserError>)
    requires
        toks_bounded(toks@, bound),
        bound >= 0,
        cur <= toks@.len(),
        exprs_valid(items@),
    ensures
        match r {
            Ok((e, p2)) => cur < p2 <= toks@.len() && expr_valid(e) && sp_array_fin(
                toks@,
                exprs_abs(items@),
                cur as int,
            ) == Ok::<(SpExpr, int), ParserError>((expr_abs(e), p2 as int)),
            Err(e) => err_in(e, bound) && sp_array_fin(toks@, exprs_abs(items@), cur as int)
                == Err::<(SpExpr, int), ParserError>(e),
        },
    decreases toks@.len() - cur, 6int,
{
    if cur < toks.len() && matches!(&toks[cur].kind, TokenKind::Comma) {
        parse_array_rest(toks, items, cur + 1, Ghost(bound))
    } else if cur < toks.len() && matches!(&toks[cur].kind, TokenKind::RightBracket) {
        let e = Expression::Array(items);
        proof {
            assert(expr_valid(e));
        }
        Ok((e, cur + 1))
    } else {
        Err(unexpected_at(toks, cur, Some(TokenKind::RightBracket), Ghost(bound)))
    }
}

/// Parse a parenthesised, comma-separated argument list, starting at `(`.
fn parse_args(toks: &Vec<Token>, pos: usize, Ghost(bound): Ghost<int>) -> (r: Result<
    (Vec<Expression>, usize),
    ParserError,
>)
    requires
        toks_bounded(toks@, bound),
        bound >= 0,
        pos < toks@.len(),
        toks@[pos as int].kind is LeftParen,
    ensures
        match r {
            Ok((args, p2)) => pos < p2 <= toks@.len() && exprs_valid(args@) && sp_args(
                toks@,
                pos as int,
            ) == Ok::<(Seq<SpExpr>, int), ParserError>((exprs_abs(args@), p2 as int)),
            Err(e) => err_in(e, bound) && sp_args(toks@, pos as int) == Err::<
                (Seq<SpExpr>, int),
                ParserError,
            >(e),
        },
    decreases toks@.len() - pos, 0int,
{
    let n: usize = toks.len();
    let args: Vec<Expression> = Vec::new();
    proof {
        assert(pos < n);
        assert(exprs_abs(args@) =~= Seq::<SpExpr>::empty());
    }
    parse_args_rest(toks, args, pos + 1, Ghost(bound))
}

/// Parse the arguments of a call after those already in `args`.
fn parse_args_rest(
    toks: &Vec<Token>,
    args: Vec<Expression>,
    cur: usize,
    Ghost(bound): Ghost<int>,
) -> (r: Result<(Vec<Expression>, usize), ParserError>)
    requires
        toks_bounded(toks@, bound),
        bound >= 0,
        cur <= toks@.len(),
        exprs_valid(args@),
    ensures
        match r {
            Ok((a2, p2)) => cur < p2 <= toks@.len() && exprs_valid(a2@) && sp_args_rest(
                toks@,
                exprs_abs(args@),
                cur as int,
            ) == Ok::<(Seq<SpExpr>, int), ParserError>((exprs_abs(a2@), p2 as int)),
            Err(e) => err_in(e, bound) && sp_args_rest(toks@, exprs_abs(args@), cur as int)
                == Err::<(Seq<SpExpr>, int), ParserError>(e),
        },
    decreases toks@.len() - cur, 5int,
{
    if cur >= toks.len() {
        return Err(unexpected_at(toks, cur, Some(TokenKind::RightParen), Ghost(bound)));
    }
    if matches!(&toks[cur].kind, TokenKind::RightParen) {
        return Ok((args, cur + 1));
    }
    match parse_expression(toks, cur, 1, Ghost(bound)) {
        Ok((arg, p2)) => {
            let ghost a0 = args@;
            let mut args2 = args;
            proof {
                lemma_exprs_valid_push(a0, arg);
                lemma_exprs_abs_push(a0, arg);
            }
            args2.push(arg);
            parse_args_fin(toks, args2, p2, Ghost(bound))
        },
        Err(er) => Err(er),
    }
}

/// After one argument: a comma continues the list, a `)` closes it.
fn parse_args_fin(
    toks: &Vec<Token>,
    args: Vec<Expression>,
    cur: usize,
    Ghost(bound): Ghost<int>,
) -> (r: Result<(Vec<Expression>, usize), ParserError>)
    requires
        toks_bounded(toks@, bound),
        bound >= 0,
        cur <= toks@.len(),
        exprs_valid(args@),
    ensures
        match r {
            Ok((a2, p2)) => cur < p2 <= toks@.len() && exprs_valid(a2@) && sp_args_fin(
                toks@,
                exprs_abs(args@),
                cur as int,
            ) == Ok::<(Seq<SpExpr>, int), ParserError>((exprs_abs(a2@), p2 as int)),
            Err(e) => err_in(e, bound) && sp_args_fin(toks@, exprs_abs(args@), cur as int) == Err::<
                (Seq<SpExpr>, int),
                ParserError,
            >(e),
        },
    decreases toks@.len() - cur, 6int,
{
    if cur < toks.len() && matches!(&toks[cur].kind, TokenKind::Comma) {
        parse_args_rest(toks, args, cur + 1, Ghost(bound))
    } else if cur < toks.len() && matches!(&toks[cur].kind, TokenKind::RightParen) {
        Ok((args, cur + 1))
    } else {
        Err(unexpected_at(toks, cur, Some(TokenKind::RightParen), Ghost(bound)))
    }
}

/// Parse a closure: `fn (params) { body }` or `fn (params) => expression`,
/// the latter desugared to a body of one `return`.
fn parse_closure(toks: &Vec<Token>, pos: usize, Ghost(bound): Ghost<int>) -> (r: Result<
    (Expression, usize),
    ParserError,
>)
    requires
        toks_bounded(toks@, bound),
        bound >= 0,
        pos < toks@.len(),
        toks@[pos as int].kind is Fn,
    ensures
        match r {
            Ok((e, p2)) => pos < p2 <= toks@.len() && expr_valid(e) && sp_closure(
                toks@,
                pos as int,
            ) == Ok::<(SpExpr, int), ParserError>((expr_abs(e), p2 as int)),
            Err(e) => err_in(e, bound) && sp_closure(toks@, pos as int) == Err::<
                (SpExpr, int),
                ParserError,
            >(e),
        },
    decreases toks@.len() - pos, 0int,
{
    let n: usize = toks.len();
    let mut cur = pos + 1;
    let (parameters, p2) = match parse_params(toks, cur, Ghost(bound)) {
        Ok(pair) => pair,
        Err(e) => {
            return Err(e);
        },
    };
    cur = p2;
    if cur < toks.len() && cur + 1 < toks.len() && matches!(&toks[cur].kind, TokenKind::Equals)
        && matches!(&toks[cur + 1].kind, TokenKind::GreaterThan) {
        match parse_expression(toks, cur + 2, 1, Ghost(bound)) {
            Ok((e, p3)) => {
                let mut body: Vec<Statement> = Vec::new();
                let st = Statement::Return { expression: e };
                proof {
                    assert(stmt_valid(st, false, false));
                }
                body.push(st);
                let cl = Expression::Closure(parameters, body);
                proof {
                    assert(body@.len() == 1 && body@[0] == st);
                    assert(body@.drop_first() =~= Seq::<Statement>::empty());
                    assert(stmts_valid(Seq::<Statement>::empty(), false, false));
                    assert(stmts_valid(body@, false, false));
                    assert(expr_valid(cl));
                    reveal_with_fuel(stmts_abs, 2);
                    assert(body@.subrange(1, 1) =~= Seq::<Statement>::empty());
                    assert(stmts_abs(body@) =~= seq![stmt_abs(st)]);
                }
                Ok((cl, p3))
            },
            Err(er) => Err(er),
        }
    } else {
        match parse_block(toks, cur, false, Ghost(bound)) {
            Ok((body, p3)) => {
                let cl = Expression::Closure(parameters, body);
                proof {
                    assert(expr_valid(cl));
                }
                Ok((cl, p3))
            },
            Err(er) => Err(er),
        }
    }
}

/// The parser: the token stream of a source, ready to be parsed.
pub struct Parser {
    tokens: Vec<Token>,
    source: Ghost<Seq<char>>,
}

impl Parser {
    /// The source the tokens were read from.
    pub closed spec fn src(self) -> Seq<char> {
        self.source@
    }

    /// The token stream.
    pub closed spec fn toks(self) -> Seq<Token> {
        self.tokens@
    }

    /// The tokens are a faithful tokenisation of the source.
    pub closed spec fn wf(self) -> bool {
        crate::lexer::lex_output_wf(self.source@, self.tokens@)
    }

    /// Drain a lexer into a parser. The tokens are exactly the
    /// tokenisation `sp_tokens` of the source.
    pub fn new(lexer: Lexer) -> (r: Parser)
        requires
            lexer.wf(),
            lexer.at() == 0,
            lexer.cur_line() == 1,
        ensures
            r.wf(),
            r.src() == lexer.src(),
            r.toks().map_values((|t: Token| crate::lexer::tok_abs(t))) == crate::lexer::sp_tokens(
                lexer.src(),
            ),
    {
        let ghost src = lexer.src();
        let mut lx = lexer;
        let mut tokens: Vec<Token> = Vec::new();
        proof {
            assert(tokens@.map_values((|t: Token| crate::lexer::tok_abs(t)))
                + crate::lexer::sp_tokens_from(src, 0, 1) =~= crate::lexer::sp_tokens(src));
        }
        loop
            invariant_except_break
                tokens@.len() > 0 ==> lx.at() == tokens@.last().span.1 && lx.cur_line()
                    == tokens@.last().line,
                tokens@.len() == 0 ==> lx.at() == 0,
            invariant
                lx.wf(),
                lx.src() == src,
                forall|i: int|
                    0 <= i < tokens@.len() ==> crate::lexer::token_wf(src, #[trigger] tokens@[i]),
                forall|i: int|
                    0 < i < tokens@.len() ==> {
                        &&& tokens@[i - 1].span.1 <= (#[trigger] tokens@[i]).span.0
                        &&& crate::lexer::ws_only(
                            src,
                            tokens@[i - 1].span.1 as int,
                            tokens@[i].span.0 as int,
                        )
                        &&& tokens@[i - 1].line <= tokens@[i].line
                    },
                tokens@.len() > 0 ==> crate::lexer::ws_only(src, 0, tokens@[0].span.0 as int),
                tokens@.map_values((|t: Token| crate::lexer::tok_abs(t)))
                    + crate::lexer::sp_tokens_from(src, lx.at(), lx.cur_line())
                    == crate::lexer::sp_tokens(src),
            ensures
                crate::lexer::lex_output_wf(src, tokens@),
                tokens@.map_values((|t: Token| crate::lexer::tok_abs(t)))
                    == crate::lexer::sp_tokens(src),
            decreases src.len() - lx.at(),
        {
            let ghost at0 = lx.at();
            let ghost l0 = lx.cur_line();
            let ghost before = tokens@;
            let t = lx.next();
            match t {
                Some(tok) => {
                    tokens.push(tok);
                    proof {
                        assert(crate::lexer::sp_tokens_from(src, at0, l0) == seq![
                            crate::lexer::tok_abs(tok),
                        ] + crate::lexer::sp_tokens_from(src, lx.at(), lx.cur_line()));
                        assert(tokens@.map_values((|t: Token| crate::lexer::tok_abs(t)))
                            =~= before.map_values((|t: Token| crate::lexer::tok_abs(t))).push(
                            crate::lexer::tok_abs(tok),
                        ));
                        assert(tokens@.map_values((|t: Token| crate::lexer::tok_abs(t)))
                            + crate::lexer::sp_tokens_from(src, lx.at(), lx.cur_line())
                            =~= before.map_values((|t: Token| crate::lexer::tok_abs(t)))
                            + crate::lexer::sp_tokens_from(src, at0, l0));
                    }
                },
                None => {
                    proof {
                        assert(crate::lexer::sp_tokens_from(src, at0, l0) =~= Seq::<
                            crate::lexer::SpToken,
                        >::empty());
                        assert(tokens@.map_values((|t: Token| crate::lexer::tok_abs(t))) + Seq::<
                            crate::lexer::SpToken,
                        >::empty() =~= tokens@.map_values((|t: Token| crate::lexer::tok_abs(t))));
                    }
                    break ;
                },
            }
        }
        Parser { tokens, source: Ghost(src) }
    }

    /// Parse the token stream into a program.
    ///
    /// On success the program satisfies the structural invariants: every
    /// `break` and `continue` stands inside a `while` body and every
    /// function declaration stands at top level. On failure exactly one
    /// error is returned, and its span lies within the source bounds.
    pub fn parse(self) -> (r: Result<Program, ParserError>)
        requires
            self.wf(),
        ensures
            match r {
                Ok(prog) => stmts_valid(prog@, false, true) && sp_program(self.toks()) == Ok::<
                    Seq<SpStmt>,
                    ParserError,
                >(stmts_abs(prog@)),
                Err(e) => e.span.0 <= e.span.1 <= self.src().len() && sp_program(self.toks())
                    == Err::<Seq<SpStmt>, ParserError>(e),
            },
    {
        proof {
            lemma_lex_output_bounded(self.source@, self.tokens@);
        }
        parse_tokens(&self.tokens, Ghost(self.source@.len() as int))
    }
}

/// A faithful tokenisation has all token spans ordered and in bounds.
proof fn lemma_lex_output_bounded(src: Seq<char>, toks: Seq<Token>)
    requires
        crate::lexer::lex_output_wf(src, toks),
    ensures
        toks_bounded(toks, src.len() as int),
{
    assert forall|i: int| 0 <= i < toks.len() implies (#[trigger] toks[i]).span.0 <= toks[i].span.1
        && toks[i].span.1 <= src.len() by {
        assert(crate::lexer::token_wf(src, toks[i]));
    }
}

/// Parse a whole source string: lex, then parse.
///
/// The result is a function of the source alone: the lexer's tokens are
/// exactly `sp_tokens` of the source, and the program (or the one error)
/// is exactly `sp_program` of those tokens.
pub fn parse(source: &str) -> (r: Result<Program, ParserError>)
    ensures
        match r {
            Ok(prog) => stmts_valid(prog@, false, true),
            Err(e) => e.span.0 <= e.span.1 <= source@.len(),
        },
        exists|toks: Seq<Token>|
            {
                &&& #[trigger] crate::lexer::toks_abs(toks) == crate::lexer::sp_tokens(source@)
                &&& match r {
                    Ok(prog) => sp_program(toks) == Ok::<Seq<SpStmt>, ParserError>(
                        stmts_abs(prog@),
                    ),
                    Err(e) => sp_program(toks) == Err::<Seq<SpStmt>, ParserError>(e),
                }
            },
{
    let p = Parser::new(Lexer::new(source));
    let ghost toks = p.toks();
    let r = p.parse();
    proof {
        assert(crate::lexer::toks_abs(toks) =~= toks.map_values((|t: Token| crate::lexer::tok_abs(t))));
        assert(crate::lexer::toks_abs(toks) == crate::lexer::sp_tokens(source@));
    }
    r
}

} // verus!
