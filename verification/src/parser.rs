//! The parser: recursive descent with operator-precedence expression
//! parsing. Statement-level failures are collected as diagnostics and
//! parsing continues with the next statement.
//!
//! The spec functions ending in `_s` describe the parse mathematically over
//! the token stream; the executable parser is proved to build exactly the
//! program and the diagnostics they say.
use crate::ast::{stmts_view, ExprV, Expression, Program, Statement, StmtV};
use crate::lexer::{lex_all, Lexer};
use crate::token::{tok_text, Tok, Token};
use vstd::prelude::*;

verus! {

broadcast use vstd::seq::group_seq_axioms, vstd::std_specs::vec::group_vec_axioms;

/// Operator precedence levels, low to high.
pub const PREC_LOWEST: u8 = 0;

pub const PREC_EQUALS: u8 = 1;

pub const PREC_LESSGREATER: u8 = 2;

pub const PREC_SUM: u8 = 3;

pub const PREC_PRODUCT: u8 = 4;

pub const PREC_PREFIX: u8 = 5;

pub const PREC_CALL: u8 = 6;

pub const PREC_INDEX: u8 = 7;

/// The precedence that a token binds with in infix position.
pub open spec fn prec_of(t: Tok) -> int {
    match t {
        Tok::Eq => PREC_EQUALS as int,
        Tok::Ne => PREC_EQUALS as int,
        Tok::Lt => PREC_LESSGREATER as int,
        Tok::Gt => PREC_LESSGREATER as int,
        Tok::Plus => PREC_SUM as int,
        Tok::Minus => PREC_SUM as int,
        Tok::Slash => PREC_PRODUCT as int,
        Tok::Asterisk => PREC_PRODUCT as int,
        Tok::LParen => PREC_CALL as int,
        Tok::LBracket => PREC_INDEX as int,
        _ => PREC_LOWEST as int,
    }
}

/// The token at position `i`, with the end token standing in past the end.
pub open spec fn tok_at(ts: Seq<Tok>, i: int) -> Tok {
    if 0 <= i < ts.len() {
        ts[i]
    } else {
        Tok::Eof
    }
}

/// One cursor step: forward by one, stopping on the last token.
pub open spec fn advance(ts: Seq<Tok>, p: int) -> int {
    if p + 1 < ts.len() {
        p + 1
    } else {
        p
    }
}

/// Clamps a sub-parse's resulting position so that it strictly advances
/// past `base`; on a well-formed run the result is `p` itself.
pub open spec fn after(ts: Seq<Tok>, base: int, p: int) -> int {
    if base < p && p < ts.len() {
        p
    } else if base + 1 < ts.len() {
        base + 1
    } else {
        ts.len() as int
    }
}

/// Clamps a sub-parse's resulting position so that it does not move
/// backwards past `base`; on a well-formed run the result is `p` itself.
pub open spec fn after0(ts: Seq<Tok>, base: int, p: int) -> int {
    if base <= p && p < ts.len() {
        p
    } else {
        base
    }
}

/// The diagnostic for a structural expectation that failed.
pub open spec fn expected_text(expected: Tok, got: Tok) -> Seq<char> {
    "expected next token to be "@ + tok_text(expected) + ", got "@ + tok_text(got) + " instead"@
}

/// The diagnostic for a missing identifier.
pub open spec fn expected_ident_text(got: Tok) -> Seq<char> {
    "expected next token to be Ident, got "@ + tok_text(got) + " instead"@
}

/// The diagnostic for a token no prefix rule accepts.
pub open spec fn no_prefix_text(t: Tok) -> Seq<char> {
    "no prefix parse function for "@ + tok_text(t) + " found"@
}

/// Consumes every semicolon directly after the current token.
pub open spec fn skip_semis_s(ts: Seq<Tok>, pos: int) -> int
    decreases ts.len() - pos, 0int,
{
    if tok_at(ts, pos + 1) == Tok::Semicolon {
        skip_semis_s(ts, advance(ts, pos))
    } else {
        pos
    }
}

/// Parses the whole token stream: one statement at a time, each failure
/// appended to the diagnostics and parsing resumed at the next token.
pub open spec fn parse_program_s(
    ts: Seq<Tok>,
    pos: int,
    stmts: Seq<StmtV>,
    errs: Seq<Seq<char>>,
) -> (Seq<StmtV>, Seq<Seq<char>>, int)
    decreases ts.len() - pos, 9int,
{
    if tok_at(ts, pos) == Tok::Eof {
        (stmts, errs, pos)
    } else {
        let (r, p1) = parse_statement_s(ts, pos);
        let p2 = after(ts, pos, advance(ts, p1));
        match r {
            Ok(st) => parse_program_s(ts, p2, stmts.push(st), errs),
            Err(m) => parse_program_s(ts, p2, stmts, errs.push(m)),
        }
    }
}

/// Statement dispatch on the current token.
pub open spec fn parse_statement_s(ts: Seq<Tok>, pos: int) -> (Result<StmtV, Seq<char>>, int)
    decreases ts.len() - pos, 8int,
{
    match tok_at(ts, pos) {
        Tok::Let => parse_let_s(ts, pos),
        Tok::Return => parse_return_s(ts, pos),
        _ => parse_exprstmt_s(ts, pos),
    }
}

/// `let` name `=` expression, with optional trailing semicolons.
pub open spec fn parse_let_s(ts: Seq<Tok>, pos: int) -> (Result<StmtV, Seq<char>>, int)
    decreases ts.len() - pos, 7int,
{
    match tok_at(ts, pos + 1) {
        Tok::Identifier(name) => {
            let p1 = pos + 1;
            if tok_at(ts, p1 + 1) == Tok::Assign {
                let p2 = p1 + 1;
                let (r, p3) = parse_expression_s(ts, advance(ts, p2), PREC_LOWEST as int);
                match r {
                    Ok(value) => (
                        Ok(
                            StmtV::Let { name: ExprV::Identifier(name), value },
                        ),
                        skip_semis_s(ts, after0(ts, pos, p3)),
                    ),
                    Err(m) => (Err(m), p3),
                }
            } else {
                (Err(expected_text(Tok::Assign, tok_at(ts, p1 + 1))), p1)
            }
        },
        t => (Err(expected_ident_text(t)), pos),
    }
}

/// `return` expression, with optional trailing semicolons.
pub open spec fn parse_return_s(ts: Seq<Tok>, pos: int) -> (Result<StmtV, Seq<char>>, int)
    decreases ts.len() - pos, 7int,
{
    let (r, p1) = parse_expression_s(ts, advance(ts, pos), PREC_LOWEST as int);
    match r {
        Ok(value) => (Ok(StmtV::Return(value)), skip_semis_s(ts, after0(ts, pos, p1))),
        Err(m) => (Err(m), p1),
    }
}

/// A bare expression in statement position, with optional trailing
/// semicolons.
pub open spec fn parse_exprstmt_s(ts: Seq<Tok>, pos: int) -> (Result<StmtV, Seq<char>>, int)
    decreases ts.len() - pos, 7int,
{
    let (r, p1) = parse_expression_s(ts, pos, PREC_LOWEST as int);
    match r {
        Ok(e) => (Ok(StmtV::Expression(e)), skip_semis_s(ts, after0(ts, pos, p1))),
        Err(m) => (Err(m), p1),
    }
}

/// The statements of a block, read until a closing brace or end of input.
/// `pos` is the position of the first statement's first token.
pub open spec fn parse_block_s(ts: Seq<Tok>, pos: int, acc: Seq<StmtV>) -> (
    Result<Seq<StmtV>, Seq<char>>,
    int,
)
    decreases ts.len() - pos, 9int,
{
    if tok_at(ts, pos) == Tok::RBrace || tok_at(ts, pos) == Tok::Eof {
        (Ok(acc), pos)
    } else {
        let (r, p1) = parse_statement_s(ts, pos);
        match r {
            Ok(st) => parse_block_s(ts, after(ts, pos, advance(ts, p1)), acc.push(st)),
            Err(m) => (Err(m), p1),
        }
    }
}

/// Precedence-climbing expression parsing: a primary expression, then the
/// infix loop.
pub open spec fn parse_expression_s(ts: Seq<Tok>, pos: int, prec: int) -> (
    Result<ExprV, Seq<char>>,
    int,
)
    decreases ts.len() - pos, 6int,
{
    let (r, p1) = match tok_at(ts, pos) {
        Tok::Identifier(name) => (Ok(ExprV::Identifier(name)), pos),
        Tok::Integer(v) => (Ok(ExprV::Integer(v)), pos),
        Tok::String(s) => (Ok(ExprV::Strings(s)), pos),
        Tok::True => (Ok(ExprV::Boolean(true)), pos),
        Tok::False => (Ok(ExprV::Boolean(false)), pos),
        Tok::Bang => parse_prefix_s(ts, pos),
        Tok::Minus => parse_prefix_s(ts, pos),
        Tok::LParen => parse_grouped_s(ts, pos),
        Tok::If => parse_if_s(ts, pos),
        Tok::Function => parse_function_s(ts, pos),
        Tok::LBracket => parse_array_s(ts, pos),
        Tok::LBrace => parse_map_s(ts, pos),
        t => (Err(no_prefix_text(t)), pos),
    };
    match r {
        Ok(left) => parse_infix_s(ts, after0(ts, pos, p1), prec, left),
        Err(m) => (Err(m), p1),
    }
}

/// The infix loop: while the peek token binds tighter than the caller's
/// bound, extend the expression to the left.
pub open spec fn parse_infix_s(ts: Seq<Tok>, pos: int, prec: int, left: ExprV) -> (
    Result<ExprV, Seq<char>>,
    int,
)
    decreases ts.len() - pos, 4int,
{
    let pk = tok_at(ts, pos + 1);
    if pk == Tok::Semicolon || prec >= prec_of(pk) {
        (Ok(left), pos)
    } else {
        match pk {
            Tok::LParen => {
                let (r, p1) = parse_exprs_s(ts, pos + 1, Tok::RParen);
                match r {
                    Ok(args) => parse_infix_s(
                        ts,
                        after(ts, pos, p1),
                        prec,
                        ExprV::Call { function: Box::new(left), arguments: args },
                    ),
                    Err(m) => (Err(m), p1),
                }
            },
            Tok::LBracket => {
                let (r, p1) = parse_expression_s(
                    ts,
                    advance(ts, pos + 1),
                    PREC_LOWEST as int,
                );
                match r {
                    Ok(index) => {
                        if tok_at(ts, p1 + 1) == Tok::RBracket {
                            parse_infix_s(
                                ts,
                                after(ts, pos, p1 + 1),
                                prec,
                                ExprV::Index { left: Box::new(left), index: Box::new(index) },
                            )
                        } else {
                            (Err(expected_text(Tok::RBracket, tok_at(ts, p1 + 1))), p1)
                        }
                    },
                    Err(m) => (Err(m), p1),
                }
            },
            Tok::Plus | Tok::Minus | Tok::Asterisk | Tok::Slash | Tok::Lt | Tok::Gt | Tok::Eq
                | Tok::Ne => {
                let (r, p1) = parse_expression_s(ts, advance(ts, pos + 1), prec_of(pk));
                match r {
                    Ok(right) => parse_infix_s(
                        ts,
                        after(ts, pos, p1),
                        prec,
                        ExprV::Infix {
                            left: Box::new(left),
                            operator: pk,
                            right: Box::new(right),
                        },
                    ),
                    Err(m) => (Err(m), p1),
                }
            },
            _ => (Ok(left), pos),
        }
    }
}

/// A unary prefix operator applied to an operand parsed at prefix level.
pub open spec fn parse_prefix_s(ts: Seq<Tok>, pos: int) -> (Result<ExprV, Seq<char>>, int)
    decreases ts.len() - pos, 5int,
{
    let op = tok_at(ts, pos);
    let p1 = advance(ts, pos);
    if p1 == pos {
        (Err(no_prefix_text(tok_at(ts, p1))), pos)
    } else {
        let (r, p2) = parse_expression_s(ts, p1, PREC_PREFIX as int);
        match r {
            Ok(right) => (Ok(ExprV::Prefix { operator: op, right: Box::new(right) }), p2),
            Err(m) => (Err(m), p2),
        }
    }
}

/// A parenthesized expression, kept as a grouping node for display.
pub open spec fn parse_grouped_s(ts: Seq<Tok>, pos: int) -> (Result<ExprV, Seq<char>>, int)
    decreases ts.len() - pos, 5int,
{
    let p1 = advance(ts, pos);
    if p1 == pos {
        (Err(no_prefix_text(tok_at(ts, p1))), pos)
    } else {
        let (r, p2) = parse_expression_s(ts, p1, PREC_LOWEST as int);
        match r {
            Ok(inner) => {
                if tok_at(ts, p2 + 1) == Tok::RParen {
                    (Ok(ExprV::Grouped(Box::new(inner))), p2 + 1)
                } else {
                    (Err(expected_text(Tok::RParen, tok_at(ts, p2 + 1))), p2)
                }
            },
            Err(m) => (Err(m), p2),
        }
    }
}

/// An `if` expression: parenthesized condition, brace-block consequence,
/// optional `else` with a brace-block alternative.
pub open spec fn parse_if_s(ts: Seq<Tok>, pos: int) -> (Result<ExprV, Seq<char>>, int)
    decreases ts.len() - pos, 5int,
{
    if tok_at(ts, pos + 1) != Tok::LParen {
        (Err(expected_text(Tok::LParen, tok_at(ts, pos + 1))), pos)
    } else {
        let (r, p1) = parse_expression_s(ts, advance(ts, pos + 1), PREC_LOWEST as int);
        match r {
            Err(m) => (Err(m), p1),
            Ok(condition) => {
                if tok_at(ts, p1 + 1) != Tok::RParen {
                    (Err(expected_text(Tok::RParen, tok_at(ts, p1 + 1))), p1)
                } else if tok_at(ts, p1 + 2) != Tok::LBrace {
                    (Err(expected_text(Tok::LBrace, tok_at(ts, p1 + 2))), p1 + 1)
                } else {
                    let (rc, p2) = parse_block_s(
                        ts,
                        after(ts, pos, advance(ts, p1 + 2)),
                        Seq::empty(),
                    );
                    match rc {
                        Err(m) => (Err(m), p2),
                        Ok(consequence) => {
                            if tok_at(ts, p2 + 1) == Tok::Else {
                                if tok_at(ts, p2 + 2) != Tok::LBrace {
                                    (Err(expected_text(Tok::LBrace, tok_at(ts, p2 + 2))), p2 + 1)
                                } else {
                                    let (ra, p3) = parse_block_s(
                                        ts,
                                        after(ts, pos, advance(ts, p2 + 2)),
                                        Seq::empty(),
                                    );
                                    match ra {
                                        Err(m) => (Err(m), p3),
                                        Ok(alternative) => (
                                            Ok(
                                                ExprV::If {
                                                    condition: Box::new(condition),
                                                    consequence: Box::new(
                                                        StmtV::Block(consequence),
                                                    ),
                                                    alternative: Some(
                                                        Box::new(StmtV::Block(alternative)),
                                                    ),
                                                },
                                            ),
                                            p3,
                                        ),
                                    }
                                }
                            } else {
                                (
                                    Ok(
                                        ExprV::If {
                                            condition: Box::new(condition),
                                            consequence: Box::new(StmtV::Block(consequence)),
                                            alternative: None,
                                        },
                                    ),
                                    p2,
                                )
                            }
                        },
                    }
                }
            },
        }
    }
}

/// A function literal: parameter identifiers, then a brace-block body.
pub open spec fn parse_function_s(ts: Seq<Tok>, pos: int) -> (Result<ExprV, Seq<char>>, int)
    decreases ts.len() - pos, 5int,
{
    if tok_at(ts, pos + 1) != Tok::LParen {
        (Err(expected_text(Tok::LParen, tok_at(ts, pos + 1))), pos)
    } else {
        let (rp, p1) = parse_params_s(ts, pos + 1, Seq::empty());
        match rp {
            Err(m) => (Err(m), p1),
            Ok(parameters) => {
                if tok_at(ts, p1 + 1) != Tok::LBrace {
                    (Err(expected_text(Tok::LBrace, tok_at(ts, p1 + 1))), p1)
                } else {
                    let (rb, p2) = parse_block_s(
                        ts,
                        after(ts, pos, advance(ts, p1 + 1)),
                        Seq::empty(),
                    );
                    match rb {
                        Err(m) => (Err(m), p2),
                        Ok(body) => (
                            Ok(
                                ExprV::Function {
                                    parameters,
                                    body: Box::new(StmtV::Block(body)),
                                },
                            ),
                            p2,
                        ),
                    }
                }
            },
        }
    }
}

/// Comma-separated parameter identifiers up to the closing parenthesis;
/// `pos` is the opening parenthesis.
pub open spec fn parse_params_s(ts: Seq<Tok>, pos: int, acc: Seq<ExprV>) -> (
    Result<Seq<ExprV>, Seq<char>>,
    int,
)
    decreases ts.len() - pos, 3int,
{
    if acc.len() == 0 && tok_at(ts, pos + 1) == Tok::RParen {
        (Ok(acc), pos + 1)
    } else if acc.len() == 0 {
        match tok_at(ts, pos + 1) {
            Tok::Identifier(name) => parse_params_s(
                ts,
                after(ts, pos, pos + 1),
                acc.push(ExprV::Identifier(name)),
            ),
            t => (Err(expected_ident_text(t)), pos),
        }
    } else if tok_at(ts, pos + 1) == Tok::Comma {
        match tok_at(ts, pos + 2) {
            Tok::Identifier(name) => parse_params_s(
                ts,
                after(ts, pos, pos + 2),
                acc.push(ExprV::Identifier(name)),
            ),
            t => (Err(expected_ident_text(t)), pos + 1),
        }
    } else if tok_at(ts, pos + 1) == Tok::RParen {
        (Ok(acc), pos + 1)
    } else {
        (Err(expected_text(Tok::RParen, tok_at(ts, pos + 1))), pos)
    }
}

/// Comma-separated expressions up to the closing delimiter; `pos` is the
/// opening delimiter.
pub open spec fn parse_exprs_s(ts: Seq<Tok>, pos: int, end: Tok) -> (
    Result<Seq<ExprV>, Seq<char>>,
    int,
)
    decreases ts.len() - pos, 3int,
{
    if tok_at(ts, pos + 1) == end {
        (Ok(Seq::empty()), pos + 1)
    } else {
        let p1 = advance(ts, pos);
        if p1 == pos {
            (Err(no_prefix_text(tok_at(ts, p1))), pos)
        } else {
            let (r, p2) = parse_expression_s(ts, p1, PREC_LOWEST as int);
            match r {
                Err(m) => (Err(m), p2),
                Ok(item) => parse_exprs_tail_s(
                    ts,
                    after(ts, pos, p2),
                    end,
                    seq![item],
                ),
            }
        }
    }
}

/// The remaining comma-separated expressions, then the closing delimiter.
pub open spec fn parse_exprs_tail_s(ts: Seq<Tok>, pos: int, end: Tok, acc: Seq<ExprV>) -> (
    Result<Seq<ExprV>, Seq<char>>,
    int,
)
    decreases ts.len() - pos, 2int,
{
    if tok_at(ts, pos + 1) == Tok::Comma {
        let (r, p1) = parse_expression_s(ts, advance(ts, pos + 1), PREC_LOWEST as int);
        match r {
            Err(m) => (Err(m), p1),
            Ok(item) => parse_exprs_tail_s(ts, after(ts, pos, p1), end, acc.push(item)),
        }
    } else if tok_at(ts, pos + 1) == end {
        (Ok(acc), pos + 1)
    } else {
        (Err(expected_text(end, tok_at(ts, pos + 1))), pos)
    }
}

/// An array literal.
pub open spec fn parse_array_s(ts: Seq<Tok>, pos: int) -> (Result<ExprV, Seq<char>>, int)
    decreases ts.len() - pos, 5int,
{
    let (r, p1) = parse_exprs_s(ts, pos, Tok::RBracket);
    match r {
        Ok(items) => (Ok(ExprV::Array(items)), p1),
        Err(m) => (Err(m), p1),
    }
}

/// A map literal: comma-separated `key: value` pairs up to the closing
/// brace; `pos` is the opening brace.
pub open spec fn parse_map_s(ts: Seq<Tok>, pos: int) -> (Result<ExprV, Seq<char>>, int)
    decreases ts.len() - pos, 5int,
{
    let (r, p1) = parse_map_pairs_s(ts, pos, Seq::empty());
    match r {
        Ok(pairs) => (Ok(ExprV::Hash(pairs)), p1),
        Err(m) => (Err(m), p1),
    }
}

pub open spec fn parse_map_pairs_s(ts: Seq<Tok>, pos: int, acc: Seq<(ExprV, ExprV)>) -> (
    Result<Seq<(ExprV, ExprV)>, Seq<char>>,
    int,
)
    decreases ts.len() - pos, 3int,
{
    if tok_at(ts, pos + 1) == Tok::RBrace {
        (Ok(acc), pos + 1)
    } else {
        let p1 = advance(ts, pos);
        if p1 == pos {
            (Err(no_prefix_text(tok_at(ts, p1))), pos)
        } else {
            let (rk, p2) = parse_expression_s(ts, p1, PREC_LOWEST as int);
            match rk {
                Err(m) => (Err(m), p2),
                Ok(key) => {
                    if tok_at(ts, p2 + 1) != Tok::Colon {
                        (Err(expected_text(Tok::Colon, tok_at(ts, p2 + 1))), p2)
                    } else {
                        let (rv, p3) = parse_expression_s(
                            ts,
                            after(ts, pos, advance(ts, p2 + 1)),
                            PREC_LOWEST as int,
                        );
                        match rv {
                            Err(m) => (Err(m), p3),
                            Ok(value) => {
                                if tok_at(ts, p3 + 1) == Tok::RBrace {
                                    parse_map_pairs_s(
                                        ts,
                                        after(ts, pos, p3),
                                        acc.push((key, value)),
                                    )
                                } else if tok_at(ts, p3 + 1) == Tok::Comma {
                                    parse_map_pairs_s(
                                        ts,
                                        after(ts, pos, p3 + 1),
                                        acc.push((key, value)),
                                    )
                                } else {
                                    (Err(expected_text(Tok::Comma, tok_at(ts, p3 + 1))), p3)
                                }
                            },
                        }
                    }
                },
            }
        }
    }
}

/// Views of a token vector, in order.
pub open spec fn toks_view(ts: Seq<Token>) -> Seq<Tok>
    decreases ts,
{
    if ts.len() == 0 {
        Seq::empty()
    } else {
        seq![ts[0]@] + toks_view(ts.drop_first())
    }
}

pub proof fn lemma_toks_view(ts: Seq<Token>)
    ensures
        toks_view(ts).len() == ts.len(),
        forall|i: int| 0 <= i < ts.len() ==> toks_view(ts)[i] == #[trigger] ts[i]@,
    decreases ts,
{
    if ts.len() > 0 {
        lemma_toks_view(ts.drop_first());
        assert forall|i: int| 0 <= i < ts.len() implies toks_view(ts)[i] == #[trigger] ts[i]@ by {
            if i > 0 {
                assert(ts.drop_first()[i - 1] == ts[i]);
                assert(toks_view(ts.drop_first())[i - 1] == ts.drop_first()[i - 1]@);
            }
        }
    }
}

/// Views of a vector of diagnostic strings, in order.
pub open spec fn strs_view(ss: Seq<String>) -> Seq<Seq<char>>
    decreases ss,
{
    if ss.len() == 0 {
        Seq::empty()
    } else {
        seq![ss[0]@] + strs_view(ss.drop_first())
    }
}

pub proof fn lemma_strs_view(ss: Seq<String>)
    ensures
        strs_view(ss).len() == ss.len(),
        forall|i: int| 0 <= i < ss.len() ==> strs_view(ss)[i] == #[trigger] ss[i]@,
    decreases ss,
{
    if ss.len() > 0 {
        lemma_strs_view(ss.drop_first());
        assert forall|i: int| 0 <= i < ss.len() implies strs_view(ss)[i] == #[trigger] ss[i]@ by {
            if i > 0 {
                assert(ss.drop_first()[i - 1] == ss[i]);
                assert(strs_view(ss.drop_first())[i - 1] == ss.drop_first()[i - 1]@);
            }
        }
    }
}

/// The parser: the token stream, a cursor into it, and the collected
/// diagnostics.
pub struct Parser {
    tokens: Vec<Token>,
    position: usize,
    errors: Vec<String>,
}

impl Parser {
    /// The token stream being parsed.
    pub closed spec fn toks(self) -> Seq<Tok> {
        toks_view(self.tokens@)
    }

    /// The current cursor position.
    pub closed spec fn pos(self) -> int {
        self.position as int
    }

    /// The diagnostics collected so far.
    pub closed spec fn errs(self) -> Seq<Seq<char>> {
        strs_view(self.errors@)
    }

    /// The stream ends in exactly one end token and the cursor is inside it.
    pub closed spec fn wf(self) -> bool {
        &&& self.toks().len() >= 1
        &&& self.pos() < self.toks().len()
        &&& self.toks()[self.toks().len() - 1] == Tok::Eof
        &&& forall|i: int| 0 <= i < self.toks().len() - 1 ==> self.toks()[i] != Tok::Eof
    }

    /// Builds a parser by drawing every token out of the lexer, up to and
    /// including the first end token.
    pub fn new(lexer: &mut Lexer) -> (r: Parser)
        requires
            old(lexer).wf(),
        ensures
            r.wf(),
            r.pos() == 0,
            r.errs() == Seq::<Seq<char>>::empty(),
            r.toks() == lex_all(old(lexer).text(), old(lexer).pos()),
            final(lexer).wf(),
    {
        let ghost text = lexer.text();
        let ghost pos0 = lexer.pos();
        proof {
            lexer.lemma_wf_bounds();
            crate::lexer::lemma_next_token_advances(text, pos0);
        }
        let mut tokens: Vec<Token> = Vec::new();
        let mut done = false;
        proof {
            assert(toks_view(tokens@) =~= Seq::<Tok>::empty());
        }
        while !done
            invariant
                lexer.wf(),
                lexer.text() == text,
                0 <= pos0 <= text.len(),
                0 <= lexer.pos() <= text.len(),
                !done ==> lex_all(text, pos0) == toks_view(tokens@) + lex_all(text, lexer.pos()),
                !done ==> forall|j: int|
                    0 <= j < toks_view(tokens@).len() ==> toks_view(tokens@)[j] != Tok::Eof,
                done ==> lex_all(text, pos0) == toks_view(tokens@),
                done ==> toks_view(tokens@).len() >= 1,
                done ==> toks_view(tokens@)[toks_view(tokens@).len() - 1] == Tok::Eof,
                done ==> forall|j: int|
                    0 <= j < toks_view(tokens@).len() - 1 ==> toks_view(tokens@)[j] != Tok::Eof,
            decreases (text.len() - lexer.pos()) * 2 + (if done {
                0int
            } else {
                1int
            }),
        {
            proof {
                crate::lexer::lemma_next_token_advances(text, lexer.pos());
            }
            let ghost toks0 = tokens@;
            let token = lexer.next_token();
            let is_eof = match &token {
                Token::Eof => true,
                _ => false,
            };
            tokens.push(token);
            proof {
                lemma_toks_view(tokens@);
                lemma_toks_view(toks0);
                assert forall|j: int|
                    0 <= j < tokens@.len() implies toks_view(tokens@)[j] == toks_view(toks0).push(
                    token@,
                )[j] by {
                    if j < toks0.len() {
                        assert(tokens@[j] == toks0[j]);
                        assert(tokens@[j]@ == toks0[j]@);
                    } else {
                        assert(tokens@[j]@ == token@);
                    }
                }
                assert(toks_view(tokens@) =~= toks_view(toks0).push(token@));
                if is_eof {
                    assert(toks_view(toks0) + seq![Tok::Eof] =~= toks_view(toks0).push(token@));
                } else {
                    assert(toks_view(toks0).push(token@) + lex_all(text, lexer.pos())
                        =~= toks_view(toks0) + (seq![token@] + lex_all(text, lexer.pos())));
                }
            }
            if is_eof {
                done = true;
            }
        }
        let r = Parser { tokens, position: 0, errors: Vec::new() };
        proof {
            assert(strs_view(r.errors@) =~= Seq::<Seq<char>>::empty());
            assert(r.toks() == toks_view(r.tokens@));
        }
        r
    }

    /// Whether any syntax diagnostics were collected.
    pub fn exists_errors(&mut self) -> (r: bool)
        ensures
            *final(self) == *old(self),
            r == (old(self).errs().len() > 0),
    {
        proof {
            lemma_strs_view(self.errors@);
        }
        self.errors.len() > 0
    }

    /// The collected syntax diagnostics.
    pub fn get_errors(&mut self) -> (r: Vec<String>)
        ensures
            *final(self) == *old(self),
            strs_view(r@) == old(self).errs(),
            r@.len() == old(self).errs().len(),
    {
        proof {
            lemma_strs_view(self.errors@);
        }
        let mut out: Vec<String> = Vec::new();
        let mut i: usize = 0;
        while i < self.errors.len()
            invariant
                *self == *old(self),
                0 <= i <= self.errors@.len(),
                out@.len() == i,
                forall|j: int| 0 <= j < i ==> #[trigger] out@[j]@ == self.errors@[j]@,
            decreases self.errors@.len() - i,
        {
            let piece = self.errors[i].clone();
            out.push(piece);
            i = i + 1;
        }
        proof {
            lemma_strs_view(out@);
            lemma_strs_view(self.errors@);
            assert forall|j: int|
                0 <= j < out@.len() implies strs_view(out@)[j] == strs_view(self.errors@)[j] by {
                assert(out@[j]@ == self.errors@[j]@);
            }
            assert(strs_view(out@) =~= strs_view(self.errors@));
        }
        out
    }

    /// The current token.
    fn current_token(&self) -> (t: Token)
        ensures
            t@ == tok_at(self.toks(), self.pos()),
    {
        proof {
            lemma_toks_view(self.tokens@);
        }
        if self.position < self.tokens.len() {
            self.tokens[self.position].duplicate()
        } else {
            Token::Eof
        }
    }

    /// The token after the current one.
    fn peek_token(&self) -> (t: Token)
        ensures
            t@ == tok_at(self.toks(), self.pos() + 1),
    {
        proof {
            lemma_toks_view(self.tokens@);
        }
        if self.position < self.tokens.len() && self.position + 1 < self.tokens.len() {
            self.tokens[self.position + 1].duplicate()
        } else {
            Token::Eof
        }
    }

    /// Advances the cursor one token, stopping on the last one.
    fn next_token(&mut self)
        ensures
            final(self).toks() == old(self).toks(),
            final(self).errs() == old(self).errs(),
            final(self).pos() == advance(old(self).toks(), old(self).pos()),
    {
        proof {
            lemma_toks_view(self.tokens@);
        }
        if self.position < self.tokens.len() && self.position + 1 < self.tokens.len() {
            self.position = self.position + 1;
        }
    }

    /// Whether the peek token is a semicolon.
    fn peek_is_semicolon(&self) -> (r: bool)
        ensures
            r == (tok_at(self.toks(), self.pos() + 1) == Tok::Semicolon),
    {
        let pk = self.peek_token();
        match pk {
            Token::Semicolon => true,
            _ => false,
        }
    }

    /// The precedence the peek token binds with.
    fn peek_precedence(&self) -> (r: u8)
        ensures
            r as int == prec_of(tok_at(self.toks(), self.pos() + 1)),
    {
        let pk = self.peek_token();
        precedence_of(&pk)
    }

    /// Consumes the peek token when it is the expected one; otherwise a
    /// diagnostic naming the expected and the actual token.
    fn expect_peek(&mut self, token: &Token) -> (r: Result<(), String>)
        requires
            token@ != Tok::Eof,
        ensures
            final(self).toks() == old(self).toks(),
            final(self).errs() == old(self).errs(),
            if tok_at(old(self).toks(), old(self).pos() + 1) == token@ {
                final(self).pos() == old(self).pos() + 1 && r is Ok
            } else {
                final(self).pos() == old(self).pos() && (r matches Err(m) && m@ == expected_text(
                    token@,
                    tok_at(old(self).toks(), old(self).pos() + 1),
                ))
            },
    {
        let pk = self.peek_token();
        if pk.eq_token(token) {
            self.next_token();
            Ok(())
        } else {
            let mut message = String::from_str("expected next token to be ");
            let want = token.to_text();
            message.append(want.as_str());
            message.append(", got ");
            let got = pk.to_text();
            message.append(got.as_str());
            message.append(" instead");
            Err(message)
        }
    }

    /// Consumes the peek token when it is an identifier, handing its name
    /// back; otherwise a diagnostic.
    fn expect_peek_ident(&mut self) -> (r: Result<String, String>)
        ensures
            final(self).toks() == old(self).toks(),
            final(self).errs() == old(self).errs(),
            match tok_at(old(self).toks(), old(self).pos() + 1) {
                Tok::Identifier(name) => final(self).pos() == old(self).pos() + 1 && (
                r matches Ok(v) && v@ == name),
                t => final(self).pos() == old(self).pos() && (r matches Err(m) && m@
                    == expected_ident_text(t)),
            },
    {
        let pk = self.peek_token();
        match pk {
            Token::Identifier(value) => {
                self.next_token();
                Ok(value)
            },
            other => {
                let mut message = String::from_str("expected next token to be Ident, got ");
                let got = other.to_text();
                message.append(got.as_str());
                message.append(" instead");
                Err(message)
            },
        }
    }

    /// Consumes every semicolon directly after the current token.
    fn skip_semicolons(&mut self)
        requires
            old(self).wf(),
        ensures
            final(self).wf(),
            final(self).toks() == old(self).toks(),
            final(self).errs() == old(self).errs(),
            final(self).pos() == skip_semis_s(old(self).toks(), old(self).pos()),
            old(self).pos() <= final(self).pos(),
    {
        let ghost ts = self.toks();
        let ghost p0 = self.pos();
        while self.peek_is_semicolon()
            invariant
                self.wf(),
                self.toks() == ts,
                self.errs() == old(self).errs(),
                0 <= p0 <= self.pos() < ts.len(),
                skip_semis_s(ts, p0) == skip_semis_s(ts, self.pos()),
            decreases ts.len() - self.pos(),
        {
            self.next_token();
        }
    }
}

/// Whether an executable statement result matches a mathematical one.
pub open spec fn stmt_res_matches(r: Result<Statement, String>, s: Result<StmtV, Seq<char>>) -> bool {
    match (r, s) {
        (Ok(a), Ok(b)) => a@ == b,
        (Err(m), Err(t)) => m@ == t,
        _ => false,
    }
}

/// Whether an executable expression result matches a mathematical one.
pub open spec fn expr_res_matches(r: Result<Expression, String>, s: Result<ExprV, Seq<char>>) -> bool {
    match (r, s) {
        (Ok(a), Ok(b)) => a@ == b,
        (Err(m), Err(t)) => m@ == t,
        _ => false,
    }
}

/// The parts of the parser state every parse step preserves: the token
/// stream, the collected diagnostics, well-formedness, and a cursor that
/// only moves forward.
pub open spec fn parser_steady(a: Parser, b: Parser) -> bool {
    &&& b.toks() == a.toks()
    &&& b.errs() == a.errs()
    &&& b.wf()
    &&& a.pos() <= b.pos()
}

impl Parser {
    /// Parses the whole token stream into a program, collecting one
    /// diagnostic per failed statement and continuing.
    pub fn parse_program(&mut self) -> (r: Program)
        requires
            old(self).wf(),
        ensures
            final(self).wf(),
            final(self).toks() == old(self).toks(),
            ({
                let (stmts, errs, ps) = parse_program_s(
                    old(self).toks(),
                    old(self).pos(),
                    Seq::empty(),
                    old(self).errs(),
                );
                r@ == stmts && final(self).errs() == errs && final(self).pos() == ps
            }),
    {
        let ghost ts = self.toks();
        let ghost pos0 = self.pos();
        let ghost errs0 = self.errs();
        let mut program = Program::new();
        proof {
            crate::ast::lemma_stmts_view(program.statements@);
            assert(stmts_view(program.statements@) =~= Seq::<StmtV>::empty());
        }
        loop
            invariant
                self.wf(),
                ts == old(self).toks(),
                pos0 == old(self).pos(),
                errs0 == old(self).errs(),
                self.toks() == ts,
                pos0 <= self.pos(),
                parse_program_s(ts, pos0, Seq::empty(), errs0) == parse_program_s(
                    ts,
                    self.pos(),
                    stmts_view(program.statements@),
                    self.errs(),
                ),
            ensures
                self.wf(),
                self.toks() == ts,
                tok_at(ts, self.pos()) == Tok::Eof,
                parse_program_s(ts, pos0, Seq::empty(), errs0) == parse_program_s(
                    ts,
                    self.pos(),
                    stmts_view(program.statements@),
                    self.errs(),
                ),
            decreases ts.len() - self.pos(),
        {
            let cur = self.current_token();
            let is_eof = match &cur {
                Token::Eof => true,
                _ => false,
            };
            if is_eof {
                break ;
            }
            let ghost pos_here = self.pos();
            let statement_result = self.parse_statement();
            let ghost p1 = self.pos();
            self.next_token();
            proof {
                assert(after(ts, pos_here, advance(ts, p1)) == self.pos());
            }
            match statement_result {
                Ok(statement) => {
                    let ghost stmts0 = program.statements@;
                    program.statements.push(statement);
                    proof {
                        crate::ast::lemma_stmts_view(program.statements@);
                        crate::ast::lemma_stmts_view(stmts0);
                        assert forall|j: int|
                            0 <= j < program.statements@.len() implies stmts_view(
                            program.statements@,
                        )[j] == stmts_view(stmts0).push(statement@)[j] by {
                            if j < stmts0.len() {
                                assert(program.statements@[j] == stmts0[j]);
                                assert(program.statements@[j]@ == stmts0[j]@);
                            } else {
                                assert(program.statements@[j]@ == statement@);
                            }
                        }
                        assert(stmts_view(program.statements@) =~= stmts_view(stmts0).push(
                            statement@,
                        ));
                    }
                },
                Err(error) => {
                    let ghost errsb = self.errors@;
                    self.errors.push(error);
                    proof {
                        lemma_strs_view(self.errors@);
                        lemma_strs_view(errsb);
                        assert forall|j: int|
                            0 <= j < self.errors@.len() implies strs_view(self.errors@)[j]
                            == strs_view(errsb).push(error@)[j] by {
                            if j < errsb.len() {
                                assert(self.errors@[j] == errsb[j]);
                                assert(self.errors@[j]@ == errsb[j]@);
                            } else {
                                assert(self.errors@[j]@ == error@);
                            }
                        }
                        assert(strs_view(self.errors@) =~= strs_view(errsb).push(error@));
                    }
                },
            }
        }
        program
    }

    /// Statement dispatch on the current token.
    #[verifier::rlimit(100)]
    #[verifier::spinoff_prover]
    fn parse_statement(&mut self) -> (r: Result<Statement, String>)
        requires
            old(self).wf(),
        ensures
            parser_steady(*old(self), *final(self)),
            ({
                let (rs, ps) = parse_statement_s(old(self).toks(), old(self).pos());
                final(self).pos() == ps && stmt_res_matches(r, rs)
            }),
        decreases self.toks().len() - self.pos(), 8int,
    {
        let cur = self.current_token();
        match cur {
            Token::Let => self.parse_let_statement(),
            Token::Return => self.parse_return_statement(),
            _ => self.parse_expression_statement(),
        }
    }

    /// `let` name `=` expression, with optional trailing semicolons.
    #[verifier::rlimit(50)]
    fn parse_let_statement(&mut self) -> (r: Result<Statement, String>)
        requires
            old(self).wf(),
        ensures
            parser_steady(*old(self), *final(self)),
            ({
                let (rs, ps) = parse_let_s(old(self).toks(), old(self).pos());
                final(self).pos() == ps && stmt_res_matches(r, rs)
            }),
        decreases self.toks().len() - self.pos(), 7int,
    {
        let ghost ts = self.toks();
        let ghost pos0 = self.pos();
        let name = match self.expect_peek_ident() {
            Ok(value) => value,
            Err(message) => {
                return Err(message);
            },
        };
        match self.expect_peek(&Token::Assign) {
            Ok(_) => {},
            Err(message) => {
                return Err(message);
            },
        }
        self.next_token();
        let value = match self.parse_expression(PREC_LOWEST) {
            Ok(e) => e,
            Err(message) => {
                return Err(message);
            },
        };
        let ghost p3 = self.pos();
        proof {
            assert(after0(ts, pos0, p3) == p3);
        }
        let statement = Statement::Let { name: Expression::Identifier(name), value };
        self.skip_semicolons();
        Ok(statement)
    }

    /// `return` expression, with optional trailing semicolons.
    fn parse_return_statement(&mut self) -> (r: Result<Statement, String>)
        requires
            old(self).wf(),
        ensures
            parser_steady(*old(self), *final(self)),
            ({
                let (rs, ps) = parse_return_s(old(self).toks(), old(self).pos());
                final(self).pos() == ps && stmt_res_matches(r, rs)
            }),
        decreases self.toks().len() - self.pos(), 7int,
    {
        let ghost ts = self.toks();
        let ghost pos0 = self.pos();
        self.next_token();
        let value = match self.parse_expression(PREC_LOWEST) {
            Ok(e) => e,
            Err(message) => {
                return Err(message);
            },
        };
        let ghost p1 = self.pos();
        proof {
            assert(after0(ts, pos0, p1) == p1);
        }
        let statement = Statement::Return(value);
        self.skip_semicolons();
        Ok(statement)
    }

    /// A bare expression in statement position, with optional trailing
    /// semicolons.
    fn parse_expression_statement(&mut self) -> (r: Result<Statement, String>)
        requires
            old(self).wf(),
        ensures
            parser_steady(*old(self), *final(self)),
            ({
                let (rs, ps) = parse_exprstmt_s(old(self).toks(), old(self).pos());
                final(self).pos() == ps && stmt_res_matches(r, rs)
            }),
        decreases self.toks().len() - self.pos(), 7int,
    {
        let ghost ts = self.toks();
        let ghost pos0 = self.pos();
        let expression = match self.parse_expression(PREC_LOWEST) {
            Ok(e) => e,
            Err(message) => {
                return Err(message);
            },
        };
        let ghost p1 = self.pos();
        proof {
            assert(after0(ts, pos0, p1) == p1);
        }
        let statement = Statement::Expression(expression);
        self.skip_semicolons();
        Ok(statement)
    }

    /// A brace-delimited block: statements until the closing brace or end of
    /// input. The cursor stands on the opening brace when called.
    #[verifier::rlimit(50)]
    fn parse_block_statement(&mut self) -> (r: Result<Statement, String>)
        requires
            old(self).wf(),
            tok_at(old(self).toks(), old(self).pos()) != Tok::Eof,
        ensures
            parser_steady(*old(self), *final(self)),
            ({
                let (rs, ps) = parse_block_s(
                    old(self).toks(),
                    advance(old(self).toks(), old(self).pos()),
                    Seq::empty(),
                );
                final(self).pos() == ps && match (r, rs) {
                    (Ok(st), Ok(ss)) => st@ == StmtV::Block(ss),
                    (Err(m), Err(t)) => m@ == t,
                    _ => false,
                }
            }),
        decreases self.toks().len() - self.pos(), 9int,
    {
        let ghost ts = self.toks();
        self.next_token();
        let ghost pstart = self.pos();
        let mut statements: Vec<Statement> = Vec::new();
        proof {
            crate::ast::lemma_stmts_view(statements@);
            assert(stmts_view(statements@) =~= Seq::<StmtV>::empty());
        }
        loop
            invariant
                self.wf(),
                ts == old(self).toks(),
                old(self).pos() < pstart,
                pstart == advance(ts, old(self).pos()),
                self.toks() == ts,
                self.errs() == old(self).errs(),
                pstart <= self.pos(),
                parse_block_s(ts, pstart, Seq::empty()) == parse_block_s(
                    ts,
                    self.pos(),
                    stmts_view(statements@),
                ),
            ensures
                self.wf(),
                self.toks() == ts,
                self.errs() == old(self).errs(),
                pstart <= self.pos(),
                tok_at(ts, self.pos()) == Tok::RBrace || tok_at(ts, self.pos()) == Tok::Eof,
                parse_block_s(ts, pstart, Seq::empty()) == parse_block_s(
                    ts,
                    self.pos(),
                    stmts_view(statements@),
                ),
            decreases ts.len() - self.pos(),
        {
            let cur = self.current_token();
            let is_end = match &cur {
                Token::RBrace => true,
                Token::Eof => true,
                _ => false,
            };
            if is_end {
                break ;
            }
            let ghost pos_here = self.pos();
            let statement = match self.parse_statement() {
                Ok(st) => st,
                Err(message) => {
                    return Err(message);
                },
            };
            let ghost p1 = self.pos();
            self.next_token();
            proof {
                assert(after(ts, pos_here, advance(ts, p1)) == self.pos());
            }
            let ghost stmts0 = statements@;
            statements.push(statement);
            proof {
                crate::ast::lemma_stmts_view(statements@);
                crate::ast::lemma_stmts_view(stmts0);
                assert forall|j: int|
                    0 <= j < statements@.len() implies stmts_view(statements@)[j] == stmts_view(
                    stmts0,
                ).push(statement@)[j] by {
                    if j < stmts0.len() {
                        assert(statements@[j] == stmts0[j]);
                        assert(statements@[j]@ == stmts0[j]@);
                    } else {
                        assert(statements@[j]@ == statement@);
                    }
                }
                assert(stmts_view(statements@) =~= stmts_view(stmts0).push(statement@));
            }
        }
        Ok(Statement::Block(statements))
    }

    /// Precedence-climbing expression parsing: a primary expression, then
    /// the infix loop extending it to the left.
    #[verifier::rlimit(50)]
    fn parse_expression(&mut self, precedence: u8) -> (r: Result<Expression, String>)
        requires
            old(self).wf(),
        ensures
            parser_steady(*old(self), *final(self)),
            ({
                let (rs, ps) = parse_expression_s(
                    old(self).toks(),
                    old(self).pos(),
                    precedence as int,
                );
                final(self).pos() == ps && expr_res_matches(r, rs)
            }),
        decreases self.toks().len() - self.pos(), 6int,
    {
        let ghost ts = self.toks();
        let ghost pos0 = self.pos();
        let cur = self.current_token();
        let primary: Result<Expression, String> = match cur {
            Token::Identifier(value) => Ok(Expression::Identifier(value)),
            Token::Integer(value) => Ok(Expression::Integer(value)),
            Token::String(value) => Ok(Expression::Strings(value)),
            Token::True => Ok(Expression::Boolean(true)),
            Token::False => Ok(Expression::Boolean(false)),
            Token::Bang => self.parse_prefix_expression(),
            Token::Minus => self.parse_prefix_expression(),
            Token::LParen => self.parse_grouped_expression(),
            Token::If => self.parse_if_expression(),
            Token::Function => self.parse_function_expression(),
            Token::LBracket => self.parse_array_expression(),
            Token::LBrace => self.parse_map_expression(),
            other => {
                let mut message = String::from_str("no prefix parse function for ");
                let got = other.to_text();
                message.append(got.as_str());
                message.append(" found");
                Err(message)
            },
        };
        let mut left = match primary {
            Ok(e) => e,
            Err(message) => {
                return Err(message);
            },
        };
        let ghost p1 = self.pos();
        let ghost left0 = left@;
        proof {
            assert(after0(ts, pos0, p1) == p1);
        }
        loop
            invariant
                self.wf(),
                ts == old(self).toks(),
                pos0 == old(self).pos(),
                self.toks() == ts,
                self.errs() == old(self).errs(),
                pos0 <= self.pos(),
                parse_expression_s(ts, pos0, precedence as int) == parse_infix_s(
                    ts,
                    self.pos(),
                    precedence as int,
                    left@,
                ),
            ensures
                self.wf(),
                self.toks() == ts,
                self.errs() == old(self).errs(),
                pos0 <= self.pos(),
                parse_expression_s(ts, pos0, precedence as int) == (
                    Ok::<ExprV, Seq<char>>(left@),
                    self.pos(),
                ),
            decreases ts.len() - self.pos(),
        {
            let stop = self.peek_is_semicolon() || precedence >= self.peek_precedence();
            if stop {
                break ;
            }
            let ghost pos_here = self.pos();
            let pk = self.peek_token();
            let step: Result<Expression, String> = match pk {
                Token::LParen => {
                    self.next_token();
                    self.parse_call_expression(left)
                },
                Token::LBracket => {
                    self.next_token();
                    self.parse_index_expression(left)
                },
                Token::Plus | Token::Minus | Token::Asterisk | Token::Slash | Token::Lt
                    | Token::Gt | Token::Eq | Token::Ne => {
                    self.next_token();
                    self.parse_infix_expression(left)
                },
                _ => {
                    // Unreachable: only tokens with a positive precedence
                    // pass the loop condition, and all of them are matched
                    // above.
                    proof {
                        assert(false);
                    }
                    Err(String::new())
                },
            };
            left = match step {
                Ok(e) => e,
                Err(message) => {
                    return Err(message);
                },
            };
            proof {
                assert(after(ts, pos_here, self.pos()) == self.pos());
            }
        }
        Ok(left)
    }

    /// A unary prefix operator applied to an operand parsed at prefix level.
    fn parse_prefix_expression(&mut self) -> (r: Result<Expression, String>)
        requires
            old(self).wf(),
            tok_at(old(self).toks(), old(self).pos()) != Tok::Eof,
        ensures
            parser_steady(*old(self), *final(self)),
            ({
                let (rs, ps) = parse_prefix_s(old(self).toks(), old(self).pos());
                final(self).pos() == ps && expr_res_matches(r, rs)
            }),
        decreases self.toks().len() - self.pos(), 5int,
    {
        let operator = self.current_token();
        self.next_token();
        let right = match self.parse_expression(PREC_PREFIX) {
            Ok(e) => e,
            Err(message) => {
                return Err(message);
            },
        };
        Ok(Expression::Prefix { operator, right: Box::new(right) })
    }

    /// A parenthesized expression, kept as a grouping node for display.
    fn parse_grouped_expression(&mut self) -> (r: Result<Expression, String>)
        requires
            old(self).wf(),
            tok_at(old(self).toks(), old(self).pos()) != Tok::Eof,
        ensures
            parser_steady(*old(self), *final(self)),
            ({
                let (rs, ps) = parse_grouped_s(old(self).toks(), old(self).pos());
                final(self).pos() == ps && expr_res_matches(r, rs)
            }),
        decreases self.toks().len() - self.pos(), 5int,
    {
        self.next_token();
        let inner = match self.parse_expression(PREC_LOWEST) {
            Ok(e) => e,
            Err(message) => {
                return Err(message);
            },
        };
        match self.expect_peek(&Token::RParen) {
            Ok(_) => {},
            Err(message) => {
                return Err(message);
            },
        }
        Ok(Expression::Grouped(Box::new(inner)))
    }

    /// An `if` expression: parenthesized condition, brace-block consequence,
    /// optional `else` with a brace-block alternative.
    #[verifier::rlimit(50)]
    fn parse_if_expression(&mut self) -> (r: Result<Expression, String>)
        requires
            old(self).wf(),
            tok_at(old(self).toks(), old(self).pos()) != Tok::Eof,
        ensures
            parser_steady(*old(self), *final(self)),
            ({
                let (rs, ps) = parse_if_s(old(self).toks(), old(self).pos());
                final(self).pos() == ps && expr_res_matches(r, rs)
            }),
        decreases self.toks().len() - self.pos(), 5int,
    {
        let ghost ts = self.toks();
        let ghost pos0 = self.pos();
        match self.expect_peek(&Token::LParen) {
            Ok(_) => {},
            Err(message) => {
                return Err(message);
            },
        }
        self.next_token();
        let condition = match self.parse_expression(PREC_LOWEST) {
            Ok(e) => e,
            Err(message) => {
                return Err(message);
            },
        };
        match self.expect_peek(&Token::RParen) {
            Ok(_) => {},
            Err(message) => {
                return Err(message);
            },
        }
        match self.expect_peek(&Token::LBrace) {
            Ok(_) => {},
            Err(message) => {
                return Err(message);
            },
        }
        proof {
            assert(after(ts, pos0, advance(ts, self.pos())) == advance(ts, self.pos()));
        }
        let consequence = match self.parse_block_statement() {
            Ok(st) => st,
            Err(message) => {
                return Err(message);
            },
        };
        let pk = self.peek_token();
        let has_else = match &pk {
            Token::Else => true,
            _ => false,
        };
        let alternative: Option<Box<Statement>> = if has_else {
            self.next_token();
            match self.expect_peek(&Token::LBrace) {
                Ok(_) => {},
                Err(message) => {
                    return Err(message);
                },
            }
            proof {
                assert(after(ts, pos0, advance(ts, self.pos())) == advance(ts, self.pos()));
            }
            let alt = match self.parse_block_statement() {
                Ok(st) => st,
                Err(message) => {
                    return Err(message);
                },
            };
            Some(Box::new(alt))
        } else {
            None
        };
        Ok(
            Expression::If {
                condition: Box::new(condition),
                consequence: Box::new(consequence),
                alternative,
            },
        )
    }

    /// A function literal: parameter identifiers, then a brace-block body.
    fn parse_function_expression(&mut self) -> (r: Result<Expression, String>)
        requires
            old(self).wf(),
            tok_at(old(self).toks(), old(self).pos()) != Tok::Eof,
        ensures
            parser_steady(*old(self), *final(self)),
            ({
                let (rs, ps) = parse_function_s(old(self).toks(), old(self).pos());
                final(self).pos() == ps && expr_res_matches(r, rs)
            }),
        decreases self.toks().len() - self.pos(), 5int,
    {
        let ghost ts = self.toks();
        let ghost pos0 = self.pos();
        match self.expect_peek(&Token::LParen) {
            Ok(_) => {},
            Err(message) => {
                return Err(message);
            },
        }
        let parameters = match self.parse_function_parameters() {
            Ok(ps) => ps,
            Err(message) => {
                return Err(message);
            },
        };
        match self.expect_peek(&Token::LBrace) {
            Ok(_) => {},
            Err(message) => {
                return Err(message);
            },
        }
        proof {
            assert(after(ts, pos0, advance(ts, self.pos())) == advance(ts, self.pos()));
        }
        let body = match self.parse_block_statement() {
            Ok(st) => st,
            Err(message) => {
                return Err(message);
            },
        };
        Ok(Expression::Function { parameters, body: Box::new(body) })
    }

    /// Zero or more comma-separated parameter identifiers, then the closing
    /// parenthesis. The cursor stands on the opening parenthesis.
    #[verifier::rlimit(50)]
    fn parse_function_parameters(&mut self) -> (r: Result<Vec<Expression>, String>)
        requires
            old(self).wf(),
        ensures
            parser_steady(*old(self), *final(self)),
            ({
                let (rs, ps) = parse_params_s(old(self).toks(), old(self).pos(), Seq::empty());
                final(self).pos() == ps && match (r, rs) {
                    (Ok(v), Ok(sv)) => crate::ast::exprs_view(v@) == sv,
                    (Err(m), Err(t)) => m@ == t,
                    _ => false,
                }
            }),
        decreases self.toks().len() - self.pos(), 3int,
    {
        let ghost ts = self.toks();
        let ghost pos0 = self.pos();
        let mut parameters: Vec<Expression> = Vec::new();
        proof {
            crate::ast::lemma_exprs_view(parameters@);
            assert(crate::ast::exprs_view(parameters@) =~= Seq::<ExprV>::empty());
        }
        let pk = self.peek_token();
        let peek_rparen = match &pk {
            Token::RParen => true,
            _ => false,
        };
        if peek_rparen {
            self.next_token();
            return Ok(parameters);
        }
        let first = match self.expect_peek_ident() {
            Ok(v) => v,
            Err(message) => {
                return Err(message);
            },
        };
        let ghost params0 = parameters@;
        let first_param = Expression::Identifier(first);
        parameters.push(first_param);
        proof {
            crate::ast::lemma_exprs_view(parameters@);
            assert(crate::ast::exprs_view(parameters@) =~= Seq::<ExprV>::empty().push(
                parameters@[0]@,
            ));
            assert(after(ts, pos0, pos0 + 1) == pos0 + 1);
        }
        loop
            invariant
                self.wf(),
                ts == old(self).toks(),
                pos0 == old(self).pos(),
                self.toks() == ts,
                self.errs() == old(self).errs(),
                pos0 < self.pos(),
                parameters@.len() >= 1,
                parse_params_s(ts, pos0, Seq::empty()) == parse_params_s(
                    ts,
                    self.pos(),
                    crate::ast::exprs_view(parameters@),
                ),
            ensures
                self.wf(),
                self.toks() == ts,
                self.errs() == old(self).errs(),
                pos0 <= self.pos(),
                parameters@.len() >= 1,
                tok_at(ts, self.pos() + 1) != Tok::Comma,
                parse_params_s(ts, pos0, Seq::empty()) == parse_params_s(
                    ts,
                    self.pos(),
                    crate::ast::exprs_view(parameters@),
                ),
            decreases ts.len() - self.pos(),
        {
            let comma = {
                let pk2 = self.peek_token();
                match &pk2 {
                    Token::Comma => true,
                    _ => false,
                }
            };
            if !comma {
                break ;
            }
            let ghost pos_here = self.pos();
            self.next_token();
            let name = match self.expect_peek_ident() {
                Ok(v) => v,
                Err(message) => {
                    return Err(message);
                },
            };
            let ghost params_before = parameters@;
            let param = Expression::Identifier(name);
            parameters.push(param);
            proof {
                assert(after(ts, pos_here, pos_here + 2) == pos_here + 2);
                crate::ast::lemma_exprs_view(parameters@);
                crate::ast::lemma_exprs_view(params_before);
                assert forall|j: int|
                    0 <= j < parameters@.len() implies crate::ast::exprs_view(parameters@)[j]
                    == crate::ast::exprs_view(params_before).push(
                    parameters@[parameters@.len() - 1]@,
                )[j] by {
                    if j < params_before.len() {
                        assert(parameters@[j] == params_before[j]);
                        assert(parameters@[j]@ == params_before[j]@);
                    }
                }
                assert(crate::ast::exprs_view(parameters@) =~= crate::ast::exprs_view(
                    params_before,
                ).push(parameters@[parameters@.len() - 1]@));
            }
        }
        match self.expect_peek(&Token::RParen) {
            Ok(_) => {},
            Err(message) => {
                return Err(message);
            },
        }
        Ok(parameters)
    }

    /// A call expression: the already-parsed callee and its arguments. The
    /// cursor stands on the opening parenthesis.
    fn parse_call_expression(&mut self, function: Expression) -> (r: Result<Expression, String>)
        requires
            old(self).wf(),
            tok_at(old(self).toks(), old(self).pos()) != Tok::Eof,
        ensures
            parser_steady(*old(self), *final(self)),
            ({
                let (rs, ps) = parse_exprs_s(old(self).toks(), old(self).pos(), Tok::RParen);
                final(self).pos() == ps && match (r, rs) {
                    (Ok(e), Ok(args)) => e@ == (ExprV::Call {
                        function: Box::new(function@),
                        arguments: args,
                    }),
                    (Err(m), Err(t)) => m@ == t,
                    _ => false,
                }
            }),
        decreases self.toks().len() - self.pos(), 4int,
    {
        let arguments = match self.parse_expressions(&Token::RParen) {
            Ok(a) => a,
            Err(message) => {
                return Err(message);
            },
        };
        Ok(Expression::Call { function: Box::new(function), arguments })
    }

    /// Comma-separated expressions up to the closing delimiter. The cursor
    /// stands on the opening delimiter.
    #[verifier::rlimit(50)]
    fn parse_expressions(&mut self, token: &Token) -> (r: Result<Vec<Expression>, String>)
        requires
            old(self).wf(),
            tok_at(old(self).toks(), old(self).pos()) != Tok::Eof,
            token@ == Tok::RParen || token@ == Tok::RBracket,
        ensures
            parser_steady(*old(self), *final(self)),
            ({
                let (rs, ps) = parse_exprs_s(old(self).toks(), old(self).pos(), token@);
                final(self).pos() == ps && match (r, rs) {
                    (Ok(v), Ok(sv)) => crate::ast::exprs_view(v@) == sv,
                    (Err(m), Err(t)) => m@ == t,
                    _ => false,
                }
            }),
        decreases self.toks().len() - self.pos(), 3int,
    {
        let ghost ts = self.toks();
        let ghost pos0 = self.pos();
        let mut arguments: Vec<Expression> = Vec::new();
        proof {
            crate::ast::lemma_exprs_view(arguments@);
            assert(crate::ast::exprs_view(arguments@) =~= Seq::<ExprV>::empty());
        }
        let pk = self.peek_token();
        if pk.eq_token(token) {
            self.next_token();
            return Ok(arguments);
        }
        self.next_token();
        let first = match self.parse_expression(PREC_LOWEST) {
            Ok(e) => e,
            Err(message) => {
                return Err(message);
            },
        };
        let ghost p_first = self.pos();
        let ghost first_view = first@;
        arguments.push(first);
        proof {
            assert(after(ts, pos0, p_first) == p_first);
            crate::ast::lemma_exprs_view(arguments@);
            assert(crate::ast::exprs_view(arguments@) =~= seq![first_view]);
        }
        loop
            invariant
                self.wf(),
                ts == old(self).toks(),
                pos0 == old(self).pos(),
                self.toks() == ts,
                self.errs() == old(self).errs(),
                pos0 < self.pos(),
                parse_exprs_s(ts, pos0, token@) == parse_exprs_tail_s(
                    ts,
                    self.pos(),
                    token@,
                    crate::ast::exprs_view(arguments@),
                ),
            ensures
                self.wf(),
                self.toks() == ts,
                self.errs() == old(self).errs(),
                pos0 <= self.pos(),
                tok_at(ts, self.pos() + 1) != Tok::Comma,
                parse_exprs_s(ts, pos0, token@) == parse_exprs_tail_s(
                    ts,
                    self.pos(),
                    token@,
                    crate::ast::exprs_view(arguments@),
                ),
            decreases ts.len() - self.pos(),
        {
            let comma = {
                let pk2 = self.peek_token();
                match &pk2 {
                    Token::Comma => true,
                    _ => false,
                }
            };
            if !comma {
                break ;
            }
            let ghost pos_here = self.pos();
            self.next_token();
            proof {
                assert(self.pos() == pos_here + 1);
            }
            self.next_token();
            proof {
                assert(self.pos() == advance(ts, pos_here + 1));
            }
            let item = match self.parse_expression(PREC_LOWEST) {
                Ok(e) => e,
                Err(message) => {
                    return Err(message);
                },
            };
            let ghost args_before = arguments@;
            let ghost item_view = item@;
            arguments.push(item);
            proof {
                assert(after(ts, pos_here, self.pos()) == self.pos());
                crate::ast::lemma_exprs_view(arguments@);
                crate::ast::lemma_exprs_view(args_before);
                assert forall|j: int|
                    0 <= j < arguments@.len() implies crate::ast::exprs_view(arguments@)[j]
                    == crate::ast::exprs_view(args_before).push(item_view)[j] by {
                    if j < args_before.len() {
                        assert(arguments@[j] == args_before[j]);
                        assert(arguments@[j]@ == args_before[j]@);
                    } else {
                        assert(arguments@[j]@ == item_view);
                    }
                }
                assert(crate::ast::exprs_view(arguments@) =~= crate::ast::exprs_view(
                    args_before,
                ).push(item_view));
            }
        }
        match self.expect_peek(token) {
            Ok(_) => {},
            Err(message) => {
                return Err(message);
            },
        }
        Ok(arguments)
    }

    /// An array literal. The cursor stands on the opening bracket.
    fn parse_array_expression(&mut self) -> (r: Result<Expression, String>)
        requires
            old(self).wf(),
            tok_at(old(self).toks(), old(self).pos()) != Tok::Eof,
        ensures
            parser_steady(*old(self), *final(self)),
            ({
                let (rs, ps) = parse_array_s(old(self).toks(), old(self).pos());
                final(self).pos() == ps && expr_res_matches(r, rs)
            }),
        decreases self.toks().len() - self.pos(), 5int,
    {
        let items = match self.parse_expressions(&Token::RBracket) {
            Ok(v) => v,
            Err(message) => {
                return Err(message);
            },
        };
        Ok(Expression::Array(items))
    }

    /// A map literal: comma-separated `key: value` pairs up to the closing
    /// brace. The cursor stands on the opening brace.
    #[verifier::rlimit(50)]
    fn parse_map_expression(&mut self) -> (r: Result<Expression, String>)
        requires
            old(self).wf(),
            tok_at(old(self).toks(), old(self).pos()) != Tok::Eof,
        ensures
            parser_steady(*old(self), *final(self)),
            ({
                let (rs, ps) = parse_map_s(old(self).toks(), old(self).pos());
                final(self).pos() == ps && expr_res_matches(r, rs)
            }),
        decreases self.toks().len() - self.pos(), 5int,
    {
        let ghost ts = self.toks();
        let ghost pos0 = self.pos();
        let mut pairs: Vec<(Expression, Expression)> = Vec::new();
        proof {
            crate::ast::lemma_pairs_view(pairs@);
            assert(crate::ast::pairs_view(pairs@) =~= Seq::<(ExprV, ExprV)>::empty());
        }
        loop
            invariant
                self.wf(),
                ts == old(self).toks(),
                pos0 == old(self).pos(),
                self.toks() == ts,
                self.errs() == old(self).errs(),
                pos0 <= self.pos(),
                tok_at(ts, self.pos()) != Tok::Eof,
                parse_map_pairs_s(ts, pos0, Seq::empty()) == parse_map_pairs_s(
                    ts,
                    self.pos(),
                    crate::ast::pairs_view(pairs@),
                ),
            ensures
                self.wf(),
                self.toks() == ts,
                self.errs() == old(self).errs(),
                pos0 <= self.pos(),
                tok_at(ts, self.pos() + 1) == Tok::RBrace,
                parse_map_pairs_s(ts, pos0, Seq::empty()) == parse_map_pairs_s(
                    ts,
                    self.pos(),
                    crate::ast::pairs_view(pairs@),
                ),
            decreases ts.len() - self.pos(),
        {
            let rbrace = {
                let pk = self.peek_token();
                match &pk {
                    Token::RBrace => true,
                    _ => false,
                }
            };
            if rbrace {
                break ;
            }
            let ghost pos_here = self.pos();
            self.next_token();
            let key = match self.parse_expression(PREC_LOWEST) {
                Ok(e) => e,
                Err(message) => {
                    return Err(message);
                },
            };
            match self.expect_peek(&Token::Colon) {
                Ok(_) => {},
                Err(message) => {
                    return Err(message);
                },
            }
            self.next_token();
            proof {
                assert(after(ts, pos_here, self.pos()) == self.pos());
            }
            let value = match self.parse_expression(PREC_LOWEST) {
                Ok(e) => e,
                Err(message) => {
                    return Err(message);
                },
            };
            let ghost p_value = self.pos();
            let rbrace_next = {
                let pk = self.peek_token();
                match &pk {
                    Token::RBrace => true,
                    _ => false,
                }
            };
            if !rbrace_next {
                match self.expect_peek(&Token::Comma) {
                    Ok(_) => {},
                    Err(message) => {
                        return Err(message);
                    },
                }
            }
            proof {
                assert(after(ts, pos_here, self.pos()) == self.pos());
            }
            let ghost pairs_before = pairs@;
            let ghost key_view = key@;
            let ghost value_view = value@;
            pairs.push((key, value));
            proof {
                crate::ast::lemma_pairs_view(pairs@);
                crate::ast::lemma_pairs_view(pairs_before);
                assert forall|j: int|
                    0 <= j < pairs@.len() implies crate::ast::pairs_view(pairs@)[j]
                    == crate::ast::pairs_view(pairs_before).push((key_view, value_view))[j] by {
                    if j < pairs_before.len() {
                        assert(pairs@[j] == pairs_before[j]);
                        assert((pairs@[j].0@, pairs@[j].1@) == (
                            pairs_before[j].0@,
                            pairs_before[j].1@,
                        ));
                    } else {
                        assert((pairs@[j].0@, pairs@[j].1@) == (key_view, value_view));
                    }
                }
                assert(crate::ast::pairs_view(pairs@) =~= crate::ast::pairs_view(
                    pairs_before,
                ).push((key_view, value_view)));
            }
        }
        match self.expect_peek(&Token::RBrace) {
            Ok(_) => {},
            Err(message) => {
                return Err(message);
            },
        }
        Ok(Expression::Hash(pairs))
    }

    /// An index expression: the already-parsed collection and the index. The
    /// cursor stands on the opening bracket.
    fn parse_index_expression(&mut self, left: Expression) -> (r: Result<Expression, String>)
        requires
            old(self).wf(),
            tok_at(old(self).toks(), old(self).pos()) != Tok::Eof,
        ensures
            parser_steady(*old(self), *final(self)),
            ({
                let (ri, pi) = parse_expression_s(
                    old(self).toks(),
                    advance(old(self).toks(), old(self).pos()),
                    PREC_LOWEST as int,
                );
                match ri {
                    Ok(iv) => if tok_at(old(self).toks(), pi + 1) == Tok::RBracket {
                        final(self).pos() == pi + 1 && (r matches Ok(e) && e@ == (ExprV::Index {
                            left: Box::new(left@),
                            index: Box::new(iv),
                        }))
                    } else {
                        final(self).pos() == pi && (r matches Err(m) && m@ == expected_text(
                            Tok::RBracket,
                            tok_at(old(self).toks(), pi + 1),
                        ))
                    },
                    Err(t) => final(self).pos() == pi && (r matches Err(m) && m@ == t),
                }
            }),
        decreases self.toks().len() - self.pos(), 4int,
    {
        self.next_token();
        let index = match self.parse_expression(PREC_LOWEST) {
            Ok(e) => e,
            Err(message) => {
                return Err(message);
            },
        };
        match self.expect_peek(&Token::RBracket) {
            Ok(_) => {},
            Err(message) => {
                return Err(message);
            },
        }
        Ok(Expression::Index { left: Box::new(left), index: Box::new(index) })
    }

    /// One binary-operator step: the operator is the current token; its
    /// right operand is parsed at the operator's own precedence, making
    /// equal-precedence operators left-associative.
    fn parse_infix_expression(&mut self, left: Expression) -> (r: Result<Expression, String>)
        requires
            old(self).wf(),
            tok_at(old(self).toks(), old(self).pos()) != Tok::Eof,
        ensures
            parser_steady(*old(self), *final(self)),
            ({
                let op = tok_at(old(self).toks(), old(self).pos());
                let (rr, pr) = parse_expression_s(
                    old(self).toks(),
                    advance(old(self).toks(), old(self).pos()),
                    prec_of(op),
                );
                final(self).pos() == pr && match (r, rr) {
                    (Ok(e), Ok(rv)) => e@ == (ExprV::Infix {
                        left: Box::new(left@),
                        operator: op,
                        right: Box::new(rv),
                    }),
                    (Err(m), Err(t)) => m@ == t,
                    _ => false,
                }
            }),
        decreases self.toks().len() - self.pos(), 4int,
    {
        let operator = self.current_token();
        let precedence = precedence_of(&operator);
        self.next_token();
        let right = match self.parse_expression(precedence) {
            Ok(e) => e,
            Err(message) => {
                return Err(message);
            },
        };
        Ok(Expression::Infix { left: Box::new(left), operator, right: Box::new(right) })
    }
}

/// The precedence a token binds with in infix position.
fn precedence_of(t: &Token) -> (r: u8)
    ensures
        r as int == prec_of(t@),
{
    match t {
        Token::Eq => PREC_EQUALS,
        Token::Ne => PREC_EQUALS,
        Token::Lt => PREC_LESSGREATER,
        Token::Gt => PREC_LESSGREATER,
        Token::Plus => PREC_SUM,
        Token::Minus => PREC_SUM,
        Token::Slash => PREC_PRODUCT,
        Token::Asterisk => PREC_PRODUCT,
        Token::LParen => PREC_CALL,
        Token::LBracket => PREC_INDEX,
        _ => PREC_LOWEST,
    }
}

} // verus!
