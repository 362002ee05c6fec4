//! The grammar of Oryn, as a specification: a parsing expression grammar
//! over the token stream, written as spec functions that build the
//! mathematical view of the tree ([`crate::ast`]).
//!
//! Each function takes the tokens, a position and a fuel, and returns
//! what it parsed with the position after it, or `None`. Alternatives are
//! ordered: the first one that succeeds wins. The fuel bounds how deep
//! string interpolations nest (each `{..}` inside a string literal is
//! lexed and parsed anew); every production consumes at least one token,
//! and the checks `i < j` on positions state that progress (which
//! [`crate::progress::productions_advance`] shows always holds).

use std::ops::Range;
use vstd::prelude::*;
use vstd::utf8::{decode_utf8, encode_utf8};

use crate::ast::{
    BinOp, ExprV, FieldV, MethodV, ParamV, PartV, SExpr, SStmt, StmtV, TypeV, UnaryOp,
};
use crate::lexer::{code_lexemes, decimal_value, lexemes, Lexeme, Token};

verus! {

/// A token as the grammar sees it: payloads as text.
pub enum Tok {
    /// A token without payload (keyword, operator, punctuation, newline).
    Fixed(Token),
    Ident(Seq<char>),
    Int(i32),
    Float(Seq<char>),
    Str(Seq<char>),
    Remark(Seq<char>),
}

/// A token with its byte span.
pub type TokV = (Tok, int, int);

pub open spec fn tok_v(t: Token) -> Tok {
    match t {
        Token::Ident(x) => Tok::Ident(x@),
        Token::Int(n) => Tok::Int(n),
        Token::Float(x) => Tok::Float(x@),
        Token::String(x) => Tok::Str(x@),
        Token::Comment(x) => Tok::Remark(x@),
        _ => Tok::Fixed(t),
    }
}

pub open spec fn toks_v(s: Seq<(Token, Range<usize>)>) -> Seq<TokV> {
    s.map_values(|x: (Token, Range<usize>)| (tok_v(x.0), x.1.start as int, x.1.end as int))
}

/// The token that a lexeme over `b[s..e]` denotes.
pub open spec fn lexeme_tok(b: Seq<u8>, lx: Lexeme, s: int, e: int) -> Tok {
    match lx {
        Lexeme::Fixed(k) => Tok::Fixed(k),
        Lexeme::Word => Tok::Ident(decode_utf8(b.subrange(s, e))),
        Lexeme::Number => Tok::Int(decimal_value(b.subrange(s, e)) as i32),
        Lexeme::Decimal => Tok::Float(decode_utf8(b.subrange(s, e))),
        Lexeme::Text => Tok::Str(decode_utf8(b.subrange(s + 1, e - 1))),
        Lexeme::Remark => Tok::Remark(decode_utf8(b.subrange(s, e))),
        _ => Tok::Fixed(Token::Newline),
    }
}

/// How a token is shown in messages (see [`crate::lexer::token_text`]).
pub open spec fn tok_text(k: Tok) -> Seq<char> {
    match k {
        Tok::Fixed(t) => crate::lexer::token_text(t),
        Tok::Ident(s) => s,
        Tok::Int(n) => crate::text::signed_decimal(n as int),
        Tok::Float(s) => s,
        Tok::Str(s) => s,
        Tok::Remark(s) => s,
    }
}

pub proof fn lemma_tok_text(t: Token)
    ensures
        tok_text(tok_v(t)) == crate::lexer::token_text(t),
{
}

// ---------------------------------------------------------------------------
// Token tests.
// ---------------------------------------------------------------------------

/// Where a successful parse stops.
pub open spec fn end_of<X>(r: Option<(X, int)>) -> int {
    match r {
        Some((_, j)) => j,
        None => 0,
    }
}

/// What a successful parse produced.
pub open spec fn val_of<X>(r: Option<(X, int)>) -> X
    recommends
        r is Some,
{
    match r {
        Some((x, _)) => x,
        None => arbitrary(),
    }
}

/// Token `i` is the payload-free token `k`.
pub open spec fn at(t: Seq<TokV>, i: int, k: Token) -> bool {
    0 <= i < t.len() && t[i].0 == Tok::Fixed(k)
}

pub open spec fn ident_at(t: Seq<TokV>, i: int) -> Option<Seq<char>> {
    if 0 <= i < t.len() {
        match t[i].0 {
            Tok::Ident(n) => Some(n),
            _ => None,
        }
    } else {
        None
    }
}

/// The span of tokens `i..j` (`i < j`): from the start of the first to
/// the end of the last.
pub open spec fn region(t: Seq<TokV>, i: int, j: int) -> (int, int) {
    (t[i].1, t[j - 1].2)
}

/// The first position at or after `i` that is not a newline.
pub open spec fn skip_nl(t: Seq<TokV>, i: int) -> int
    decreases t.len() - i,
{
    if 0 <= i < t.len() && t[i].0 == Tok::Fixed(Token::Newline) {
        skip_nl(t, i + 1)
    } else {
        i
    }
}

pub proof fn lemma_skip_nl(t: Seq<TokV>, i: int)
    ensures
        i <= skip_nl(t, i),
        i <= t.len() ==> skip_nl(t, i) <= t.len(),
    decreases t.len() - i,
{
    if 0 <= i < t.len() && t[i].0 == Tok::Fixed(Token::Newline) {
        lemma_skip_nl(t, i + 1);
    }
}

// ---------------------------------------------------------------------------
// Dotted names and types.
// ---------------------------------------------------------------------------

/// `ident (. ident)*` continued from `i`.
pub open spec fn dotted_rest(t: Seq<TokV>, i: int, acc: Seq<Seq<char>>) -> (Seq<Seq<char>>, int)
    decreases t.len() - i,
{
    if at(t, i, Token::Dot) && ident_at(t, i + 1) is Some {
        dotted_rest(t, i + 2, acc.push(ident_at(t, i + 1)->0))
    } else {
        (acc, i)
    }
}

/// `ident (. ident)*`.
pub open spec fn dotted(t: Seq<TokV>, i: int) -> Option<(Seq<Seq<char>>, int)> {
    match ident_at(t, i) {
        Some(n) => Some(dotted_rest(t, i + 1, seq![n])),
        None => None,
    }
}

/// `!base`, or `base` with an optional `?`.
pub open spec fn ty(t: Seq<TokV>, i: int) -> Option<(TypeV, int)>
    decreases t.len() - i, 1int,
{
    if at(t, i, Token::Bang) {
        match ty_base(t, i + 1) {
            Some((b, j)) => Some((TypeV::ErrorUnion(Box::new(b)), j)),
            None => None,
        }
    } else {
        match ty_base(t, i) {
            Some((b, j)) => if at(t, j, Token::Question) {
                Some((TypeV::Nillable(Box::new(b)), j + 1))
            } else {
                Some((b, j))
            },
            None => None,
        }
    }
}

/// `[T]`, `{K: V}`, `(T)` or a dotted name.
pub open spec fn ty_base(t: Seq<TokV>, i: int) -> Option<(TypeV, int)>
    decreases t.len() - i, 0int,
{
    if at(t, i, Token::LeftBracket) {
        match ty(t, i + 1) {
            Some((x, j)) => if at(t, j, Token::RightBracket) {
                Some((TypeV::List(Box::new(x)), j + 1))
            } else {
                None
            },
            None => None,
        }
    } else if at(t, i, Token::LeftCurly) {
        match ty(t, i + 1) {
            Some((k, j)) => if i < j && at(t, j, Token::Colon) {
                match ty(t, j + 1) {
                    Some((v, m)) => if at(t, m, Token::RightCurly) {
                        Some((TypeV::MapOf(Box::new(k), Box::new(v)), m + 1))
                    } else {
                        None
                    },
                    None => None,
                }
            } else {
                None
            },
            None => None,
        }
    } else if at(t, i, Token::LeftParen) {
        match ty(t, i + 1) {
            Some((x, j)) => if at(t, j, Token::RightParen) {
                Some((x, j + 1))
            } else {
                None
            },
            None => None,
        }
    } else {
        match dotted(t, i) {
            Some((p, j)) => Some((TypeV::Named(p), j)),
            None => None,
        }
    }
}

/// An optional `: T`; a colon not followed by a type leaves it out.
pub open spec fn opt_annotation(t: Seq<TokV>, i: int) -> (Option<TypeV>, int) {
    if at(t, i, Token::Colon) {
        match ty(t, i + 1) {
            Some((x, j)) => (Some(x), j),
            None => (None, i),
        }
    } else {
        (None, i)
    }
}

/// An optional `-> T`; an arrow not followed by a type leaves it out.
pub open spec fn opt_return(t: Seq<TokV>, i: int) -> (Option<TypeV>, int) {
    if at(t, i, Token::Arrow) {
        match ty(t, i + 1) {
            Some((x, j)) => (Some(x), j),
            None => (None, i),
        }
    } else {
        (None, i)
    }
}

/// `mut? ident (: T)?`.
pub open spec fn param(t: Seq<TokV>, i: int) -> Option<(ParamV, int)> {
    let m = at(t, i, Token::Mut);
    let k = if m { i + 1 } else { i };
    match ident_at(t, k) {
        Some(n) => {
            let (a, j) = opt_annotation(t, k + 1);
            Some((ParamV { name: n, type_ann: a, is_mut: m }, j))
        },
        None => None,
    }
}

/// `, param` repeated, then `)`.
pub open spec fn params_rest(t: Seq<TokV>, i: int, acc: Seq<ParamV>) -> Option<(Seq<ParamV>, int)>
    decreases t.len() - i,
{
    if at(t, i, Token::Comma) && param(t, i + 1) is Some && i < end_of(param(t, i + 1)) <= t.len() {
        params_rest(t, end_of(param(t, i + 1)), acc.push(val_of(param(t, i + 1))))
    } else if at(t, i, Token::RightParen) {
        Some((acc, i + 1))
    } else {
        None
    }
}

/// `( param, .. )`.
pub open spec fn params(t: Seq<TokV>, i: int) -> Option<(Seq<ParamV>, int)> {
    if !at(t, i, Token::LeftParen) {
        None
    } else {
        match param(t, i + 1) {
            Some((p, j)) => params_rest(t, j, seq![p]),
            None => if at(t, i + 1, Token::RightParen) {
                Some((seq![], i + 2))
            } else {
                None
            },
        }
    }
}

// ---------------------------------------------------------------------------
// Expressions and statements. The decreases measure is the fuel, the
// tokens left, and a rank that falls along calls at the same position.
// ---------------------------------------------------------------------------

/// The dotted path that a chain of field accesses on an identifier
/// spells.
pub open spec fn path_of(e: ExprV) -> Seq<Seq<char>>
    decreases e,
{
    match e {
        ExprV::Ident(n) => seq![n],
        ExprV::FieldAccess(o, f) => path_of(o.node).push(f),
        _ => seq![],
    }
}

pub open spec fn binary(op: BinOp, l: SExpr, r: SExpr) -> SExpr {
    SExpr { node: ExprV::Binary(op, Box::new(l), Box::new(r)), span: (l.span.0, r.span.1) }
}

/// The operator of a comparison token.
pub open spec fn relation_op(t: Seq<TokV>, i: int) -> Option<BinOp> {
    if at(t, i, Token::EqualsEquals) {
        Some(BinOp::Equals)
    } else if at(t, i, Token::NotEquals) {
        Some(BinOp::NotEquals)
    } else if at(t, i, Token::LessThan) {
        Some(BinOp::LessThan)
    } else if at(t, i, Token::GreaterThan) {
        Some(BinOp::GreaterThan)
    } else if at(t, i, Token::LessThanEquals) {
        Some(BinOp::LessThanEquals)
    } else if at(t, i, Token::GreaterThanEquals) {
        Some(BinOp::GreaterThanEquals)
    } else {
        None
    }
}

pub open spec fn sum_op(t: Seq<TokV>, i: int) -> Option<BinOp> {
    if at(t, i, Token::Plus) {
        Some(BinOp::Add)
    } else if at(t, i, Token::Minus) {
        Some(BinOp::Sub)
    } else {
        None
    }
}

pub open spec fn product_op(t: Seq<TokV>, i: int) -> Option<BinOp> {
    if at(t, i, Token::Multiply) {
        Some(BinOp::Mul)
    } else if at(t, i, Token::Divide) {
        Some(BinOp::Div)
    } else {
        None
    }
}

/// `or (orelse or)*`: the loosest level.
pub open spec fn expr(t: Seq<TokV>, i: int, f: nat) -> Option<(SExpr, int)>
    decreases f, t.len() - i, 20int,
{
    match or_expr(t, i, f) {
        Some((l, j)) => if i < j <= t.len() {
            Some(coalesce_rest(t, j, l, f))
        } else {
            None
        },
        None => None,
    }
}

pub open spec fn coalesce_rest(t: Seq<TokV>, i: int, l: SExpr, f: nat) -> (SExpr, int)
    decreases f, t.len() - i, 20int,
{
    if at(t, i, Token::Orelse) {
        match or_expr(t, i + 1, f) {
            Some((r, j)) => if i < j <= t.len() {
                coalesce_rest(
                    t,
                    j,
                    SExpr {
                        node: ExprV::Coalesce(Box::new(l), Box::new(r)),
                        span: (l.span.0, r.span.1),
                    },
                    f,
                )
            } else {
                (l, i)
            },
            None => (l, i),
        }
    } else {
        (l, i)
    }
}

pub open spec fn or_expr(t: Seq<TokV>, i: int, f: nat) -> Option<(SExpr, int)>
    decreases f, t.len() - i, 19int,
{
    match and_expr(t, i, f) {
        Some((l, j)) => if i < j <= t.len() {
            Some(or_rest(t, j, l, f))
        } else {
            None
        },
        None => None,
    }
}

pub open spec fn or_rest(t: Seq<TokV>, i: int, l: SExpr, f: nat) -> (SExpr, int)
    decreases f, t.len() - i, 19int,
{
    if at(t, i, Token::Or) {
        match and_expr(t, i + 1, f) {
            Some((r, j)) => if i < j <= t.len() {
                or_rest(t, j, binary(BinOp::Or, l, r), f)
            } else {
                (l, i)
            },
            None => (l, i),
        }
    } else {
        (l, i)
    }
}

pub open spec fn and_expr(t: Seq<TokV>, i: int, f: nat) -> Option<(SExpr, int)>
    decreases f, t.len() - i, 18int,
{
    match not_expr(t, i, f) {
        Some((l, j)) => if i < j <= t.len() {
            Some(and_rest(t, j, l, f))
        } else {
            None
        },
        None => None,
    }
}

pub open spec fn and_rest(t: Seq<TokV>, i: int, l: SExpr, f: nat) -> (SExpr, int)
    decreases f, t.len() - i, 18int,
{
    if at(t, i, Token::And) {
        match not_expr(t, i + 1, f) {
            Some((r, j)) => if i < j <= t.len() {
                and_rest(t, j, binary(BinOp::And, l, r), f)
            } else {
                (l, i)
            },
            None => (l, i),
        }
    } else {
        (l, i)
    }
}

/// `not* comparison`; each `not` keeps the span of its operand.
pub open spec fn not_expr(t: Seq<TokV>, i: int, f: nat) -> Option<(SExpr, int)>
    decreases f, t.len() - i, 17int,
{
    if at(t, i, Token::Not) {
        match not_expr(t, i + 1, f) {
            Some((e, j)) => Some(
                (SExpr { node: ExprV::Unary(UnaryOp::Not, Box::new(e)), span: e.span }, j),
            ),
            None => None,
        }
    } else {
        comparison(t, i, f)
    }
}

pub open spec fn comparison(t: Seq<TokV>, i: int, f: nat) -> Option<(SExpr, int)>
    decreases f, t.len() - i, 16int,
{
    match range_expr(t, i, f) {
        Some((l, j)) => if i < j <= t.len() {
            Some(comparison_rest(t, j, l, f))
        } else {
            None
        },
        None => None,
    }
}

pub open spec fn comparison_rest(t: Seq<TokV>, i: int, l: SExpr, f: nat) -> (SExpr, int)
    decreases f, t.len() - i, 16int,
{
    match relation_op(t, i) {
        Some(op) => match range_expr(t, i + 1, f) {
            Some((r, j)) => if i < j <= t.len() {
                comparison_rest(t, j, binary(op, l, r), f)
            } else {
                (l, i)
            },
            None => (l, i),
        },
        None => (l, i),
    }
}

/// `sum ((..= | ..) sum)?`.
pub open spec fn range_expr(t: Seq<TokV>, i: int, f: nat) -> Option<(SExpr, int)>
    decreases f, t.len() - i, 15int,
{
    match sum(t, i, f) {
        Some((a, j)) => {
            let inclusive = at(t, j, Token::DotDotEquals);
            if (inclusive || at(t, j, Token::DotDot)) && i < j {
                match sum(t, j + 1, f) {
                    Some((b, k)) => Some(
                        (
                            SExpr {
                                node: ExprV::Range(Box::new(a), Box::new(b), inclusive),
                                span: (a.span.0, b.span.1),
                            },
                            k,
                        ),
                    ),
                    None => Some((a, j)),
                }
            } else {
                Some((a, j))
            }
        },
        None => None,
    }
}

pub open spec fn sum(t: Seq<TokV>, i: int, f: nat) -> Option<(SExpr, int)>
    decreases f, t.len() - i, 14int,
{
    match product(t, i, f) {
        Some((l, j)) => if i < j <= t.len() {
            Some(sum_rest(t, j, l, f))
        } else {
            None
        },
        None => None,
    }
}

pub open spec fn sum_rest(t: Seq<TokV>, i: int, l: SExpr, f: nat) -> (SExpr, int)
    decreases f, t.len() - i, 14int,
{
    match sum_op(t, i) {
        Some(op) => match product(t, i + 1, f) {
            Some((r, j)) => if i < j <= t.len() {
                sum_rest(t, j, binary(op, l, r), f)
            } else {
                (l, i)
            },
            None => (l, i),
        },
        None => (l, i),
    }
}

pub open spec fn product(t: Seq<TokV>, i: int, f: nat) -> Option<(SExpr, int)>
    decreases f, t.len() - i, 13int,
{
    match prefix(t, i, f) {
        Some((l, j)) => if i < j <= t.len() {
            Some(product_rest(t, j, l, f))
        } else {
            None
        },
        None => None,
    }
}

pub open spec fn product_rest(t: Seq<TokV>, i: int, l: SExpr, f: nat) -> (SExpr, int)
    decreases f, t.len() - i, 13int,
{
    match product_op(t, i) {
        Some(op) => match prefix(t, i + 1, f) {
            Some((r, j)) => if i < j <= t.len() {
                product_rest(t, j, binary(op, l, r), f)
            } else {
                (l, i)
            },
            None => (l, i),
        },
        None => (l, i),
    }
}

/// `-`, `try` and `!` in front of a postfix expression; each keeps the
/// span of its operand.
pub open spec fn prefix(t: Seq<TokV>, i: int, f: nat) -> Option<(SExpr, int)>
    decreases f, t.len() - i, 12int,
{
    if at(t, i, Token::Minus) || at(t, i, Token::Try) || at(t, i, Token::Bang) {
        match prefix(t, i + 1, f) {
            Some((e, j)) => {
                let node = if at(t, i, Token::Minus) {
                    ExprV::Unary(UnaryOp::Negate, Box::new(e))
                } else if at(t, i, Token::Try) {
                    ExprV::Try(Box::new(e))
                } else {
                    ExprV::UnwrapError(Box::new(e))
                };
                Some((SExpr { node, span: e.span }, j))
            },
            None => None,
        }
    } else {
        postfix(t, i, f)
    }
}

pub open spec fn postfix(t: Seq<TokV>, i: int, f: nat) -> Option<(SExpr, int)>
    decreases f, t.len() - i, 11int,
{
    match atom(t, i, f) {
        Some((a, j)) => if i < j <= t.len() {
            Some(postfix_rest(t, j, a, f))
        } else {
            None
        },
        None => None,
    }
}

/// `.name`, `.name(args)`, `.Type { fields }` and `[index]` steps; each
/// keeps the span of the object it applies to.
pub open spec fn postfix_rest(t: Seq<TokV>, i: int, o: SExpr, f: nat) -> (SExpr, int)
    decreases f, t.len() - i, 11int,
{
    if at(t, i, Token::Dot) && ident_at(t, i + 1) is Some {
        let n = ident_at(t, i + 1)->0;
        match call_args(t, i + 2, f) {
            Some((args, m)) => if i < m <= t.len() {
                postfix_rest(
                    t,
                    m,
                    SExpr { node: ExprV::MethodCall(Box::new(o), n, args), span: o.span },
                    f,
                )
            } else {
                (o, i)
            },
            None => match obj_fields(t, i + 2, f) {
                Some((fs, m)) => if i < m <= t.len() {
                    postfix_rest(
                        t,
                        m,
                        SExpr { node: ExprV::ObjLiteral(path_of(o.node).push(n), fs), span: o.span },
                        f,
                    )
                } else {
                    (o, i)
                },
                None => postfix_rest(
                    t,
                    i + 2,
                    SExpr { node: ExprV::FieldAccess(Box::new(o), n), span: o.span },
                    f,
                ),
            },
        }
    } else if at(t, i, Token::LeftBracket) {
        match expr(t, i + 1, f) {
            Some((x, j)) => if i < j && at(t, j, Token::RightBracket) {
                postfix_rest(
                    t,
                    j + 1,
                    SExpr { node: ExprV::Index(Box::new(o), Box::new(x)), span: o.span },
                    f,
                )
            } else {
                (o, i)
            },
            None => (o, i),
        }
    } else {
        (o, i)
    }
}

/// `( expr, .. )` at `i`: no trailing comma, no newlines.
pub open spec fn call_args(t: Seq<TokV>, i: int, f: nat) -> Option<(Seq<SExpr>, int)>
    decreases f, t.len() - i, 5int,
{
    if !at(t, i, Token::LeftParen) {
        None
    } else {
        match expr(t, i + 1, f) {
            Some((e, j)) => if i < j <= t.len() {
                args_rest(t, j, seq![e], f)
            } else {
                None
            },
            None => if at(t, i + 1, Token::RightParen) {
                Some((seq![], i + 2))
            } else {
                None
            },
        }
    }
}

pub open spec fn args_rest(t: Seq<TokV>, i: int, acc: Seq<SExpr>, f: nat) -> Option<
    (Seq<SExpr>, int),
>
    decreases f, t.len() - i, 5int,
{
    if at(t, i, Token::Comma) && expr(t, i + 1, f) is Some && i < end_of(expr(t, i + 1, f)) <= t.len() {
        let (e, j) = expr(t, i + 1, f)->0;
        args_rest(t, j, acc.push(e), f)
    } else if at(t, i, Token::RightParen) {
        Some((acc, i + 1))
    } else {
        None
    }
}

/// `{ name: expr, .. }` at `i`, newlines allowed after `{` and commas,
/// a trailing comma allowed.
pub open spec fn obj_fields(t: Seq<TokV>, i: int, f: nat) -> Option<(Seq<(Seq<char>, SExpr)>, int)>
    decreases f, t.len() - i, 5int,
{
    if !at(t, i, Token::LeftCurly) {
        None
    } else {
        proof {
            lemma_skip_nl(t, i + 1);
        }
        field_items(t, skip_nl(t, i + 1), seq![], f)
    }
}

pub open spec fn close_curly(t: Seq<TokV>, i: int) -> Option<int> {
    let k = skip_nl(t, i);
    if at(t, k, Token::RightCurly) {
        Some(k + 1)
    } else {
        None
    }
}

pub open spec fn close_bracket(t: Seq<TokV>, i: int) -> Option<int> {
    let k = skip_nl(t, i);
    if at(t, k, Token::RightBracket) {
        Some(k + 1)
    } else {
        None
    }
}

pub open spec fn field_items(t: Seq<TokV>, i: int, acc: Seq<(Seq<char>, SExpr)>, f: nat) -> Option<
    (Seq<(Seq<char>, SExpr)>, int),
>
    decreases f, t.len() - i, 4int,
{
    if ident_at(t, i) is Some && at(t, i + 1, Token::Colon) && expr(t, i + 2, f) is Some && i < end_of(expr(
        t,
        i + 2,
        f,
    )) <= t.len() {
        let (e, j) = expr(t, i + 2, f)->0;
        let acc2 = acc.push((ident_at(t, i)->0, e));
        if at(t, j, Token::Comma) {
            proof {
                lemma_skip_nl(t, j + 1);
            }
            field_items(t, skip_nl(t, j + 1), acc2, f)
        } else {
            match close_curly(t, j) {
                Some(k) => Some((acc2, k)),
                None => None,
            }
        }
    } else {
        match close_curly(t, i) {
            Some(k) => Some((acc, k)),
            None => None,
        }
    }
}

/// `[ expr, .. ]` items after the `[`.
pub open spec fn list_items(t: Seq<TokV>, i: int, acc: Seq<SExpr>, f: nat) -> Option<
    (Seq<SExpr>, int),
>
    decreases f, t.len() - i, 21int,
{
    if expr(t, i, f) is Some && i < end_of(expr(t, i, f)) <= t.len() {
        let (e, j) = expr(t, i, f)->0;
        if at(t, j, Token::Comma) {
            proof {
                lemma_skip_nl(t, j + 1);
            }
            list_items(t, skip_nl(t, j + 1), acc.push(e), f)
        } else {
            match close_bracket(t, j) {
                Some(k) => Some((acc.push(e), k)),
                None => None,
            }
        }
    } else {
        match close_bracket(t, i) {
            Some(k) => Some((acc, k)),
            None => None,
        }
    }
}

/// `{ key: value, .. }` entries after the `{`.
pub open spec fn map_items(t: Seq<TokV>, i: int, acc: Seq<(SExpr, SExpr)>, f: nat) -> Option<
    (Seq<(SExpr, SExpr)>, int),
>
    decreases f, t.len() - i, 21int,
{
    let key = expr(t, i, f);
    if key is Some && i < end_of(key) && at(t, end_of(key), Token::Colon) && expr(t, end_of(key) + 1, f) is Some
        && end_of(key) < end_of(expr(t, end_of(key) + 1, f)) <= t.len() {
        let (k, j) = key->0;
        let (v, m) = expr(t, j + 1, f)->0;
        if at(t, m, Token::Comma) {
            proof {
                lemma_skip_nl(t, m + 1);
            }
            map_items(t, skip_nl(t, m + 1), acc.push((k, v)), f)
        } else {
            match close_curly(t, m) {
                Some(e) => Some((acc.push((k, v)), e)),
                None => None,
            }
        }
    } else {
        match close_curly(t, i) {
            Some(e) => Some((acc, e)),
            None => None,
        }
    }
}

/// An identifier, optionally followed by call arguments and then by
/// object-literal fields. With arguments it is a call (fields after
/// them are read and dropped); with fields only, an object literal.
pub open spec fn ident_or_call(t: Seq<TokV>, i: int, f: nat) -> Option<(ExprV, int)>
    decreases f, t.len() - i, 9int,
{
    match ident_at(t, i) {
        None => None,
        Some(n) => {
            let args = call_args(t, i + 1, f);
            let j = match args {
                Some((_, j)) => if i < j <= t.len() {
                    j
                } else {
                    i + 1
                },
                None => i + 1,
            };
            let fields = obj_fields(t, j, f);
            let k = match fields {
                Some((_, k)) => if j < k <= t.len() {
                    k
                } else {
                    j
                },
                None => j,
            };
            if args is Some && i < end_of(args) <= t.len() {
                Some((ExprV::Call(n, val_of(args)), k))
            } else if fields is Some && j < end_of(fields) <= t.len() {
                Some((ExprV::ObjLiteral(seq![n], val_of(fields)), k))
            } else {
                Some((ExprV::Ident(n), k))
            }
        },
    }
}

/// Literals, identifiers, calls, object literals, parenthesized
/// expressions, list and map literals; the span covers every token read.
pub open spec fn atom(t: Seq<TokV>, i: int, f: nat) -> Option<(SExpr, int)>
    decreases f, t.len() - i, 10int,
{
    if !(0 <= i < t.len()) {
        None
    } else {
        proof {
            lemma_skip_nl(t, i + 1);
        }
        let node_end: Option<(ExprV, int)> = match t[i].0 {
            Tok::Fixed(Token::True) => Some((ExprV::True, i + 1)),
            Tok::Fixed(Token::False) => Some((ExprV::False, i + 1)),
            Tok::Fixed(Token::Nil) => Some((ExprV::Nil, i + 1)),
            Tok::Float(x) => Some((ExprV::Float(x), i + 1)),
            Tok::Int(n) => Some((ExprV::Int(n), i + 1)),
            Tok::Str(s) => Some((string_expr(s, sat(t[i].1, 1), f), i + 1)),
            Tok::Ident(_) => ident_or_call(t, i, f),
            Tok::Fixed(Token::LeftParen) => match expr(t, i + 1, f) {
                Some((e, j)) => if i < j && at(t, j, Token::RightParen) {
                    Some((e.node, j + 1))
                } else {
                    None
                },
                None => None,
            },
            Tok::Fixed(Token::LeftBracket) => match list_items(t, skip_nl(t, i + 1), seq![], f) {
                Some((xs, j)) => Some((ExprV::List(xs), j)),
                None => None,
            },
            Tok::Fixed(Token::LeftCurly) => match map_items(t, skip_nl(t, i + 1), seq![], f) {
                Some((xs, j)) => Some((ExprV::MapLit(xs), j)),
                None => None,
            },
            _ => None,
        };
        match node_end {
            Some((node, j)) => if i < j <= t.len() {
                Some((SExpr { node, span: region(t, i, j) }, j))
            } else {
                None
            },
            None => None,
        }
    }
}

// ---------------------------------------------------------------------------
// String literals: `{expr}` interpolates, `\{`, `\}` and `\\` escape.
// ---------------------------------------------------------------------------

/// Addition of byte offsets, saturating at the largest `usize`.
pub open spec fn sat(a: int, b: int) -> int {
    if a + b > usize::MAX {
        usize::MAX as int
    } else {
        a + b
    }
}

/// The number of bytes of a character in UTF-8.
pub open spec fn utf8_len(c: char) -> int {
    if (c as u32) < 0x80 {
        1
    } else if (c as u32) < 0x800 {
        2
    } else if (c as u32) < 0x10000 {
        3
    } else {
        4
    }
}

/// The state of the scan of a string literal's content.
pub struct ScanState {
    pub parts: Seq<PartV>,
    pub lit: Seq<char>,
    pub code: Seq<char>,
    pub depth: nat,
    pub byte_pos: int,
    pub code_start: int,
}

/// One character (or an escape pair) of the scan at `k`.
pub open spec fn scan_content(cs: Seq<char>, k: int, s: ScanState, base: int, f: nat) -> ScanState
    decreases f, 0int, cs.len() - k,
{
    if !(0 <= k < cs.len()) {
        s
    } else {
        let c = cs[k];
        let n = utf8_len(c);
        if s.depth > 0 {
            if c == '{' {
                scan_content(
                    cs,
                    k + 1,
                    ScanState { code: s.code.push(c), depth: s.depth + 1, byte_pos: sat(s.byte_pos, n), ..s },
                    base,
                    f,
                )
            } else if c == '}' && s.depth == 1 {
                let next = match interp_expr(s.code, sat(base, s.code_start), f) {
                    Some(e) => ScanState { parts: s.parts.push(PartV::Interp(e)), ..s },
                    None => ScanState { lit: s.lit + seq!['{'] + s.code + seq!['}'], ..s },
                };
                scan_content(
                    cs,
                    k + 1,
                    ScanState { code: seq![], depth: 0, byte_pos: sat(s.byte_pos, n), ..next },
                    base,
                    f,
                )
            } else if c == '}' {
                scan_content(
                    cs,
                    k + 1,
                    ScanState {
                        code: s.code.push(c),
                        depth: (s.depth - 1) as nat,
                        byte_pos: sat(s.byte_pos, n),
                        ..s
                    },
                    base,
                    f,
                )
            } else {
                scan_content(
                    cs,
                    k + 1,
                    ScanState { code: s.code.push(c), byte_pos: sat(s.byte_pos, n), ..s },
                    base,
                    f,
                )
            }
        } else if c == '\\' {
            if k + 1 < cs.len() {
                let d = cs[k + 1];
                let lit = if d == '\\' || d == '{' || d == '}' {
                    s.lit.push(d)
                } else {
                    s.lit.push('\\').push(d)
                };
                scan_content(
                    cs,
                    k + 2,
                    ScanState { lit, byte_pos: sat(sat(s.byte_pos, utf8_len(d)), n), ..s },
                    base,
                    f,
                )
            } else {
                scan_content(
                    cs,
                    k + 1,
                    ScanState { lit: s.lit.push('\\'), byte_pos: sat(s.byte_pos, n), ..s },
                    base,
                    f,
                )
            }
        } else if c == '{' {
            let parts = if s.lit.len() > 0 {
                s.parts.push(PartV::Literal(s.lit))
            } else {
                s.parts
            };
            scan_content(
                cs,
                k + 1,
                ScanState {
                    parts,
                    lit: seq![],
                    depth: 1,
                    code_start: sat(s.byte_pos, n),
                    byte_pos: sat(s.byte_pos, n),
                    ..s
                },
                base,
                f,
            )
        } else {
            scan_content(
                cs,
                k + 1,
                ScanState { lit: s.lit.push(c), byte_pos: sat(s.byte_pos, n), ..s },
                base,
                f,
            )
        }
    }
}

/// The expression a string literal with content `cs`, starting at byte
/// `base` of the source, denotes: a plain string when it is one literal
/// piece, an interpolation otherwise. An interpolation that does not
/// parse, or is left open, stays in the text.
pub open spec fn string_expr(cs: Seq<char>, base: int, f: nat) -> ExprV
    decreases f, 0int, cs.len() + 1,
{
    let s = scan_content(
        cs,
        0,
        ScanState { parts: seq![], lit: seq![], code: seq![], depth: 0, byte_pos: 0, code_start: 0 },
        base,
        f,
    );
    let lit = if s.depth > 0 {
        s.lit + seq!['{'] + s.code
    } else {
        s.lit
    };
    let parts = if lit.len() > 0 {
        s.parts.push(PartV::Literal(lit))
    } else {
        s.parts
    };
    if parts.len() == 1 && parts[0] is Literal {
        ExprV::Str(parts[0]->Literal_0)
    } else {
        ExprV::Interp(parts)
    }
}

/// The tokens of `code`, lexed on their own and without comments, with
/// spans moved by `base`.
pub open spec fn tokens_of(code: Seq<char>, base: int) -> Seq<TokV> {
    let b = encode_utf8(code);
    code_lexemes(lexemes(b, 0).0).map_values(
        |x: (Lexeme, int, int)| (lexeme_tok(b, x.0, x.1, x.2), sat(x.1, base), sat(x.2, base)),
    )
}

/// The expression an interpolation holds: `code` must lex without
/// errors and parse as exactly one expression statement.
pub open spec fn interp_expr(code: Seq<char>, base: int, f: nat) -> Option<SExpr>
    decreases f, 0int, 0int,
{
    let b = encode_utf8(code);
    let toks = tokens_of(code, base);
    if f == 0 || lexemes(b, 0).1.len() > 0 || toks.len() == 0 {
        None
    } else {
        match program(toks, (f - 1) as nat) {
            Some(ss) => if ss.len() == 1 && ss[0].node is Expression {
                Some(ss[0].node->Expression_0)
            } else {
                None
            },
            None => None,
        }
    }
}

// ---------------------------------------------------------------------------
// Statements.
// ---------------------------------------------------------------------------

/// `{ stmt .. }` at `i`: statements may be separated by newlines or
/// nothing.
pub open spec fn block(t: Seq<TokV>, i: int, f: nat) -> Option<(SExpr, int)>
    decreases f, t.len() - i, 23int,
{
    if !at(t, i, Token::LeftCurly) {
        None
    } else {
        proof {
            lemma_skip_nl(t, i + 1);
        }
        match block_items(t, skip_nl(t, i + 1), seq![], f) {
            Some((ss, j)) => if i < j <= t.len() {
                Some((SExpr { node: ExprV::Block(ss), span: region(t, i, j) }, j))
            } else {
                None
            },
            None => None,
        }
    }
}

pub open spec fn block_items(t: Seq<TokV>, i: int, acc: Seq<SStmt>, f: nat) -> Option<
    (Seq<SStmt>, int),
>
    decreases f, t.len() - i, 36int,
{
    match stmt(t, i, f) {
        Some((s, j)) => if i < j <= t.len() {
            proof {
                lemma_skip_nl(t, j);
            }
            block_items(t, skip_nl(t, j), acc.push(s), f)
        } else {
            None
        },
        None => match close_curly(t, i) {
            Some(k) => Some((acc, k)),
            None => None,
        },
    }
}

/// An optional `else { .. }` or `elif ..` after an `if` body; `elif`
/// becomes a block holding the next `if`.
pub open spec fn else_branch(t: Seq<TokV>, i: int, f: nat) -> (Option<SExpr>, int)
    decreases f, t.len() - i, 21int,
{
    if at(t, i, Token::Else) && block(t, i + 1, f) is Some {
        let (b, j) = block(t, i + 1, f)->0;
        (Some(b), j)
    } else if at(t, i, Token::Elif) && if_rest(t, i + 1, f) is Some && i < end_of(if_rest(t, i + 1, f))
        <= t.len() {
        let (s, j) = if_rest(t, i + 1, f)->0;
        (Some(SExpr { node: ExprV::Block(seq![s]), span: region(t, i, j) }), j)
    } else {
        (None, i)
    }
}

/// What follows `if`: `let name = value { .. }` or `cond { .. }`, with
/// an optional else branch. The span starts after the `if`.
pub open spec fn if_rest(t: Seq<TokV>, i: int, f: nat) -> Option<(SStmt, int)>
    decreases f, t.len() - i, 29int,
{
    if at(t, i, Token::Let) && ident_at(t, i + 1) is Some && at(t, i + 2, Token::Equals) {
        if_let_rest(t, i, f)
    } else {
        if_cond_rest(t, i, f)
    }
}

/// `let name = value { .. }` and an optional else branch.
pub open spec fn if_let_rest(t: Seq<TokV>, i: int, f: nat) -> Option<(SStmt, int)>
    decreases f, t.len() - i, 28int,
{
    if !(at(t, i, Token::Let) && ident_at(t, i + 1) is Some && at(t, i + 2, Token::Equals)) {
        None
    } else {
        match expr(t, i + 3, f) {
            Some((v, j)) => if i < j <= t.len() {
                match block(t, j, f) {
                    Some((b, k)) => if j < k <= t.len() {
                        let (eb, m) = else_branch(t, k, f);
                        Some(
                            (
                                SStmt {
                                    node: StmtV::IfLet(ident_at(t, i + 1)->0, v, b, eb),
                                    span: region(t, i, m),
                                },
                                m,
                            ),
                        )
                    } else {
                        None
                    },
                    None => None,
                }
            } else {
                None
            },
            None => None,
        }
    }
}

/// `cond { .. }` and an optional else branch.
pub open spec fn if_cond_rest(t: Seq<TokV>, i: int, f: nat) -> Option<(SStmt, int)>
    decreases f, t.len() - i, 28int,
{
    match expr(t, i, f) {
        Some((c, j)) => if i < j <= t.len() {
            match block(t, j, f) {
                Some((b, k)) => if j < k <= t.len() {
                    let (eb, m) = else_branch(t, k, f);
                    Some((SStmt { node: StmtV::If(c, b, eb), span: region(t, i, m) }, m))
                } else {
                    None
                },
                None => None,
            }
        } else {
            None
        },
        None => None,
    }
}

/// `pub? kw name (: T)? = expr` with `kw` one of `let` and `val`.
pub open spec fn binding(t: Seq<TokV>, i: int, f: nat, mutable: bool) -> Option<(SStmt, int)>
    decreases f, t.len() - i, 34int,
{
    let p = at(t, i, Token::Pub);
    let k = if p { i + 1 } else { i };
    let kw = if mutable { Token::Let } else { Token::Val };
    if at(t, k, kw) && ident_at(t, k + 1) is Some {
        let (a, j) = opt_annotation(t, k + 2);
        if i < j && at(t, j, Token::Equals) {
            match expr(t, j + 1, f) {
                Some((v, m)) => if j < m <= t.len() {
                    let n = ident_at(t, k + 1)->0;
                    let node = if mutable {
                        StmtV::Let(n, v, a, p)
                    } else {
                        StmtV::Val(n, v, a, p)
                    };
                    Some((SStmt { node, span: region(t, i, m) }, m))
                } else {
                    None
                },
                None => None,
            }
        } else {
            None
        }
    } else {
        None
    }
}

/// `target = expr` where the target is a name, a field access or an
/// index.
pub open spec fn assignment(t: Seq<TokV>, i: int, f: nat) -> Option<(SStmt, int)>
    decreases f, t.len() - i, 33int,
{
    match postfix(t, i, f) {
        Some((target, j)) => if i < j && at(t, j, Token::Equals) {
            match expr(t, j + 1, f) {
                Some((v, m)) => if j < m <= t.len() {
                    let node = match target.node {
                        ExprV::Ident(n) => Some(StmtV::Assignment(n, v)),
                        ExprV::FieldAccess(o, fld) => Some(StmtV::FieldAssignment(*o, fld, v)),
                        ExprV::Index(o, x) => Some(StmtV::IndexAssignment(*o, *x, v)),
                        _ => None,
                    };
                    match node {
                        Some(node) => Some((SStmt { node, span: region(t, i, m) }, m)),
                        None => None,
                    }
                } else {
                    None
                },
                None => None,
            }
        } else {
            None
        },
        None => None,
    }
}

/// An item of an `obj` body.
pub enum ItemV {
    Field(FieldV),
    Method(MethodV),
    Use(Seq<Seq<char>>),
}

/// `pub? fn name(params) (-> T)? { .. }?` inside an `obj` body.
pub open spec fn method(t: Seq<TokV>, i: int, f: nat) -> Option<(MethodV, int)>
    decreases f, t.len() - i, 31int,
{
    let p = at(t, i, Token::Pub);
    let k = if p { i + 1 } else { i };
    if at(t, k, Token::Fn) && ident_at(t, k + 1) is Some && params(t, k + 2) is Some {
        let (ps, j) = params(t, k + 2)->0;
        let (r, j2) = opt_return(t, j);
        if i < j2 <= t.len() {
            let (body, end) = match block(t, j2, f) {
                Some((b, m)) => (Some(b), m),
                None => (None, j2),
            };
            Some(
                (
                    MethodV {
                        name: ident_at(t, k + 1)->0,
                        params: ps,
                        body,
                        return_type: r,
                        is_pub: p,
                        span: region(t, i, end),
                    },
                    end,
                ),
            )
        } else {
            None
        }
    } else {
        None
    }
}

/// `pub? name: T` inside an `obj` body.
pub open spec fn obj_field(t: Seq<TokV>, i: int) -> Option<(FieldV, int)> {
    let p = at(t, i, Token::Pub);
    let k = if p { i + 1 } else { i };
    if ident_at(t, k) is Some && at(t, k + 1, Token::Colon) && ty(t, k + 2) is Some {
        let (x, j) = ty(t, k + 2)->0;
        Some((FieldV { name: ident_at(t, k)->0, type_ann: x, span: region(t, i, j), is_pub: p }, j))
    } else {
        None
    }
}

/// A method, a `use path`, or a field.
pub open spec fn obj_item(t: Seq<TokV>, i: int, f: nat) -> Option<(ItemV, int)>
    decreases f, t.len() - i, 32int,
{
    match method(t, i, f) {
        Some((m, j)) => Some((ItemV::Method(m), j)),
        None => if at(t, i, Token::Use) && dotted(t, i + 1) is Some {
            let (p, j) = dotted(t, i + 1)->0;
            Some((ItemV::Use(p), j))
        } else {
            match obj_field(t, i) {
                Some((x, j)) => Some((ItemV::Field(x), j)),
                None => None,
            }
        },
    }
}

/// The items of an `obj` body, separated by a comma and newlines, by
/// newlines, or by nothing; a trailing separator is allowed.
pub open spec fn obj_items(t: Seq<TokV>, i: int, acc: Seq<ItemV>, f: nat) -> Option<
    (Seq<ItemV>, int),
>
    decreases f, t.len() - i, 37int,
{
    match obj_item(t, i, f) {
        Some((x, j)) => if i < j <= t.len() {
            proof {
                lemma_skip_nl(t, j);
                lemma_skip_nl(t, j + 1);
            }
            let k = if at(t, j, Token::Comma) {
                skip_nl(t, j + 1)
            } else {
                skip_nl(t, j)
            };
            obj_items(t, k, acc.push(x), f)
        } else {
            None
        },
        None => match close_curly(t, i) {
            Some(k) => Some((acc, k)),
            None => None,
        },
    }
}

pub open spec fn item_fields(s: Seq<ItemV>) -> Seq<FieldV>
    decreases s.len(),
{
    if s.len() == 0 {
        seq![]
    } else {
        let rest = item_fields(s.drop_last());
        match s.last() {
            ItemV::Field(x) => rest.push(x),
            _ => rest,
        }
    }
}

pub open spec fn item_methods(s: Seq<ItemV>) -> Seq<MethodV>
    decreases s.len(),
{
    if s.len() == 0 {
        seq![]
    } else {
        let rest = item_methods(s.drop_last());
        match s.last() {
            ItemV::Method(x) => rest.push(x),
            _ => rest,
        }
    }
}

pub open spec fn item_uses(s: Seq<ItemV>) -> Seq<Seq<Seq<char>>>
    decreases s.len(),
{
    if s.len() == 0 {
        seq![]
    } else {
        let rest = item_uses(s.drop_last());
        match s.last() {
            ItemV::Use(x) => rest.push(x),
            _ => rest,
        }
    }
}

/// `pub? obj Name { items }`.
pub open spec fn obj_def(t: Seq<TokV>, i: int, f: nat) -> Option<(SStmt, int)>
    decreases f, t.len() - i, 33int,
{
    let p = at(t, i, Token::Pub);
    let k = if p { i + 1 } else { i };
    if at(t, k, Token::Obj) && ident_at(t, k + 1) is Some && at(t, k + 2, Token::LeftCurly) {
        proof {
            lemma_skip_nl(t, k + 3);
        }
        match obj_items(t, skip_nl(t, k + 3), seq![], f) {
            Some((items, j)) => if i < j <= t.len() {
                Some(
                    (
                        SStmt {
                            node: StmtV::ObjDef(
                                ident_at(t, k + 1)->0,
                                item_fields(items),
                                item_methods(items),
                                item_uses(items),
                                p,
                            ),
                            span: region(t, i, j),
                        },
                        j,
                    ),
                )
            } else {
                None
            },
            None => None,
        }
    } else {
        None
    }
}

/// `pub? fn name(params) (-> T)? { .. }`.
pub open spec fn function(t: Seq<TokV>, i: int, f: nat) -> Option<(SStmt, int)>
    decreases f, t.len() - i, 33int,
{
    let p = at(t, i, Token::Pub);
    let k = if p { i + 1 } else { i };
    if at(t, k, Token::Fn) && ident_at(t, k + 1) is Some && params(t, k + 2) is Some {
        let (ps, j) = params(t, k + 2)->0;
        let (r, j2) = opt_return(t, j);
        if i < j2 <= t.len() {
            match block(t, j2, f) {
                Some((b, m)) => if j2 < m <= t.len() {
                    Some(
                        (
                            SStmt {
                                node: StmtV::Function(ident_at(t, k + 1)->0, ps, b, r, p),
                                span: region(t, i, m),
                            },
                            m,
                        ),
                    )
                } else {
                    None
                },
                None => None,
            }
        } else {
            None
        }
    } else {
        None
    }
}

/// `import a.b.c`.
pub open spec fn import_stmt(t: Seq<TokV>, i: int) -> Option<(SStmt, int)> {
    match dotted(t, i + 1) {
        Some((p, j)) => Some((SStmt { node: StmtV::Import(p), span: region(t, i, j) }, j)),
        None => None,
    }
}

/// `rn expr?`.
pub open spec fn return_stmt(t: Seq<TokV>, i: int, f: nat) -> Option<(SStmt, int)>
    decreases f, t.len() - i, 33int,
{
    if !(at(t, i, Token::Rn)) {
        None
    } else {
        match expr(t, i + 1, f) {
            Some((e, j)) => if i < j <= t.len() {
                Some((SStmt { node: StmtV::Return(Some(e)), span: region(t, i, j) }, j))
            } else {
                None
            },
            None => Some((SStmt { node: StmtV::Return(None), span: region(t, i, i + 1) }, i + 1)),
        }
    }
}

/// `unless cond { .. } (else { .. })?`.
pub open spec fn unless_stmt(t: Seq<TokV>, i: int, f: nat) -> Option<(SStmt, int)>
    decreases f, t.len() - i, 33int,
{
    if !(at(t, i, Token::Unless)) {
        None
    } else {
        match expr(t, i + 1, f) {
            Some((c, j)) => if i < j <= t.len() {
                match block(t, j, f) {
                    Some((b, k)) => if j < k <= t.len() {
                        let (eb, m) = if at(t, k, Token::Else) && block(t, k + 1, f) is Some {
                            (Some(val_of(block(t, k + 1, f))), end_of(block(t, k + 1, f)))
                        } else {
                            (None, k)
                        };
                        Some((SStmt { node: StmtV::Unless(c, b, eb), span: region(t, i, m) }, m))
                    } else {
                        None
                    },
                    None => None,
                }
            } else {
                None
            },
            None => None,
        }
    }
}

/// `while cond { .. }`.
pub open spec fn while_stmt(t: Seq<TokV>, i: int, f: nat) -> Option<(SStmt, int)>
    decreases f, t.len() - i, 33int,
{
    if !(at(t, i, Token::While)) {
        None
    } else {
        match expr(t, i + 1, f) {
            Some((c, j)) => if i < j <= t.len() {
                match block(t, j, f) {
                    Some((b, k)) => Some((SStmt { node: StmtV::While(c, b), span: region(t, i, k) }, k)),
                    None => None,
                }
            } else {
                None
            },
            None => None,
        }
    }
}

/// `for name in iterable { .. }`.
pub open spec fn for_stmt(t: Seq<TokV>, i: int, f: nat) -> Option<(SStmt, int)>
    decreases f, t.len() - i, 33int,
{
    if !(at(t, i, Token::For) && ident_at(t, i + 1) is Some && at(t, i + 2, Token::In)) {
        None
    } else {
        match expr(t, i + 3, f) {
            Some((it, j)) => if i < j <= t.len() {
                match block(t, j, f) {
                    Some((b, k)) => Some(
                        (
                            SStmt {
                                node: StmtV::For(ident_at(t, i + 1)->0, it, b),
                                span: region(t, i, k),
                            },
                            k,
                        ),
                    ),
                    None => None,
                }
            } else {
                None
            },
            None => None,
        }
    }
}

/// `test "name" { .. }`.
pub open spec fn test_stmt(t: Seq<TokV>, i: int, f: nat) -> Option<(SStmt, int)>
    decreases f, t.len() - i, 33int,
{
    if !(at(t, i, Token::Test) && 0 <= i + 1 < t.len() && t[i + 1].0 is Str) {
        None
    } else {
        match block(t, i + 2, f) {
            Some((b, k)) => Some(
                (SStmt { node: StmtV::Test(t[i + 1].0->Str_0, b), span: region(t, i, k) }, k),
            ),
            None => None,
        }
    }
}

/// `assert(expr)`.
pub open spec fn assert_stmt(t: Seq<TokV>, i: int, f: nat) -> Option<(SStmt, int)>
    decreases f, t.len() - i, 33int,
{
    if !(at(t, i, Token::Assert) && at(t, i + 1, Token::LeftParen)) {
        None
    } else {
        match expr(t, i + 2, f) {
            Some((c, j)) => if i < j && at(t, j, Token::RightParen) {
                Some((SStmt { node: StmtV::Assert(c), span: region(t, i, j + 1) }, j + 1))
            } else {
                None
            },
            None => None,
        }
    }
}

/// The statements that begin with a keyword of their own.
pub open spec fn keyword_stmt(t: Seq<TokV>, i: int, f: nat) -> Option<(SStmt, int)>
    decreases f, t.len() - i, 34int,
{
    if at(t, i, Token::Import) {
        import_stmt(t, i)
    } else if at(t, i, Token::Rn) {
        return_stmt(t, i, f)
    } else if at(t, i, Token::If) {
        if_rest(t, i + 1, f)
    } else if at(t, i, Token::Unless) {
        unless_stmt(t, i, f)
    } else if at(t, i, Token::While) {
        while_stmt(t, i, f)
    } else if at(t, i, Token::For) && ident_at(t, i + 1) is Some && at(t, i + 2, Token::In) {
        for_stmt(t, i, f)
    } else if at(t, i, Token::Break) {
        Some((SStmt { node: StmtV::Break, span: region(t, i, i + 1) }, i + 1))
    } else if at(t, i, Token::Continue) {
        Some((SStmt { node: StmtV::Continue, span: region(t, i, i + 1) }, i + 1))
    } else if at(t, i, Token::Test) && 0 <= i + 1 < t.len() && t[i + 1].0 is Str {
        test_stmt(t, i, f)
    } else if at(t, i, Token::Assert) && at(t, i + 1, Token::LeftParen) {
        assert_stmt(t, i, f)
    } else {
        None
    }
}

/// A statement: the first alternative that parses, in the order `let`,
/// assignment, `val`, `obj`, `fn`, keyword statements, a block, an
/// expression.
pub open spec fn stmt(t: Seq<TokV>, i: int, f: nat) -> Option<(SStmt, int)>
    decreases f, t.len() - i, 35int,
{
    if binding(t, i, f, true) is Some {
        binding(t, i, f, true)
    } else if assignment(t, i, f) is Some {
        assignment(t, i, f)
    } else if binding(t, i, f, false) is Some {
        binding(t, i, f, false)
    } else if obj_def(t, i, f) is Some {
        obj_def(t, i, f)
    } else if function(t, i, f) is Some {
        function(t, i, f)
    } else if keyword_stmt(t, i, f) is Some {
        keyword_stmt(t, i, f)
    } else if block(t, i, f) is Some {
        let (b, j) = block(t, i, f)->0;
        Some((SStmt { node: StmtV::Expression(b), span: b.span }, j))
    } else {
        match expr(t, i, f) {
            Some((e, j)) => if i < j <= t.len() {
                Some((SStmt { node: StmtV::Expression(e), span: region(t, i, j) }, j))
            } else {
                None
            },
            None => None,
        }
    }
}

/// Top-level statements from `i`, separated by one or more newlines; a
/// trailing separator is allowed. Returns the statements and where they
/// stop.
pub open spec fn top_items(t: Seq<TokV>, i: int, acc: Seq<SStmt>, f: nat) -> (Seq<SStmt>, int)
    decreases f, t.len() - i, 40int,
{
    match stmt(t, i, f) {
        Some((s, j)) => if i < j <= t.len() {
            proof {
                lemma_skip_nl(t, j);
            }
            let k = skip_nl(t, j);
            if j < k {
                top_items(t, k, acc.push(s), f)
            } else {
                (acc.push(s), j)
            }
        } else {
            (acc, i)
        },
        None => (acc, i),
    }
}

/// Where the top-level statements of a program stop.
pub open spec fn program_stop(t: Seq<TokV>, f: nat) -> int {
    top_items(t, skip_nl(t, 0), seq![], f).1
}

/// A program: optional leading newlines, then the top-level statements,
/// which must reach the end of the tokens.
pub open spec fn program(t: Seq<TokV>, f: nat) -> Option<Seq<SStmt>>
    decreases f, t.len() + 1, 0int,
{
    proof {
        lemma_skip_nl(t, 0);
    }
    let (ss, j) = top_items(t, skip_nl(t, 0), seq![], f);
    if j == t.len() {
        Some(ss)
    } else {
        None
    }
}

} // verus!
