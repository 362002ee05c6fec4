//! The parser: tokens to a syntax tree, following the grammar of
//! [`crate::grammar`] exactly.

use std::ops::Range;
use vstd::prelude::*;
use vstd::utf8::encode_utf8;

use crate::ast::{
    lemma_node_target, lemma_stmt_assert, lemma_stmt_assignment, lemma_stmt_break,
    lemma_stmt_continue, lemma_stmt_expression, lemma_stmt_expression_view,
    lemma_stmt_field_assignment, lemma_stmt_for, lemma_stmt_function, lemma_stmt_if,
    lemma_stmt_if_let, lemma_stmt_import, lemma_stmt_index_assignment, lemma_stmt_let,
    lemma_stmt_obj_def, lemma_stmt_return, lemma_stmt_test, lemma_stmt_unless, lemma_stmt_val,
    lemma_stmt_while,
    expr_v, exprs_v, field_v, fields_v, lemma_expr_v, lemma_exprs_push, lemma_methods_push,
    lemma_named_push, lemma_node_block, lemma_node_call, lemma_node_ident, lemma_node_interp,
    lemma_node_obj, lemma_node_str, lemma_pairs_push, lemma_parts_push, lemma_parts_v, lemma_stmts_push, lemma_stmts_v, part_v,
    method_v, methods_v, named_v, node_v, opt_expr_v, opt_type_v, pairs_v, param_v, params_v,
    parts_v, paths_v, span_v, stmt_v, stmts_v, strs_v, type_v, BinOp, ExprV, Expression, MethodV,
    ObjField, ObjMethod, Param, SExpr, SStmt, Spanned, Statement, StringPart, TypeAnnotation, TypeV,
    UnaryOp, PartV,
};
use crate::errors::OrynError;
use crate::grammar::{
    and_expr, and_rest, args_rest, assignment, at, atom, binary, binding, block, block_items,
    call_args, close_bracket, close_curly, coalesce_rest, comparison, comparison_rest, dotted,
    dotted_rest, else_branch, end_of, expr, field_items, function, ident_at, ident_or_call, if_rest,
    interp_expr, tokens_of, item_fields, item_methods, item_uses, keyword_stmt, list_items,
    map_items, method, not_expr, obj_def, obj_field, obj_fields, obj_item, obj_items,
    opt_annotation, opt_return, or_expr, or_rest, param, params, params_rest, path_of, postfix,
    postfix_rest, prefix, product, product_op, product_rest, program, program_stop, range_expr,
    region, relation_op, sat, scan_content, skip_nl, stmt, string_expr, sum, sum_op, sum_rest,
    lexeme_tok, tok_v, toks_v, top_items, ty, ty_base, utf8_len, ItemV, ScanState, Tok, TokV, if_let_rest,
    if_cond_rest, import_stmt, return_stmt, unless_stmt, while_stmt, for_stmt, test_stmt,
    assert_stmt,
};
use crate::lexer::{
    code_lexemes, code_shape, denotes, lemma_code_lexemes_shape, lemma_lexemes_shape, lex, lexemes,
    token_text, tokens_match, Lexeme, Token,
};
use crate::text::{chars_of, push_char, push_str};

verus! {

/// The tokens handed to the parser.
pub type Tokens = Vec<(Token, Range<usize>)>;

/// A number for each kind of token.
pub open spec fn kind_of(t: Token) -> u8 {
    match t {
        Token::Let => 0,
        Token::Val => 1,
        Token::Fn => 2,
        Token::Rn => 3,
        Token::Obj => 4,
        Token::Use => 5,
        Token::For => 6,
        Token::In => 7,
        Token::Pub => 8,
        Token::Mut => 9,
        Token::Import => 10,
        Token::Try => 11,
        Token::Nil => 12,
        Token::Test => 13,
        Token::Assert => 14,
        Token::True => 15,
        Token::False => 16,
        Token::Float(_) => 17,
        Token::Int(_) => 18,
        Token::String(_) => 19,
        Token::Equals => 20,
        Token::Plus => 21,
        Token::Minus => 22,
        Token::Multiply => 23,
        Token::Divide => 24,
        Token::EqualsEquals => 25,
        Token::NotEquals => 26,
        Token::Orelse => 27,
        Token::Question => 28,
        Token::Bang => 29,
        Token::LessThan => 30,
        Token::GreaterThan => 31,
        Token::LessThanEquals => 32,
        Token::GreaterThanEquals => 33,
        Token::And => 34,
        Token::Or => 35,
        Token::Not => 36,
        Token::If => 37,
        Token::Unless => 38,
        Token::Elif => 39,
        Token::Else => 40,
        Token::While => 41,
        Token::Break => 42,
        Token::Continue => 43,
        Token::DotDotEquals => 44,
        Token::DotDot => 45,
        Token::Dot => 46,
        Token::Colon => 47,
        Token::Arrow => 48,
        Token::Comma => 49,
        Token::LeftParen => 50,
        Token::RightParen => 51,
        Token::LeftCurly => 52,
        Token::RightCurly => 53,
        Token::LeftBracket => 54,
        Token::RightBracket => 55,
        Token::Newline => 56,
        Token::Ident(_) => 57,
        Token::Comment(_) => 58,
    }
}

/// A token without payload.
pub open spec fn plain(t: Token) -> bool {
    !(t is Float || t is Int || t is String || t is Ident || t is Comment)
}

fn kind(t: &Token) -> (r: u8)
    ensures
        r == kind_of(*t),
{
    match t {
        Token::Let => 0,
        Token::Val => 1,
        Token::Fn => 2,
        Token::Rn => 3,
        Token::Obj => 4,
        Token::Use => 5,
        Token::For => 6,
        Token::In => 7,
        Token::Pub => 8,
        Token::Mut => 9,
        Token::Import => 10,
        Token::Try => 11,
        Token::Nil => 12,
        Token::Test => 13,
        Token::Assert => 14,
        Token::True => 15,
        Token::False => 16,
        Token::Float(_) => 17,
        Token::Int(_) => 18,
        Token::String(_) => 19,
        Token::Equals => 20,
        Token::Plus => 21,
        Token::Minus => 22,
        Token::Multiply => 23,
        Token::Divide => 24,
        Token::EqualsEquals => 25,
        Token::NotEquals => 26,
        Token::Orelse => 27,
        Token::Question => 28,
        Token::Bang => 29,
        Token::LessThan => 30,
        Token::GreaterThan => 31,
        Token::LessThanEquals => 32,
        Token::GreaterThanEquals => 33,
        Token::And => 34,
        Token::Or => 35,
        Token::Not => 36,
        Token::If => 37,
        Token::Unless => 38,
        Token::Elif => 39,
        Token::Else => 40,
        Token::While => 41,
        Token::Break => 42,
        Token::Continue => 43,
        Token::DotDotEquals => 44,
        Token::DotDot => 45,
        Token::Dot => 46,
        Token::Colon => 47,
        Token::Arrow => 48,
        Token::Comma => 49,
        Token::LeftParen => 50,
        Token::RightParen => 51,
        Token::LeftCurly => 52,
        Token::RightCurly => 53,
        Token::LeftBracket => 54,
        Token::RightBracket => 55,
        Token::Newline => 56,
        Token::Ident(_) => 57,
        Token::Comment(_) => 58,
    }
}

proof fn lemma_kind(a: Token, k: Token)
    requires
        plain(k),
    ensures
        (kind_of(a) == kind_of(k)) == (tok_v(a) == Tok::Fixed(k)),
{
}

/// Token `i` is the payload-free token `k`.
fn at_x(toks: &Tokens, i: usize, k: Token) -> (r: bool)
    requires
        plain(k),
    ensures
        r == at(toks_v(toks@), i as int, k),
        r ==> i < toks.len(),
{
    if i < toks.len() {
        proof {
            lemma_kind(toks@[i as int].0, k);
        }
        kind(&toks[i].0) == kind(&k)
    } else {
        false
    }
}

fn ident_x(toks: &Tokens, i: usize) -> (r: Option<String>)
    ensures
        match r {
            Some(n) => ident_at(toks_v(toks@), i as int) == Some(n@),
            None => ident_at(toks_v(toks@), i as int) is None,
        },
        r is Some ==> i < toks.len(),
{
    if i < toks.len() {
        match &toks[i].0 {
            Token::Ident(n) => Some(n.clone()),
            _ => None,
        }
    } else {
        None
    }
}

/// The span from the start of token `i` to the end of token `j - 1`.
fn region_x(toks: &Tokens, i: usize, j: usize) -> (r: Range<usize>)
    requires
        i < j <= toks@.len(),
    ensures
        span_v(r) == region(toks_v(toks@), i as int, j as int),
{
    Range { start: toks[i].1.start, end: toks[j - 1].1.end }
}

fn skip_nl_x(toks: &Tokens, i: usize) -> (r: usize)
    ensures
        r == skip_nl(toks_v(toks@), i as int),
        i <= r,
        i <= toks@.len() ==> r <= toks@.len(),
{
    let mut k = i;
    while k < toks.len() && at_x(toks, k, Token::Newline)
        invariant
            i <= k,
            i <= toks@.len() ==> k <= toks@.len(),
            skip_nl(toks_v(toks@), i as int) == skip_nl(toks_v(toks@), k as int),
        decreases toks@.len() - k,
    {
        k += 1;
    }
    k
}

// ---------------------------------------------------------------------------
// Dotted names, types and parameters.
// ---------------------------------------------------------------------------

fn dotted_x(toks: &Tokens, i: usize) -> (r: Option<(Vec<String>, usize)>)
    ensures
        match r {
            Some((p, j)) => dotted(toks_v(toks@), i as int) == Some((strs_v(p@), j as int)),
            None => dotted(toks_v(toks@), i as int) is None,
        },
        r matches Some((_, j)) ==> i < j <= toks.len(),
{
    let ghost t = toks_v(toks@);
    let first = match ident_x(toks, i) {
        Some(n) => n,
        None => {
            return None;
        },
    };
    let mut path: Vec<String> = Vec::new();
    path.push(first);
    let mut k = i + 1;
    proof {
        assert(strs_v(path@) =~= seq![ident_at(t, i as int)->0]);
    }
    while at_x(toks, k, Token::Dot) && k + 1 < toks.len() && ident_x(toks, k + 1).is_some()
        invariant
            i < k <= toks@.len(),
            t == toks_v(toks@),
            dotted_rest(t, i + 1, seq![ident_at(t, i as int)->0]) == dotted_rest(
                t,
                k as int,
                strs_v(path@),
            ),
        decreases toks@.len() - k,
    {
        let n = ident_x(toks, k + 1).unwrap();
        proof {
            assert(strs_v(path@.push(n)) =~= strs_v(path@).push(n@));
        }
        path.push(n);
        k += 2;
    }
    proof {
        if k + 1 >= toks.len() {
            assert(ident_at(t, k + 1) is None);
        }
    }
    Some((path, k))
}

fn ty_x(toks: &Tokens, i: usize) -> (r: Option<(TypeAnnotation, usize)>)
    ensures
        match r {
            Some((x, j)) => ty(toks_v(toks@), i as int) == Some((type_v(x), j as int)),
            None => ty(toks_v(toks@), i as int) is None,
        },
        r matches Some((_, j)) ==> i < j <= toks.len(),
    decreases toks@.len() - i, 1int,
{
    if at_x(toks, i, Token::Bang) {
        match ty_base_x(toks, i + 1) {
            Some((b, j)) => Some((TypeAnnotation::ErrorUnion(Box::new(b)), j)),
            None => None,
        }
    } else {
        match ty_base_x(toks, i) {
            Some((b, j)) => if at_x(toks, j, Token::Question) {
                Some((TypeAnnotation::Nillable(Box::new(b)), j + 1))
            } else {
                Some((b, j))
            },
            None => None,
        }
    }
}

fn ty_base_x(toks: &Tokens, i: usize) -> (r: Option<(TypeAnnotation, usize)>)
    ensures
        match r {
            Some((x, j)) => ty_base(toks_v(toks@), i as int) == Some((type_v(x), j as int)),
            None => ty_base(toks_v(toks@), i as int) is None,
        },
        r matches Some((_, j)) ==> i < j <= toks.len(),
    decreases toks@.len() - i, 0int,
{
    if at_x(toks, i, Token::LeftBracket) {
        match ty_x(toks, i + 1) {
            Some((x, j)) => if at_x(toks, j, Token::RightBracket) {
                Some((TypeAnnotation::List(Box::new(x)), j + 1))
            } else {
                None
            },
            None => None,
        }
    } else if at_x(toks, i, Token::LeftCurly) {
        match ty_x(toks, i + 1) {
            Some((k, j)) => if i < j && at_x(toks, j, Token::Colon) {
                match ty_x(toks, j + 1) {
                    Some((v, m)) => if at_x(toks, m, Token::RightCurly) {
                        Some((TypeAnnotation::MapOf(Box::new(k), Box::new(v)), m + 1))
                    } else {
                        None
                    },
                    None => None,
                }
            } else {
                None
            },
            None => None,
        }
    } else if at_x(toks, i, Token::LeftParen) {
        match ty_x(toks, i + 1) {
            Some((x, j)) => if at_x(toks, j, Token::RightParen) {
                Some((x, j + 1))
            } else {
                None
            },
            None => None,
        }
    } else {
        match dotted_x(toks, i) {
            Some((p, j)) => Some((TypeAnnotation::Named(p), j)),
            None => None,
        }
    }
}

pub open spec fn opt_type_ok(r: (Option<TypeAnnotation>, usize), s: (Option<TypeV>, int)) -> bool {
    opt_type_v(r.0) == s.0 && r.1 as int == s.1
}

fn opt_annotation_x(toks: &Tokens, i: usize) -> (r: (Option<TypeAnnotation>, usize))
    ensures
        opt_type_ok(r, opt_annotation(toks_v(toks@), i as int)),
        i <= toks.len() ==> r.1 <= toks.len(),
        i <= r.1,
{
    if at_x(toks, i, Token::Colon) {
        match ty_x(toks, i + 1) {
            Some((x, j)) => (Some(x), j),
            None => (None, i),
        }
    } else {
        (None, i)
    }
}

fn opt_return_x(toks: &Tokens, i: usize) -> (r: (Option<TypeAnnotation>, usize))
    ensures
        opt_type_ok(r, opt_return(toks_v(toks@), i as int)),
        i <= toks.len() ==> r.1 <= toks.len(),
        i <= r.1,
{
    if at_x(toks, i, Token::Arrow) {
        match ty_x(toks, i + 1) {
            Some((x, j)) => (Some(x), j),
            None => (None, i),
        }
    } else {
        (None, i)
    }
}

fn param_x(toks: &Tokens, i: usize) -> (r: Option<(Param, usize)>)
    ensures
        match r {
            Some((p, j)) => param(toks_v(toks@), i as int) == Some((param_v(p), j as int)),
            None => param(toks_v(toks@), i as int) is None,
        },
        r matches Some((_, j)) ==> i < j <= toks.len(),
{
    let m = at_x(toks, i, Token::Mut);
    let k = if m {
        i + 1
    } else {
        i
    };
    match ident_x(toks, k) {
        Some(n) => {
            let (a, j) = opt_annotation_x(toks, k + 1);
            Some((Param { name: n, type_ann: a, is_mut: m }, j))
        },
        None => None,
    }
}

fn params_x(toks: &Tokens, i: usize) -> (r: Option<(Vec<Param>, usize)>)
    ensures
        match r {
            Some((ps, j)) => params(toks_v(toks@), i as int) == Some((params_v(ps@), j as int)),
            None => params(toks_v(toks@), i as int) is None,
        },
        r matches Some((_, j)) ==> i < j <= toks.len(),
{
    let ghost t = toks_v(toks@);
    if !at_x(toks, i, Token::LeftParen) {
        return None;
    }
    let mut ps: Vec<Param> = Vec::new();
    let (first, mut k) = match param_x(toks, i + 1) {
        Some(pj) => pj,
        None => {
            if at_x(toks, i + 1, Token::RightParen) {
                proof {
                    assert(params_v(ps@) =~= seq![]);
                }
                return Some((ps, i + 2));
            }
            return None;
        },
    };
    ps.push(first);
    proof {
        assert(params_v(ps@) =~= seq![param_v(first)]);
    }
    loop
        invariant
            t == toks_v(toks@),
            i < k <= toks.len(),
            params(t, i as int) == params_rest(t, k as int, params_v(ps@)),
        decreases toks@.len() - k,
    {
        if at_x(toks, k, Token::Comma) {
            match param_x(toks, k + 1) {
                Some((p, j)) => {
                    if k < j && j <= toks.len() {
                        proof {
                            assert(params_v(ps@.push(p)) =~= params_v(ps@).push(param_v(p)));
                        }
                        ps.push(p);
                        k = j;
                        continue;
                    }
                },
                None => {},
            }
        }
        if at_x(toks, k, Token::RightParen) {
            return Some((ps, k + 1));
        }
        return None;
    }
}


// ---------------------------------------------------------------------------
// Expressions.
// ---------------------------------------------------------------------------

pub open spec fn expr_ok(r: Option<(Spanned<Expression>, usize)>, s: Option<(SExpr, int)>) -> bool {
    match r {
        Some((e, j)) => s == Some((expr_v(e), j as int)),
        None => s is None,
    }
}

fn relation_op_x(toks: &Tokens, i: usize) -> (r: Option<BinOp>)
    ensures
        r == relation_op(toks_v(toks@), i as int),
        r is Some ==> i < toks.len(),
{
    if at_x(toks, i, Token::EqualsEquals) {
        Some(BinOp::Equals)
    } else if at_x(toks, i, Token::NotEquals) {
        Some(BinOp::NotEquals)
    } else if at_x(toks, i, Token::LessThan) {
        Some(BinOp::LessThan)
    } else if at_x(toks, i, Token::GreaterThan) {
        Some(BinOp::GreaterThan)
    } else if at_x(toks, i, Token::LessThanEquals) {
        Some(BinOp::LessThanEquals)
    } else if at_x(toks, i, Token::GreaterThanEquals) {
        Some(BinOp::GreaterThanEquals)
    } else {
        None
    }
}

fn sum_op_x(toks: &Tokens, i: usize) -> (r: Option<BinOp>)
    ensures
        r == sum_op(toks_v(toks@), i as int),
        r is Some ==> i < toks.len(),
{
    if at_x(toks, i, Token::Plus) {
        Some(BinOp::Add)
    } else if at_x(toks, i, Token::Minus) {
        Some(BinOp::Sub)
    } else {
        None
    }
}

fn product_op_x(toks: &Tokens, i: usize) -> (r: Option<BinOp>)
    ensures
        r == product_op(toks_v(toks@), i as int),
        r is Some ==> i < toks.len(),
{
    if at_x(toks, i, Token::Multiply) {
        Some(BinOp::Mul)
    } else if at_x(toks, i, Token::Divide) {
        Some(BinOp::Div)
    } else {
        None
    }
}

fn binary_x(op: BinOp, l: Spanned<Expression>, r: Spanned<Expression>) -> (e: Spanned<Expression>)
    ensures
        expr_v(e) == binary(op, expr_v(l), expr_v(r)),
{
    proof {
        lemma_expr_v(l);
        lemma_expr_v(r);
    }
    let span = Range { start: l.span.start, end: r.span.end };
    let e = Spanned { node: Expression::BinaryOp { op, left: Box::new(l), right: Box::new(r) }, span };
    proof {
        lemma_expr_v(e);
    }
    e
}

fn coalesce_x(l: Spanned<Expression>, r: Spanned<Expression>) -> (e: Spanned<Expression>)
    ensures
        expr_v(e) == (SExpr {
            node: ExprV::Coalesce(Box::new(expr_v(l)), Box::new(expr_v(r))),
            span: (expr_v(l).span.0, expr_v(r).span.1),
        }),
{
    proof {
        lemma_expr_v(l);
        lemma_expr_v(r);
    }
    let span = Range { start: l.span.start, end: r.span.end };
    let e = Spanned { node: Expression::Coalesce { left: Box::new(l), right: Box::new(r) }, span };
    proof {
        lemma_expr_v(e);
    }
    e
}

fn range_node_x(a: Spanned<Expression>, b: Spanned<Expression>, inclusive: bool) -> (e: Spanned<
    Expression,
>)
    ensures
        expr_v(e) == (SExpr {
            node: ExprV::Range(Box::new(expr_v(a)), Box::new(expr_v(b)), inclusive),
            span: (expr_v(a).span.0, expr_v(b).span.1),
        }),
{
    proof {
        lemma_expr_v(a);
        lemma_expr_v(b);
    }
    let span = Range { start: a.span.start, end: b.span.end };
    let e = Spanned {
        node: Expression::Range { start: Box::new(a), end: Box::new(b), inclusive },
        span,
    };
    proof {
        lemma_expr_v(e);
    }
    e
}

/// A prefix operator applied to `x`, keeping its span: `kind` 0 is
/// `not`, 1 is `-`, 2 is `try`, 3 is `!`.
fn prefix_node_x(kind: u8, x: Spanned<Expression>) -> (e: Spanned<Expression>)
    requires
        kind < 4,
    ensures
        expr_v(e) == (SExpr {
            node: if kind == 0 {
                ExprV::Unary(UnaryOp::Not, Box::new(expr_v(x)))
            } else if kind == 1 {
                ExprV::Unary(UnaryOp::Negate, Box::new(expr_v(x)))
            } else if kind == 2 {
                ExprV::Try(Box::new(expr_v(x)))
            } else {
                ExprV::UnwrapError(Box::new(expr_v(x)))
            },
            span: expr_v(x).span,
        }),
{
    proof {
        lemma_expr_v(x);
    }
    let span = Range { start: x.span.start, end: x.span.end };
    let node = if kind == 0 {
        Expression::UnaryOp { op: UnaryOp::Not, expr: Box::new(x) }
    } else if kind == 1 {
        Expression::UnaryOp { op: UnaryOp::Negate, expr: Box::new(x) }
    } else if kind == 2 {
        Expression::Try(Box::new(x))
    } else {
        Expression::UnwrapError(Box::new(x))
    };
    let e = Spanned { node, span };
    proof {
        lemma_expr_v(e);
    }
    e
}

/// A postfix step on `o`, keeping its span: `kind` 0 is a method call,
/// 1 a field access.
fn member_x(kind: u8, o: Spanned<Expression>, name: String, args: Vec<Spanned<Expression>>) -> (e:
    Spanned<Expression>)
    requires
        kind < 2,
    ensures
        expr_v(e) == (SExpr {
            node: if kind == 0 {
                ExprV::MethodCall(Box::new(expr_v(o)), name@, exprs_v(args@))
            } else {
                ExprV::FieldAccess(Box::new(expr_v(o)), name@)
            },
            span: expr_v(o).span,
        }),
{
    proof {
        lemma_expr_v(o);
    }
    let span = Range { start: o.span.start, end: o.span.end };
    let node = if kind == 0 {
        Expression::MethodCall { object: Box::new(o), method: name, args }
    } else {
        Expression::FieldAccess { object: Box::new(o), field: name }
    };
    let e = Spanned { node, span };
    proof {
        lemma_expr_v(e);
    }
    e
}

fn index_x(o: Spanned<Expression>, x: Spanned<Expression>) -> (e: Spanned<Expression>)
    ensures
        expr_v(e) == (SExpr {
            node: ExprV::Index(Box::new(expr_v(o)), Box::new(expr_v(x))),
            span: expr_v(o).span,
        }),
{
    proof {
        lemma_expr_v(o);
        lemma_expr_v(x);
    }
    let span = Range { start: o.span.start, end: o.span.end };
    let e = Spanned { node: Expression::Index { object: Box::new(o), index: Box::new(x) }, span };
    proof {
        lemma_expr_v(e);
    }
    e
}

/// `Type { fields }` where the type path is the one `o` spells, then
/// `name`; the span is that of `o`.
fn obj_literal_x(o: Spanned<Expression>, name: String, fields: Vec<(String, Spanned<Expression>)>) -> (e:
    Spanned<Expression>)
    ensures
        expr_v(e) == (SExpr {
            node: ExprV::ObjLiteral(path_of(expr_v(o).node).push(name@), named_v(fields@)),
            span: expr_v(o).span,
        }),
{
    proof {
        lemma_expr_v(o);
    }
    let mut path: Vec<String> = Vec::new();
    collect_path(&o.node, &mut path);
    proof {
        assert(strs_v(path@.push(name)) =~= strs_v(path@).push(name@));
    }
    path.push(name);
    let span = Range { start: o.span.start, end: o.span.end };
    let e = Spanned { node: Expression::ObjLiteral { type_path: path, fields }, span };
    proof {
        lemma_expr_v(e);
    }
    e
}

#[verifier::spinoff_prover]
fn expr_x(toks: &Tokens, i: usize, f: usize) -> (r: Option<(Spanned<Expression>, usize)>)
    ensures
        expr_ok(r, expr(toks_v(toks@), i as int, f as nat)),
        r matches Some((_, j)) ==> j <= toks.len(),
    decreases f, toks@.len() - i, 20int,
{
    let ghost t = toks_v(toks@);
    let (mut cur, mut k) = match or_x(toks, i, f) {
        Some(p) => p,
        None => {
            return None;
        },
    };
    if !(i < k && k <= toks.len()) {
        return None;
    }
    loop
        invariant
            t == toks_v(toks@),
            i < k <= toks.len(),
            expr(t, i as int, f as nat) == Some(coalesce_rest(t, k as int, expr_v(cur), f as nat)),
        decreases toks@.len() - k,
    {
        if at_x(toks, k, Token::Orelse) {
            match or_x(toks, k + 1, f) {
                Some((r, j)) => {
                    if k < j && j <= toks.len() {
                        cur = coalesce_x(cur, r);
                        k = j;
                        continue ;
                    }
                },
                None => {},
            }
        }
        return Some((cur, k));
    }
}

#[verifier::spinoff_prover]
fn or_x(toks: &Tokens, i: usize, f: usize) -> (r: Option<(Spanned<Expression>, usize)>)
    ensures
        expr_ok(r, or_expr(toks_v(toks@), i as int, f as nat)),
        r matches Some((_, j)) ==> j <= toks.len(),
    decreases f, toks@.len() - i, 19int,
{
    let ghost t = toks_v(toks@);
    let (mut cur, mut k) = match and_x(toks, i, f) {
        Some(p) => p,
        None => {
            return None;
        },
    };
    if !(i < k && k <= toks.len()) {
        return None;
    }
    loop
        invariant
            t == toks_v(toks@),
            i < k <= toks.len(),
            or_expr(t, i as int, f as nat) == Some(or_rest(t, k as int, expr_v(cur), f as nat)),
        decreases toks@.len() - k,
    {
        if at_x(toks, k, Token::Or) {
            match and_x(toks, k + 1, f) {
                Some((r, j)) => {
                    if k < j && j <= toks.len() {
                        cur = binary_x(BinOp::Or, cur, r);
                        k = j;
                        continue ;
                    }
                },
                None => {},
            }
        }
        return Some((cur, k));
    }
}

#[verifier::spinoff_prover]
fn and_x(toks: &Tokens, i: usize, f: usize) -> (r: Option<(Spanned<Expression>, usize)>)
    ensures
        expr_ok(r, and_expr(toks_v(toks@), i as int, f as nat)),
        r matches Some((_, j)) ==> j <= toks.len(),
    decreases f, toks@.len() - i, 18int,
{
    let ghost t = toks_v(toks@);
    let (mut cur, mut k) = match not_x(toks, i, f) {
        Some(p) => p,
        None => {
            return None;
        },
    };
    if !(i < k && k <= toks.len()) {
        return None;
    }
    loop
        invariant
            t == toks_v(toks@),
            i < k <= toks.len(),
            and_expr(t, i as int, f as nat) == Some(and_rest(t, k as int, expr_v(cur), f as nat)),
        decreases toks@.len() - k,
    {
        if at_x(toks, k, Token::And) {
            match not_x(toks, k + 1, f) {
                Some((r, j)) => {
                    if k < j && j <= toks.len() {
                        cur = binary_x(BinOp::And, cur, r);
                        k = j;
                        continue ;
                    }
                },
                None => {},
            }
        }
        return Some((cur, k));
    }
}

#[verifier::spinoff_prover]
fn not_x(toks: &Tokens, i: usize, f: usize) -> (r: Option<(Spanned<Expression>, usize)>)
    ensures
        expr_ok(r, not_expr(toks_v(toks@), i as int, f as nat)),
        r matches Some((_, j)) ==> j <= toks.len(),
    decreases f, toks@.len() - i, 17int,
{
    if at_x(toks, i, Token::Not) {
        match not_x(toks, i + 1, f) {
            Some((e, j)) => Some((prefix_node_x(0, e), j)),
            None => None,
        }
    } else {
        comparison_x(toks, i, f)
    }
}

#[verifier::spinoff_prover]
fn comparison_x(toks: &Tokens, i: usize, f: usize) -> (r: Option<(Spanned<Expression>, usize)>)
    ensures
        expr_ok(r, comparison(toks_v(toks@), i as int, f as nat)),
        r matches Some((_, j)) ==> j <= toks.len(),
    decreases f, toks@.len() - i, 16int,
{
    let ghost t = toks_v(toks@);
    let (mut cur, mut k) = match range_x(toks, i, f) {
        Some(p) => p,
        None => {
            return None;
        },
    };
    if !(i < k && k <= toks.len()) {
        return None;
    }
    loop
        invariant
            t == toks_v(toks@),
            i < k <= toks.len(),
            comparison(t, i as int, f as nat) == Some(
                comparison_rest(t, k as int, expr_v(cur), f as nat),
            ),
        decreases toks@.len() - k,
    {
        match relation_op_x(toks, k) {
            Some(op) => {
                match range_x(toks, k + 1, f) {
                    Some((r, j)) => {
                        if k < j && j <= toks.len() {
                            cur = binary_x(op, cur, r);
                            k = j;
                            continue ;
                        }
                    },
                    None => {},
                }
            },
            None => {},
        }
        return Some((cur, k));
    }
}

#[verifier::rlimit(50)]
#[verifier::spinoff_prover]
fn range_x(toks: &Tokens, i: usize, f: usize) -> (r: Option<(Spanned<Expression>, usize)>)
    ensures
        expr_ok(r, range_expr(toks_v(toks@), i as int, f as nat)),
        r matches Some((_, j)) ==> j <= toks.len(),
    decreases f, toks@.len() - i, 15int,
{
    match sum_x(toks, i, f) {
        Some((a, j)) => {
            let inclusive = at_x(toks, j, Token::DotDotEquals);
            if (inclusive || at_x(toks, j, Token::DotDot)) && i < j {
                match sum_x(toks, j + 1, f) {
                    Some((b, k)) => Some((range_node_x(a, b, inclusive), k)),
                    None => Some((a, j)),
                }
            } else {
                Some((a, j))
            }
        },
        None => None,
    }
}

#[verifier::spinoff_prover]
fn sum_x(toks: &Tokens, i: usize, f: usize) -> (r: Option<(Spanned<Expression>, usize)>)
    ensures
        expr_ok(r, sum(toks_v(toks@), i as int, f as nat)),
        r matches Some((_, j)) ==> j <= toks.len(),
    decreases f, toks@.len() - i, 14int,
{
    let ghost t = toks_v(toks@);
    let (mut cur, mut k) = match product_x(toks, i, f) {
        Some(p) => p,
        None => {
            return None;
        },
    };
    if !(i < k && k <= toks.len()) {
        return None;
    }
    loop
        invariant
            t == toks_v(toks@),
            i < k <= toks.len(),
            sum(t, i as int, f as nat) == Some(sum_rest(t, k as int, expr_v(cur), f as nat)),
        decreases toks@.len() - k,
    {
        match sum_op_x(toks, k) {
            Some(op) => {
                match product_x(toks, k + 1, f) {
                    Some((r, j)) => {
                        if k < j && j <= toks.len() {
                            cur = binary_x(op, cur, r);
                            k = j;
                            continue ;
                        }
                    },
                    None => {},
                }
            },
            None => {},
        }
        return Some((cur, k));
    }
}

#[verifier::spinoff_prover]
fn product_x(toks: &Tokens, i: usize, f: usize) -> (r: Option<(Spanned<Expression>, usize)>)
    ensures
        expr_ok(r, product(toks_v(toks@), i as int, f as nat)),
        r matches Some((_, j)) ==> j <= toks.len(),
    decreases f, toks@.len() - i, 13int,
{
    let ghost t = toks_v(toks@);
    let (mut cur, mut k) = match prefix_x(toks, i, f) {
        Some(p) => p,
        None => {
            return None;
        },
    };
    if !(i < k && k <= toks.len()) {
        return None;
    }
    loop
        invariant
            t == toks_v(toks@),
            i < k <= toks.len(),
            product(t, i as int, f as nat) == Some(product_rest(t, k as int, expr_v(cur), f as nat)),
        decreases toks@.len() - k,
    {
        match product_op_x(toks, k) {
            Some(op) => {
                match prefix_x(toks, k + 1, f) {
                    Some((r, j)) => {
                        if k < j && j <= toks.len() {
                            cur = binary_x(op, cur, r);
                            k = j;
                            continue ;
                        }
                    },
                    None => {},
                }
            },
            None => {},
        }
        return Some((cur, k));
    }
}

#[verifier::spinoff_prover]
fn prefix_x(toks: &Tokens, i: usize, f: usize) -> (r: Option<(Spanned<Expression>, usize)>)
    ensures
        expr_ok(r, prefix(toks_v(toks@), i as int, f as nat)),
        r matches Some((_, j)) ==> j <= toks.len(),
    decreases f, toks@.len() - i, 12int,
{
    let minus = at_x(toks, i, Token::Minus);
    let try_ = at_x(toks, i, Token::Try);
    if minus || try_ || at_x(toks, i, Token::Bang) {
        match prefix_x(toks, i + 1, f) {
            Some((e, j)) => {
                let kind: u8 = if minus {
                    1
                } else if try_ {
                    2
                } else {
                    3
                };
                Some((prefix_node_x(kind, e), j))
            },
            None => None,
        }
    } else {
        postfix_x(toks, i, f)
    }
}

/// Appends the dotted path a chain of field accesses spells.
fn collect_path(e: &Expression, out: &mut Vec<String>)
    ensures
        strs_v(final(out)@) == strs_v(old(out)@) + path_of(node_v(*e)),
    decreases e,
{
    let ghost old_out = out@;
    proof {
        lemma_expr_v(Spanned { node: *e, span: Range { start: 0, end: 0 } });
    }
    match e {
        Expression::Ident(n) => {
            out.push(n.clone());
            proof {
                assert(strs_v(out@) =~= strs_v(old_out) + seq![n@]);
            }
        },
        Expression::FieldAccess { object, field } => {
            collect_path(&object.node, out);
            let ghost mid = out@;
            out.push(field.clone());
            proof {
                lemma_expr_v(**object);
                assert(strs_v(out@) =~= strs_v(mid).push(field@));
            }
        },
        _ => {
            proof {
                assert(strs_v(out@) =~= strs_v(old_out) + seq![]);
            }
        },
    }
}

#[verifier::rlimit(50)]
#[verifier::spinoff_prover]
fn postfix_x(toks: &Tokens, i: usize, f: usize) -> (r: Option<(Spanned<Expression>, usize)>)
    ensures
        expr_ok(r, postfix(toks_v(toks@), i as int, f as nat)),
        r matches Some((_, j)) ==> j <= toks.len(),
    decreases f, toks@.len() - i, 11int,
{
    let ghost t = toks_v(toks@);
    let (mut cur, mut k) = match atom_x(toks, i, f) {
        Some(p) => p,
        None => {
            return None;
        },
    };
    if !(i < k && k <= toks.len()) {
        return None;
    }
    loop
        invariant
            t == toks_v(toks@),
            i < k <= toks.len(),
            postfix(t, i as int, f as nat) == Some(postfix_rest(t, k as int, expr_v(cur), f as nat)),
        decreases toks@.len() - k,
    {
        if at_x(toks, k, Token::Dot) && k + 1 < toks.len() && ident_x(toks, k + 1).is_some() {
            let n = ident_x(toks, k + 1).unwrap();
            match call_args_x(toks, k + 2, f) {
                Some((args, m)) => {
                    if k < m && m <= toks.len() {
                        cur = member_x(0, cur, n, args);
                        k = m;
                        continue ;
                    }
                    return Some((cur, k));
                },
                None => {},
            }
            match obj_fields_x(toks, k + 2, f) {
                Some((fields, m)) => {
                    if k < m && m <= toks.len() {
                        cur = obj_literal_x(cur, n, fields);
                        k = m;
                        continue ;
                    }
                    return Some((cur, k));
                },
                None => {},
            }
            cur = member_x(1, cur, n, Vec::new());
            k = k + 2;
            continue ;
        }
        if at_x(toks, k, Token::LeftBracket) {
            match expr_x(toks, k + 1, f) {
                Some((x, j)) => {
                    if k < j && at_x(toks, j, Token::RightBracket) {
                        cur = index_x(cur, x);
                        k = j + 1;
                        continue ;
                    }
                },
                None => {},
            }
        }
        return Some((cur, k));
    }
}


#[verifier::rlimit(50)]
#[verifier::spinoff_prover]
fn call_args_x(toks: &Tokens, i: usize, f: usize) -> (r: Option<(Vec<Spanned<Expression>>, usize)>)
    ensures
        match r {
            Some((xs, j)) => call_args(toks_v(toks@), i as int, f as nat) == Some(
                (exprs_v(xs@), j as int),
            ),
            None => call_args(toks_v(toks@), i as int, f as nat) is None,
        },
        r matches Some((_, j)) ==> j <= toks.len(),
    decreases f, toks@.len() - i, 5int,
{
    let ghost t = toks_v(toks@);
    if !at_x(toks, i, Token::LeftParen) {
        return None;
    }
    let mut xs: Vec<Spanned<Expression>> = Vec::new();
    let mut k = match expr_x(toks, i + 1, f) {
        Some((e, j)) => {
            if !(i < j && j <= toks.len()) {
                return None;
            }
            proof {
                lemma_exprs_push(xs@, e);
            }
            xs.push(e);
            j
        },
        None => {
            if at_x(toks, i + 1, Token::RightParen) {
                proof {
                    assert(exprs_v(xs@) =~= seq![]);
                }
                return Some((xs, i + 2));
            }
            return None;
        },
    };
    loop
        invariant
            t == toks_v(toks@),
            i < k <= toks.len(),
            call_args(t, i as int, f as nat) == args_rest(t, k as int, exprs_v(xs@), f as nat),
        decreases toks@.len() - k,
    {
        if at_x(toks, k, Token::Comma) {
            match expr_x(toks, k + 1, f) {
                Some((e, j)) => {
                    if k < j && j <= toks.len() {
                        proof {
                            lemma_exprs_push(xs@, e);
                        }
                        xs.push(e);
                        k = j;
                        continue ;
                    }
                },
                None => {},
            }
        }
        if at_x(toks, k, Token::RightParen) {
            return Some((xs, k + 1));
        }
        return None;
    }
}

pub open spec fn close_ok(r: Option<usize>, s: Option<int>) -> bool {
    match r {
        Some(k) => s == Some(k as int),
        None => s is None,
    }
}

fn close_x(toks: &Tokens, i: usize, k: Token) -> (r: Option<usize>)
    requires
        k == Token::RightCurly || k == Token::RightBracket,
    ensures
        k == Token::RightCurly ==> close_ok(r, close_curly(toks_v(toks@), i as int)),
        k == Token::RightBracket ==> close_ok(r, close_bracket(toks_v(toks@), i as int)),
        r matches Some(j) ==> i < j <= toks.len(),
{
    let m = skip_nl_x(toks, i);
    if at_x(toks, m, k) {
        Some(m + 1)
    } else {
        None
    }
}

#[verifier::rlimit(50)]
#[verifier::spinoff_prover]
fn obj_fields_x(toks: &Tokens, i: usize, f: usize) -> (r: Option<
    (Vec<(String, Spanned<Expression>)>, usize),
>)
    ensures
        match r {
            Some((xs, j)) => obj_fields(toks_v(toks@), i as int, f as nat) == Some(
                (named_v(xs@), j as int),
            ),
            None => obj_fields(toks_v(toks@), i as int, f as nat) is None,
        },
        r matches Some((_, j)) ==> i < j <= toks.len(),
    decreases f, toks@.len() - i, 5int,
{
    let ghost t = toks_v(toks@);
    if !at_x(toks, i, Token::LeftCurly) {
        return None;
    }
    let mut xs: Vec<(String, Spanned<Expression>)> = Vec::new();
    let mut k = skip_nl_x(toks, i + 1);
    proof {
        lemma_named_push(xs@, arbitrary());
    }
    loop
        invariant
            t == toks_v(toks@),
            i < k <= toks.len(),
            obj_fields(t, i as int, f as nat) == field_items(t, k as int, named_v(xs@), f as nat),
        decreases toks@.len() - k,
    {
        if ident_x(toks, k).is_some() && at_x(toks, k + 1, Token::Colon) {
            match expr_x(toks, k + 2, f) {
                Some((e, j)) => {
                    if k < j && j <= toks.len() {
                        let n = ident_x(toks, k).unwrap();
                        proof {
                            lemma_named_push(xs@, (n, e));
                        }
                        xs.push((n, e));
                        if at_x(toks, j, Token::Comma) {
                            k = skip_nl_x(toks, j + 1);
                            continue ;
                        }
                        return match close_x(toks, j, Token::RightCurly) {
                            Some(m) => Some((xs, m)),
                            None => None,
                        };
                    }
                },
                None => {},
            }
        }
        return match close_x(toks, k, Token::RightCurly) {
            Some(m) => Some((xs, m)),
            None => None,
        };
    }
}

#[verifier::rlimit(50)]
#[verifier::spinoff_prover]
fn list_items_x(toks: &Tokens, i: usize, f: usize) -> (r: Option<(Vec<Spanned<Expression>>, usize)>)
    ensures
        match r {
            Some((xs, j)) => list_items(toks_v(toks@), i as int, seq![], f as nat) == Some(
                (exprs_v(xs@), j as int),
            ),
            None => list_items(toks_v(toks@), i as int, seq![], f as nat) is None,
        },
        r matches Some((_, j)) ==> j <= toks.len(),
    decreases f, toks@.len() - i, 21int,
{
    let ghost t = toks_v(toks@);
    let mut xs: Vec<Spanned<Expression>> = Vec::new();
    let mut k = i;
    proof {
        lemma_exprs_push(xs@, arbitrary());
    }
    loop
        invariant
            t == toks_v(toks@),
            i <= k,
            i < k ==> k <= toks.len(),
            list_items(t, i as int, seq![], f as nat) == list_items(t, k as int, exprs_v(xs@), f as nat),
        decreases toks@.len() + 1 - k,
    {
        match expr_x(toks, k, f) {
            Some((e, j)) => {
                if k < j && j <= toks.len() {
                    proof {
                        lemma_exprs_push(xs@, e);
                    }
                    xs.push(e);
                    if at_x(toks, j, Token::Comma) {
                        k = skip_nl_x(toks, j + 1);
                        continue ;
                    }
                    return match close_x(toks, j, Token::RightBracket) {
                        Some(m) => Some((xs, m)),
                        None => None,
                    };
                }
            },
            None => {},
        }
        return match close_x(toks, k, Token::RightBracket) {
            Some(m) => Some((xs, m)),
            None => None,
        };
    }
}

#[verifier::rlimit(50)]
#[verifier::spinoff_prover]
fn map_items_x(toks: &Tokens, i: usize, f: usize) -> (r: Option<
    (Vec<(Spanned<Expression>, Spanned<Expression>)>, usize),
>)
    ensures
        match r {
            Some((xs, j)) => map_items(toks_v(toks@), i as int, seq![], f as nat) == Some(
                (pairs_v(xs@), j as int),
            ),
            None => map_items(toks_v(toks@), i as int, seq![], f as nat) is None,
        },
        r matches Some((_, j)) ==> j <= toks.len(),
    decreases f, toks@.len() - i, 21int,
{
    let ghost t = toks_v(toks@);
    let mut xs: Vec<(Spanned<Expression>, Spanned<Expression>)> = Vec::new();
    let mut k = i;
    proof {
        lemma_pairs_push(xs@, arbitrary());
    }
    loop
        invariant
            t == toks_v(toks@),
            i <= k,
            i < k ==> k <= toks.len(),
            map_items(t, i as int, seq![], f as nat) == map_items(t, k as int, pairs_v(xs@), f as nat),
        decreases toks@.len() + 1 - k,
    {
        match expr_x(toks, k, f) {
            Some((key, j)) => {
                if k < j && at_x(toks, j, Token::Colon) {
                    match expr_x(toks, j + 1, f) {
                        Some((v, m)) => {
                            if j < m && m <= toks.len() {
                                proof {
                                    lemma_pairs_push(xs@, (key, v));
                                }
                                xs.push((key, v));
                                if at_x(toks, m, Token::Comma) {
                                    k = skip_nl_x(toks, m + 1);
                                    continue ;
                                }
                                return match close_x(toks, m, Token::RightCurly) {
                                    Some(e) => Some((xs, e)),
                                    None => None,
                                };
                            }
                        },
                        None => {},
                    }
                }
            },
            None => {},
        }
        return match close_x(toks, k, Token::RightCurly) {
            Some(e) => Some((xs, e)),
            None => None,
        };
    }
}

pub open spec fn node_ok(r: Option<(Expression, usize)>, s: Option<(ExprV, int)>) -> bool {
    match r {
        Some((e, j)) => s == Some((node_v(e), j as int)),
        None => s is None,
    }
}

#[verifier::rlimit(80)]
#[verifier::spinoff_prover]
fn ident_or_call_x(toks: &Tokens, i: usize, f: usize) -> (r: Option<(Expression, usize)>)
    ensures
        node_ok(r, ident_or_call(toks_v(toks@), i as int, f as nat)),
        r matches Some((_, j)) ==> i < j <= toks.len(),
    decreases f, toks@.len() - i, 9int,
{
    let ghost t = toks_v(toks@);
    let n = match ident_x(toks, i) {
        Some(n) => n,
        None => {
            return None;
        },
    };
    let ghost sargs = call_args(t, i + 1, f as nat);
    let (args, j) = match call_args_x(toks, i + 1, f) {
        Some((a, e)) => if i < e && e <= toks.len() {
            (Some(a), e)
        } else {
            (None, i + 1)
        },
        None => (None, i + 1),
    };
    let ghost sfields = obj_fields(t, j as int, f as nat);
    let (fields, k) = match obj_fields_x(toks, j, f) {
        Some((fs, e)) => if j < e && e <= toks.len() {
            (Some(fs), e)
        } else {
            (None, j)
        },
        None => (None, j),
    };
    proof {
        assert(args is Some <==> (sargs is Some && i < end_of(sargs) <= t.len()));
        assert(fields is Some <==> (sfields is Some && j < end_of(sfields) <= t.len()));
    }
    match args {
        Some(a) => {
            proof {
                lemma_node_call(n, a);
            }
            Some((Expression::Call { name: n, args: a }, k))
        },
        None => match fields {
            Some(fs) => {
                let mut path: Vec<String> = Vec::new();
                path.push(n);
                proof {
                    assert(strs_v(path@) =~= seq![n@]);
                    lemma_node_obj(path, fs);
                }
                Some((Expression::ObjLiteral { type_path: path, fields: fs }, k))
            },
            None => {
                proof {
                    lemma_node_ident(n);
                }
                Some((Expression::Ident(n), k))
            },
        },
    }
}

#[verifier::rlimit(50)]
#[verifier::spinoff_prover]
fn atom_x(toks: &Tokens, i: usize, f: usize) -> (r: Option<(Spanned<Expression>, usize)>)
    ensures
        expr_ok(r, atom(toks_v(toks@), i as int, f as nat)),
        r matches Some((_, j)) ==> j <= toks.len(),
    decreases f, toks@.len() - i, 10int,
{
    let ghost t = toks_v(toks@);
    if i >= toks.len() {
        return None;
    }
    let node_end: Option<(Expression, usize)> = match &toks[i].0 {
        Token::True => Some((Expression::True, i + 1)),
        Token::False => Some((Expression::False, i + 1)),
        Token::Nil => Some((Expression::Nil, i + 1)),
        Token::Float(x) => Some((Expression::Float(x.clone()), i + 1)),
        Token::Int(n) => Some((Expression::Int(*n), i + 1)),
        Token::String(s) => {
            let base = toks[i].1.start.saturating_add(1);
            Some((string_expr_x(s, base, f), i + 1))
        },
        Token::Ident(_) => ident_or_call_x(toks, i, f),
        Token::LeftParen => match expr_x(toks, i + 1, f) {
            Some((e, j)) => if i < j && at_x(toks, j, Token::RightParen) {
                proof {
                    lemma_expr_v(e);
                }
                Some((e.node, j + 1))
            } else {
                None
            },
            None => None,
        },
        Token::LeftBracket => {
            let k = skip_nl_x(toks, i + 1);
            match list_items_x(toks, k, f) {
                Some((xs, j)) => Some((Expression::ListLiteral(xs), j)),
                None => None,
            }
        },
        Token::LeftCurly => {
            let k = skip_nl_x(toks, i + 1);
            match map_items_x(toks, k, f) {
                Some((xs, j)) => Some((Expression::MapLiteral(xs), j)),
                None => None,
            }
        },
        _ => None,
    };
    match node_end {
        Some((node, j)) => if i < j && j <= toks.len() {
            let span = region_x(toks, i, j);
            let e = Spanned { node, span };
            proof {
                lemma_expr_v(e);
            }
            Some((e, j))
        } else {
            None
        },
        None => None,
    }
}


// ---------------------------------------------------------------------------
// Statements.
// ---------------------------------------------------------------------------

pub open spec fn stmt_ok(r: Option<(Spanned<Statement>, usize)>, s: Option<(SStmt, int)>) -> bool {
    match r {
        Some((x, j)) => s == Some((stmt_v(x), j as int)),
        None => s is None,
    }
}

#[verifier::spinoff_prover]
fn block_x(toks: &Tokens, i: usize, f: usize) -> (r: Option<(Spanned<Expression>, usize)>)
    ensures
        expr_ok(r, block(toks_v(toks@), i as int, f as nat)),
        r matches Some((_, j)) ==> i < j <= toks.len(),
    decreases f, toks@.len() - i, 23int,
{
    let ghost t = toks_v(toks@);
    if !at_x(toks, i, Token::LeftCurly) {
        return None;
    }
    let k0 = skip_nl_x(toks, i + 1);
    let mut k = k0;
    let mut ss: Vec<Spanned<Statement>> = Vec::new();
    proof {
        lemma_stmts_push(ss@, arbitrary());
    }
    let mut end: Option<usize> = None;
    loop
        invariant
            t == toks_v(toks@),
            i < k0 <= k <= toks.len(),
            block_items(t, k0 as int, seq![], f as nat) == block_items(
                t,
                k as int,
                stmts_v(ss@),
                f as nat,
            ),
        ensures
            block_items(t, k0 as int, seq![], f as nat) == (match end {
                Some(e) => Some((stmts_v(ss@), e as int)),
                None => None::<(Seq<SStmt>, int)>,
            }),
            end matches Some(e) ==> i < e <= toks.len(),
        decreases toks@.len() - k,
    {
        match stmt_x(toks, k, f) {
            Some((st, j)) => {
                if k < j && j <= toks.len() {
                    proof {
                        lemma_stmts_push(ss@, st);
                    }
                    ss.push(st);
                    k = skip_nl_x(toks, j);
                    continue ;
                }
                end = None;
                break ;
            },
            None => {
                end = close_x(toks, k, Token::RightCurly);
                break ;
            },
        }
    }
    match end {
        Some(j) => {
            let span = region_x(toks, i, j);
            proof {
                lemma_node_block(ss);
            }
            let e = Spanned { node: Expression::Block(ss), span };
            proof {
                lemma_expr_v(e);
            }
            Some((e, j))
        },
        None => None,
    }
}

/// An optional `else` block or `elif` chain after an `if` body.
#[verifier::spinoff_prover]
fn else_branch_x(toks: &Tokens, i: usize, f: usize) -> (r: (Option<Spanned<Expression>>, usize))
    ensures
        else_branch(toks_v(toks@), i as int, f as nat) == (opt_expr_v(r.0), r.1 as int),
        i <= toks.len() ==> i <= r.1 <= toks.len(),
    decreases f, toks@.len() - i, 21int,
{
    if at_x(toks, i, Token::Else) {
        match block_x(toks, i + 1, f) {
            Some((b, j)) => {
                return (Some(b), j);
            },
            None => {},
        }
    }
    if at_x(toks, i, Token::Elif) {
        match if_rest_x(toks, i + 1, f) {
            Some((st, j)) => {
                if i < j && j <= toks.len() {
                    let span = region_x(toks, i, j);
                    let mut ss: Vec<Spanned<Statement>> = Vec::new();
                    proof {
                        lemma_stmts_push(ss@, st);
                    }
                    ss.push(st);
                    proof {
                        lemma_node_block(ss);
                    }
                    let e = Spanned { node: Expression::Block(ss), span };
                    proof {
                        lemma_expr_v(e);
                        assert(stmts_v(ss@) =~= seq![stmt_v(st)]);
                    }
                    return (Some(e), j);
                }
            },
            None => {},
        }
    }
    (None, i)
}

/// What follows `if`.
fn if_rest_x(toks: &Tokens, i: usize, f: usize) -> (r: Option<(Spanned<Statement>, usize)>)
    ensures
        stmt_ok(r, if_rest(toks_v(toks@), i as int, f as nat)),
        r matches Some((_, j)) ==> i < j <= toks.len(),
    decreases f, toks@.len() - i, 29int,
{
    if at_x(toks, i, Token::Let) && ident_x(toks, i + 1).is_some() && at_x(toks, i + 2, Token::Equals) {
        if_let_rest_x(toks, i, f)
    } else {
        if_cond_rest_x(toks, i, f)
    }
}

/// `let name = value { .. }` and an optional else branch.
#[verifier::spinoff_prover]
#[verifier::rlimit(40)]
fn if_let_rest_x(toks: &Tokens, i: usize, f: usize) -> (r: Option<(Spanned<Statement>, usize)>)
    ensures
        stmt_ok(r, if_let_rest(toks_v(toks@), i as int, f as nat)),
        r matches Some((_, j)) ==> i < j <= toks.len(),
    decreases f, toks@.len() - i, 28int,
{
    if !(at_x(toks, i, Token::Let) && ident_x(toks, i + 1).is_some() && at_x(
        toks,
        i + 2,
        Token::Equals,
    )) {
        return None;
    }
    let name = ident_x(toks, i + 1).unwrap();
    let (v, j) = match expr_x(toks, i + 3, f) {
        Some(x) => x,
        None => {
            return None;
        },
    };
    if !(i < j && j <= toks.len()) {
        return None;
    }
    let (b, k) = match block_x(toks, j, f) {
        Some(x) => x,
        None => {
            return None;
        },
    };
    let (eb, m) = else_branch_x(toks, k, f);
    let span = region_x(toks, i, m);
    proof {
        lemma_stmt_if_let(name, v, b, eb, span);
    }
    Some((Spanned { node: Statement::IfLet { name, value: v, body: b, else_body: eb }, span }, m))
}

/// `cond { .. }` and an optional else branch.
#[verifier::spinoff_prover]
#[verifier::rlimit(40)]
fn if_cond_rest_x(toks: &Tokens, i: usize, f: usize) -> (r: Option<(Spanned<Statement>, usize)>)
    ensures
        stmt_ok(r, if_cond_rest(toks_v(toks@), i as int, f as nat)),
        r matches Some((_, j)) ==> i < j <= toks.len(),
    decreases f, toks@.len() - i, 28int,
{
    let (c, j) = match expr_x(toks, i, f) {
        Some(x) => x,
        None => {
            return None;
        },
    };
    if !(i < j && j <= toks.len()) {
        return None;
    }
    let (b, k) = match block_x(toks, j, f) {
        Some(x) => x,
        None => {
            return None;
        },
    };
    let (eb, m) = else_branch_x(toks, k, f);
    let span = region_x(toks, i, m);
    proof {
        lemma_stmt_if(c, b, eb, span);
    }
    Some((Spanned { node: Statement::If { condition: c, body: b, else_body: eb }, span }, m))
}

/// `pub? let|val name (: T)? = expr`.
#[verifier::spinoff_prover]
fn binding_x(toks: &Tokens, i: usize, f: usize, mutable: bool) -> (r: Option<
    (Spanned<Statement>, usize),
>)
    ensures
        stmt_ok(r, binding(toks_v(toks@), i as int, f as nat, mutable)),
        r matches Some((_, j)) ==> i < j <= toks.len(),
    decreases f, toks@.len() - i, 34int,
{
    let p = at_x(toks, i, Token::Pub);
    let k = if p {
        i + 1
    } else {
        i
    };
    let kw = if mutable {
        Token::Let
    } else {
        Token::Val
    };
    if !(at_x(toks, k, kw) && ident_x(toks, k + 1).is_some()) {
        return None;
    }
    let name = ident_x(toks, k + 1).unwrap();
    let (a, j) = opt_annotation_x(toks, k + 2);
    if !(i < j && at_x(toks, j, Token::Equals)) {
        return None;
    }
    match expr_x(toks, j + 1, f) {
        Some((v, m)) => if j < m && m <= toks.len() {
            let span = region_x(toks, i, m);
            proof {
                lemma_stmt_let(name, v, a, p, span);
                lemma_stmt_val(name, v, a, p, span);
            }
            let node = if mutable {
                Statement::Let { name, value: v, type_ann: a, is_pub: p }
            } else {
                Statement::Val { name, value: v, type_ann: a, is_pub: p }
            };
            Some((Spanned { node, span }, m))
        } else {
            None
        },
        None => None,
    }
}

/// `target = expr`, the target a name, a field access or an index.
#[verifier::spinoff_prover]
#[verifier::rlimit(40)]
fn assignment_x(toks: &Tokens, i: usize, f: usize) -> (r: Option<(Spanned<Statement>, usize)>)
    ensures
        stmt_ok(r, assignment(toks_v(toks@), i as int, f as nat)),
        r matches Some((_, j)) ==> i < j <= toks.len(),
    decreases f, toks@.len() - i, 33int,
{
    let (target, j) = match postfix_x(toks, i, f) {
        Some(p) => p,
        None => {
            return None;
        },
    };
    if !(i < j && at_x(toks, j, Token::Equals)) {
        return None;
    }
    let (v, m) = match expr_x(toks, j + 1, f) {
        Some(p) => p,
        None => {
            return None;
        },
    };
    if !(j < m && m <= toks.len()) {
        return None;
    }
    let span = region_x(toks, i, m);
    proof {
        lemma_expr_v(target);
        lemma_node_target(target.node);
    }
    match target.node {
        Expression::Ident(name) => {
            proof {
                lemma_stmt_assignment(name, v, span);
            }
            Some((Spanned { node: Statement::Assignment { name, value: v }, span }, m))
        },
        Expression::FieldAccess { object, field } => {
            proof {
                lemma_stmt_field_assignment(*object, field, v, span);
            }
            Some(
                (
                    Spanned {
                        node: Statement::FieldAssignment { object: *object, field, value: v },
                        span,
                    },
                    m,
                ),
            )
        },
        Expression::Index { object, index } => {
            proof {
                lemma_stmt_index_assignment(*object, *index, v, span);
            }
            Some(
                (
                    Spanned {
                        node: Statement::IndexAssignment { object: *object, index: *index, value: v },
                        span,
                    },
                    m,
                ),
            )
        },
        _ => None,
    }
}


pub open spec fn method_ok(r: Option<(ObjMethod, usize)>, s: Option<(MethodV, int)>) -> bool {
    match r {
        Some((x, j)) => s == Some((method_v(x), j as int)),
        None => s is None,
    }
}

/// `pub? fn name(params) (-> T)? { .. }?` inside an `obj` body.
#[verifier::spinoff_prover]
fn method_x(toks: &Tokens, i: usize, f: usize) -> (r: Option<(ObjMethod, usize)>)
    ensures
        method_ok(r, method(toks_v(toks@), i as int, f as nat)),
        r matches Some((_, j)) ==> i < j <= toks.len(),
    decreases f, toks@.len() - i, 31int,
{
    let p = at_x(toks, i, Token::Pub);
    let k = if p {
        i + 1
    } else {
        i
    };
    if !(at_x(toks, k, Token::Fn) && ident_x(toks, k + 1).is_some()) {
        return None;
    }
    let name = ident_x(toks, k + 1).unwrap();
    let (ps, j) = match params_x(toks, k + 2) {
        Some(x) => x,
        None => {
            return None;
        },
    };
    let (ret, j2) = opt_return_x(toks, j);
    if !(i < j2 && j2 <= toks.len()) {
        return None;
    }
    let (body, end) = match block_x(toks, j2, f) {
        Some((b, m)) => (Some(b), m),
        None => (None, j2),
    };
    let span = region_x(toks, i, end);
    Some((ObjMethod { name, params: ps, body, return_type: ret, is_pub: p, span }, end))
}

fn obj_field_x(toks: &Tokens, i: usize) -> (r: Option<(ObjField, usize)>)
    ensures
        match r {
            Some((x, j)) => obj_field(toks_v(toks@), i as int) == Some((field_v(x), j as int)),
            None => obj_field(toks_v(toks@), i as int) is None,
        },
        r matches Some((_, j)) ==> i < j <= toks.len(),
{
    let p = at_x(toks, i, Token::Pub);
    let k = if p {
        i + 1
    } else {
        i
    };
    if !(ident_x(toks, k).is_some() && at_x(toks, k + 1, Token::Colon)) {
        return None;
    }
    let name = ident_x(toks, k).unwrap();
    match ty_x(toks, k + 2) {
        Some((x, j)) => {
            let span = region_x(toks, i, j);
            Some((ObjField { name, type_ann: x, span, is_pub: p }, j))
        },
        None => None,
    }
}

/// An item of an `obj` body.
enum Item {
    Field(ObjField),
    Method(ObjMethod),
    Use(Vec<String>),
}

spec fn item_v(x: Item) -> ItemV {
    match x {
        Item::Field(y) => ItemV::Field(field_v(y)),
        Item::Method(y) => ItemV::Method(method_v(y)),
        Item::Use(p) => ItemV::Use(strs_v(p@)),
    }
}

#[verifier::spinoff_prover]
fn obj_item_x(toks: &Tokens, i: usize, f: usize) -> (r: Option<(Item, usize)>)
    ensures
        match r {
            Some((x, j)) => obj_item(toks_v(toks@), i as int, f as nat) == Some(
                (item_v(x), j as int),
            ),
            None => obj_item(toks_v(toks@), i as int, f as nat) is None,
        },
        r matches Some((_, j)) ==> i < j <= toks.len(),
    decreases f, toks@.len() - i, 32int,
{
    match method_x(toks, i, f) {
        Some((m, j)) => {
            return Some((Item::Method(m), j));
        },
        None => {},
    }
    if at_x(toks, i, Token::Use) {
        match dotted_x(toks, i + 1) {
            Some((p, j)) => {
                return Some((Item::Use(p), j));
            },
            None => {},
        }
    }
    match obj_field_x(toks, i) {
        Some((x, j)) => Some((Item::Field(x), j)),
        None => None,
    }
}

/// `pub? obj Name { items }`.
#[verifier::spinoff_prover]
#[verifier::rlimit(40)]
fn obj_def_x(toks: &Tokens, i: usize, f: usize) -> (r: Option<(Spanned<Statement>, usize)>)
    ensures
        stmt_ok(r, obj_def(toks_v(toks@), i as int, f as nat)),
        r matches Some((_, j)) ==> i < j <= toks.len(),
    decreases f, toks@.len() - i, 33int,
{
    let ghost t = toks_v(toks@);
    let p = at_x(toks, i, Token::Pub);
    let k = if p {
        i + 1
    } else {
        i
    };
    if !(at_x(toks, k, Token::Obj) && ident_x(toks, k + 1).is_some() && at_x(
        toks,
        k + 2,
        Token::LeftCurly,
    )) {
        return None;
    }
    let name = ident_x(toks, k + 1).unwrap();
    let k0 = skip_nl_x(toks, k + 3);
    let mut m = k0;
    let mut fields: Vec<ObjField> = Vec::new();
    let mut methods: Vec<ObjMethod> = Vec::new();
    let mut uses: Vec<Vec<String>> = Vec::new();
    let ghost mut items: Seq<ItemV> = seq![];
    proof {
        assert(fields_v(fields@) =~= item_fields(items));
        lemma_methods_push(methods@, arbitrary());
        assert(paths_v(uses@) =~= item_uses(items));
    }
    let mut end: Option<usize> = None;
    loop
        invariant
            t == toks_v(toks@),
            i < k0 <= m <= toks.len(),
            obj_items(t, k0 as int, seq![], f as nat) == obj_items(t, m as int, items, f as nat),
            fields_v(fields@) == item_fields(items),
            methods_v(methods@) == item_methods(items),
            paths_v(uses@) == item_uses(items),
        ensures
            obj_items(t, k0 as int, seq![], f as nat) == (match end {
                Some(e) => Some((items, e as int)),
                None => None::<(Seq<ItemV>, int)>,
            }),
            end matches Some(e) ==> i < e <= toks.len(),
        decreases toks@.len() - m,
    {
        match obj_item_x(toks, m, f) {
            Some((x, j)) => {
                let ghost xv = item_v(x);
                proof {
                    assert(items.push(xv).drop_last() =~= items);
                }
                match x {
                    Item::Field(y) => {
                        proof {
                            assert(fields_v(fields@.push(y)) =~= fields_v(fields@).push(field_v(y)));
                        }
                        fields.push(y);
                    },
                    Item::Method(y) => {
                        proof {
                            lemma_methods_push(methods@, y);
                        }
                        methods.push(y);
                    },
                    Item::Use(y) => {
                        proof {
                            assert(paths_v(uses@.push(y)) =~= paths_v(uses@).push(strs_v(y@)));
                        }
                        uses.push(y);
                    },
                }
                proof {
                    items = items.push(xv);
                }
                m =
                if at_x(toks, j, Token::Comma) {
                    skip_nl_x(toks, j + 1)
                } else {
                    skip_nl_x(toks, j)
                };
            },
            None => {
                end = close_x(toks, m, Token::RightCurly);
                break ;
            },
        }
    }
    match end {
        Some(j) => {
            let span = region_x(toks, i, j);
            proof {
                lemma_stmt_obj_def(name, fields, methods, uses, p, span);
            }
            Some((Spanned { node: Statement::ObjDef { name, fields, methods, uses, is_pub: p }, span }, j))
        },
        None => None,
    }
}

/// `pub? fn name(params) (-> T)? { .. }`.
#[verifier::spinoff_prover]
fn function_x(toks: &Tokens, i: usize, f: usize) -> (r: Option<(Spanned<Statement>, usize)>)
    ensures
        stmt_ok(r, function(toks_v(toks@), i as int, f as nat)),
        r matches Some((_, j)) ==> i < j <= toks.len(),
    decreases f, toks@.len() - i, 33int,
{
    let p = at_x(toks, i, Token::Pub);
    let k = if p {
        i + 1
    } else {
        i
    };
    if !(at_x(toks, k, Token::Fn) && ident_x(toks, k + 1).is_some()) {
        return None;
    }
    let name = ident_x(toks, k + 1).unwrap();
    let (ps, j) = match params_x(toks, k + 2) {
        Some(x) => x,
        None => {
            return None;
        },
    };
    let (ret, j2) = opt_return_x(toks, j);
    if !(i < j2 && j2 <= toks.len()) {
        return None;
    }
    match block_x(toks, j2, f) {
        Some((b, m)) => {
            let span = region_x(toks, i, m);
            proof {
                lemma_stmt_function(name, ps, b, ret, p, span);
            }
            Some(
                (
                    Spanned {
                        node: Statement::Function {
                            name,
                            params: ps,
                            body: b,
                            return_type: ret,
                            is_pub: p,
                        },
                        span,
                    },
                    m,
                ),
            )
        },
        None => None,
    }
}

fn import_stmt_x(toks: &Tokens, i: usize) -> (r: Option<(Spanned<Statement>, usize)>)
    requires
        at(toks_v(toks@), i as int, Token::Import),
    ensures
        stmt_ok(r, import_stmt(toks_v(toks@), i as int)),
        r matches Some((_, j)) ==> i < j <= toks.len(),
{
    if !at_x(toks, i, Token::Import) {
        return None;
    }
    match dotted_x(toks, i + 1) {
        Some((p, j)) => {
            let span = region_x(toks, i, j);
            proof {
                lemma_stmt_import(p, span);
            }
            Some((Spanned { node: Statement::Import { path: p }, span }, j))
        },
        None => None,
    }
}

#[verifier::spinoff_prover]
fn return_stmt_x(toks: &Tokens, i: usize, f: usize) -> (r: Option<(Spanned<Statement>, usize)>)
    ensures
        stmt_ok(r, return_stmt(toks_v(toks@), i as int, f as nat)),
        r matches Some((_, j)) ==> i < j <= toks.len(),
    decreases f, toks@.len() - i, 33int,
{
    if !at_x(toks, i, Token::Rn) {
        return None;
    }
    match expr_x(toks, i + 1, f) {
        Some((e, j)) => if i < j && j <= toks.len() {
            let span = region_x(toks, i, j);
            proof {
                lemma_stmt_return(Some(e), span);
            }
            Some((Spanned { node: Statement::Return(Some(e)), span }, j))
        } else {
            None
        },
        None => {
            let span = region_x(toks, i, i + 1);
            proof {
                lemma_stmt_return(None, span);
            }
            Some((Spanned { node: Statement::Return(None), span }, i + 1))
        },
    }
}

#[verifier::spinoff_prover]
#[verifier::rlimit(40)]
fn unless_stmt_x(toks: &Tokens, i: usize, f: usize) -> (r: Option<(Spanned<Statement>, usize)>)
    ensures
        stmt_ok(r, unless_stmt(toks_v(toks@), i as int, f as nat)),
        r matches Some((_, j)) ==> i < j <= toks.len(),
    decreases f, toks@.len() - i, 33int,
{
    if !at_x(toks, i, Token::Unless) {
        return None;
    }
    let (c, j) = match expr_x(toks, i + 1, f) {
        Some(x) => x,
        None => {
            return None;
        },
    };
    if !(i < j && j <= toks.len()) {
        return None;
    }
    let (b, k) = match block_x(toks, j, f) {
        Some(x) => x,
        None => {
            return None;
        },
    };
    let (eb, m) = if at_x(toks, k, Token::Else) {
        match block_x(toks, k + 1, f) {
            Some((e, m)) => (Some(e), m),
            None => (None, k),
        }
    } else {
        (None, k)
    };
    let span = region_x(toks, i, m);
    proof {
        lemma_stmt_unless(c, b, eb, span);
    }
    Some((Spanned { node: Statement::Unless { condition: c, body: b, else_body: eb }, span }, m))
}

#[verifier::spinoff_prover]
fn while_stmt_x(toks: &Tokens, i: usize, f: usize) -> (r: Option<(Spanned<Statement>, usize)>)
    ensures
        stmt_ok(r, while_stmt(toks_v(toks@), i as int, f as nat)),
        r matches Some((_, j)) ==> i < j <= toks.len(),
    decreases f, toks@.len() - i, 33int,
{
    if !at_x(toks, i, Token::While) {
        return None;
    }
    let (c, j) = match expr_x(toks, i + 1, f) {
        Some(x) => x,
        None => {
            return None;
        },
    };
    if !(i < j && j <= toks.len()) {
        return None;
    }
    match block_x(toks, j, f) {
        Some((b, k)) => {
            let span = region_x(toks, i, k);
            proof {
                lemma_stmt_while(c, b, span);
            }
            Some((Spanned { node: Statement::While { condition: c, body: b }, span }, k))
        },
        None => None,
    }
}

#[verifier::spinoff_prover]
fn for_stmt_x(toks: &Tokens, i: usize, f: usize) -> (r: Option<(Spanned<Statement>, usize)>)
    ensures
        stmt_ok(r, for_stmt(toks_v(toks@), i as int, f as nat)),
        r matches Some((_, j)) ==> i < j <= toks.len(),
    decreases f, toks@.len() - i, 33int,
{
    if !(at_x(toks, i, Token::For) && ident_x(toks, i + 1).is_some() && at_x(toks, i + 2, Token::In)) {
        return None;
    }
    let name = ident_x(toks, i + 1).unwrap();
    let (it, j) = match expr_x(toks, i + 3, f) {
        Some(x) => x,
        None => {
            return None;
        },
    };
    if !(i < j && j <= toks.len()) {
        return None;
    }
    match block_x(toks, j, f) {
        Some((b, k)) => {
            let span = region_x(toks, i, k);
            proof {
                lemma_stmt_for(name, it, b, span);
            }
            Some((Spanned { node: Statement::For { name, iterable: it, body: b }, span }, k))
        },
        None => None,
    }
}

#[verifier::spinoff_prover]
fn test_stmt_x(toks: &Tokens, i: usize, f: usize) -> (r: Option<(Spanned<Statement>, usize)>)
    ensures
        stmt_ok(r, test_stmt(toks_v(toks@), i as int, f as nat)),
        r matches Some((_, j)) ==> i < j <= toks.len(),
    decreases f, toks@.len() - i, 33int,
{
    let ghost t = toks_v(toks@);
    if !(at_x(toks, i, Token::Test) && i + 1 < toks.len()) {
        return None;
    }
    let name = match &toks[i + 1].0 {
        Token::String(s) => s.clone(),
        _ => {
            return None;
        },
    };
    proof {
        assert(t[i + 1] == (tok_v(toks@[i + 1].0), toks@[i + 1].1.start as int, toks@[i + 1].1.end as int));
    }
    match block_x(toks, i + 2, f) {
        Some((b, k)) => {
            let span = region_x(toks, i, k);
            proof {
                lemma_stmt_test(name, b, span);
            }
            Some((Spanned { node: Statement::Test { name, body: b }, span }, k))
        },
        None => None,
    }
}

#[verifier::spinoff_prover]
fn assert_stmt_x(toks: &Tokens, i: usize, f: usize) -> (r: Option<(Spanned<Statement>, usize)>)
    ensures
        stmt_ok(r, assert_stmt(toks_v(toks@), i as int, f as nat)),
        r matches Some((_, j)) ==> i < j <= toks.len(),
    decreases f, toks@.len() - i, 33int,
{
    if !(at_x(toks, i, Token::Assert) && at_x(toks, i + 1, Token::LeftParen)) {
        return None;
    }
    match expr_x(toks, i + 2, f) {
        Some((c, j)) => if i < j && at_x(toks, j, Token::RightParen) {
            let span = region_x(toks, i, j + 1);
            proof {
                lemma_stmt_assert(c, span);
            }
            Some((Spanned { node: Statement::Assert { condition: c }, span }, j + 1))
        } else {
            None
        },
        None => None,
    }
}

/// The statements that begin with a keyword of their own.
#[verifier::spinoff_prover]
fn keyword_stmt_x(toks: &Tokens, i: usize, f: usize) -> (r: Option<(Spanned<Statement>, usize)>)
    ensures
        stmt_ok(r, keyword_stmt(toks_v(toks@), i as int, f as nat)),
        r matches Some((_, j)) ==> i < j <= toks.len(),
    decreases f, toks@.len() - i, 34int,
{
    let ghost t = toks_v(toks@);
    if at_x(toks, i, Token::Import) {
        import_stmt_x(toks, i)
    } else if at_x(toks, i, Token::Rn) {
        return_stmt_x(toks, i, f)
    } else if at_x(toks, i, Token::If) {
        if_rest_x(toks, i + 1, f)
    } else if at_x(toks, i, Token::Unless) {
        unless_stmt_x(toks, i, f)
    } else if at_x(toks, i, Token::While) {
        while_stmt_x(toks, i, f)
    } else if at_x(toks, i, Token::For) && ident_x(toks, i + 1).is_some() && at_x(
        toks,
        i + 2,
        Token::In,
    ) {
        for_stmt_x(toks, i, f)
    } else if at_x(toks, i, Token::Break) {
        let span = region_x(toks, i, i + 1);
        proof {
            lemma_stmt_break(span);
        }
        Some((Spanned { node: Statement::Break, span }, i + 1))
    } else if at_x(toks, i, Token::Continue) {
        let span = region_x(toks, i, i + 1);
        proof {
            lemma_stmt_continue(span);
        }
        Some((Spanned { node: Statement::Continue, span }, i + 1))
    } else if at_x(toks, i, Token::Test) && i + 1 < toks.len() && matches!(toks[i + 1].0, Token::String(_)) {
        proof {
            assert(t[i + 1] == (tok_v(toks@[i + 1].0), toks@[i + 1].1.start as int, toks@[i + 1].1.end as int));
        }
        test_stmt_x(toks, i, f)
    } else if at_x(toks, i, Token::Assert) && at_x(toks, i + 1, Token::LeftParen) {
        assert_stmt_x(toks, i, f)
    } else {
        proof {
            if at(t, i as int, Token::Test) && 0 <= i + 1 < t.len() {
                assert(t[i + 1] == (tok_v(toks@[i + 1].0), toks@[i + 1].1.start as int, toks@[i + 1].1.end as int));
            }
        }
        None
    }
}

/// A statement: the first alternative that parses.
#[verifier::spinoff_prover]
#[verifier::rlimit(40)]
fn stmt_x(toks: &Tokens, i: usize, f: usize) -> (r: Option<(Spanned<Statement>, usize)>)
    ensures
        stmt_ok(r, stmt(toks_v(toks@), i as int, f as nat)),
        r matches Some((_, j)) ==> i < j <= toks.len(),
    decreases f, toks@.len() - i, 35int,
{
    match binding_x(toks, i, f, true) {
        Some(x) => {
            return Some(x);
        },
        None => {},
    }
    match assignment_x(toks, i, f) {
        Some(x) => {
            return Some(x);
        },
        None => {},
    }
    match binding_x(toks, i, f, false) {
        Some(x) => {
            return Some(x);
        },
        None => {},
    }
    match obj_def_x(toks, i, f) {
        Some(x) => {
            return Some(x);
        },
        None => {},
    }
    match function_x(toks, i, f) {
        Some(x) => {
            return Some(x);
        },
        None => {},
    }
    match keyword_stmt_x(toks, i, f) {
        Some(x) => {
            return Some(x);
        },
        None => {},
    }
    match block_x(toks, i, f) {
        Some((b, j)) => {
            let span = Range { start: b.span.start, end: b.span.end };
            proof {
                lemma_expr_v(b);
            }
            proof {
                lemma_stmt_expression(b, span);
            }
            return Some((Spanned { node: Statement::Expression(b), span }, j));
        },
        None => {},
    }
    match expr_x(toks, i, f) {
        Some((e, j)) => if i < j && j <= toks.len() {
            let span = region_x(toks, i, j);
            proof {
                lemma_stmt_expression(e, span);
            }
            Some((Spanned { node: Statement::Expression(e), span }, j))
        } else {
            None
        },
        None => None,
    }
}

/// The statements of a program; on failure, where they stop.
#[verifier::spinoff_prover]
fn program_x(toks: &Tokens, f: usize) -> (r: Result<Vec<Spanned<Statement>>, usize>)
    ensures
        match r {
            Ok(ss) => program(toks_v(toks@), f as nat) == Some(stmts_v(ss@)),
            Err(stop) => program(toks_v(toks@), f as nat) is None && stop == program_stop(
                toks_v(toks@),
                f as nat,
            ) && stop < toks.len(),
        },
    decreases f, toks@.len() + 1, 0int,
{
    let ghost t = toks_v(toks@);
    let k0 = skip_nl_x(toks, 0);
    let mut k = k0;
    let mut ss: Vec<Spanned<Statement>> = Vec::new();
    proof {
        lemma_stmts_push(ss@, arbitrary());
    }
    loop
        invariant_except_break
            top_items(t, k0 as int, seq![], f as nat) == top_items(
                t,
                k as int,
                stmts_v(ss@),
                f as nat,
            ),
        invariant
            t == toks_v(toks@),
            k0 <= k <= toks.len(),
        ensures
            top_items(t, k0 as int, seq![], f as nat) == (stmts_v(ss@), k as int),
            k <= toks.len(),
        decreases toks@.len() - k,
    {
        match stmt_x(toks, k, f) {
            Some((st, j)) => {
                if k < j && j <= toks.len() {
                    let m = skip_nl_x(toks, j);
                    proof {
                        lemma_stmts_push(ss@, st);
                    }
                    ss.push(st);
                    if j < m {
                        k = m;
                        continue ;
                    }
                    k = j;
                    break ;
                }
                break ;
            },
            None => {
                break ;
            },
        }
    }
    if k == toks.len() {
        Ok(ss)
    } else {
        Err(k)
    }
}

// ---------------------------------------------------------------------------
// String literals and interpolation.
// ---------------------------------------------------------------------------

fn utf8_len_x(c: char) -> (r: usize)
    ensures
        r == utf8_len(c),
{
    if (c as u32) < 0x80 {
        1
    } else if (c as u32) < 0x800 {
        2
    } else if (c as u32) < 0x10000 {
        3
    } else {
        4
    }
}

spec fn scan_v(
    parts: Seq<StringPart>,
    lit: String,
    code: String,
    depth: usize,
    byte_pos: usize,
    code_start: usize,
) -> ScanState {
    ScanState {
        parts: parts_v(parts),
        lit: lit@,
        code: code@,
        depth: depth as nat,
        byte_pos: byte_pos as int,
        code_start: code_start as int,
    }
}

/// The expression of a string literal with content `text` whose content
/// starts at byte `base` of the source.
#[verifier::spinoff_prover]
#[verifier::rlimit(60)]
fn string_expr_x(text: &String, base: usize, f: usize) -> (r: Expression)
    ensures
        node_v(r) == string_expr(text@, base as int, f as nat),
    decreases f, 0int, text@.len() + 1,
{
    let cs = chars_of(text.as_str());
    let ghost init = ScanState {
        parts: seq![],
        lit: seq![],
        code: seq![],
        depth: 0,
        byte_pos: 0,
        code_start: 0,
    };
    let mut parts: Vec<StringPart> = Vec::new();
    let mut lit = String::new();
    let mut code = String::new();
    let mut depth: usize = 0;
    let mut byte_pos: usize = 0;
    let mut code_start: usize = 0;
    let mut k: usize = 0;
    proof {
        lemma_parts_push(parts@, arbitrary());
        assert(scan_v(parts@, lit, code, depth, byte_pos, code_start) == init);
    }
    while k < cs.len()
        invariant
            cs@ == text@,
            k <= cs@.len(),
            depth <= k,
            scan_content(cs@, 0, init, base as int, f as nat) == scan_content(
                cs@,
                k as int,
                scan_v(parts@, lit, code, depth, byte_pos, code_start),
                base as int,
                f as nat,
            ),
        decreases cs@.len() - k,
    {
        let ghost s0 = scan_v(parts@, lit, code, depth, byte_pos, code_start);
        let ghost k0 = k as int;
        let c = cs[k];
        let n = utf8_len_x(c);
        if depth > 0 {
            if c == '{' {
                push_char(&mut code, c);
                depth = depth + 1;
                byte_pos = byte_pos.saturating_add(n);
                k = k + 1;
                proof {
                    assert(scan_v(parts@, lit, code, depth, byte_pos, code_start) == ScanState {
                        code: s0.code.push(c),
                        depth: s0.depth + 1,
                        byte_pos: sat(s0.byte_pos, n as int),
                        ..s0
                    });
                }
            } else if c == '}' && depth == 1 {
                let ghost interp = interp_expr(s0.code, sat(base as int, s0.code_start), f as nat);
                match interp_expr_x(&code, base.saturating_add(code_start), f) {
                    Some(e) => {
                        proof {
                            lemma_parts_push(parts@, StringPart::Interp(e));
                        }
                        parts.push(StringPart::Interp(e));
                    },
                    None => {
                        push_char(&mut lit, '{');
                        push_str(&mut lit, code.as_str());
                        push_char(&mut lit, '}');
                        proof {
                            assert(lit@ =~= s0.lit + seq!['{'] + s0.code + seq!['}']);
                        }
                    },
                }
                code = String::new();
                depth = 0;
                byte_pos = byte_pos.saturating_add(n);
                k = k + 1;
                proof {
                    let next = match interp {
                        Some(e) => ScanState { parts: s0.parts.push(PartV::Interp(e)), ..s0 },
                        None => ScanState { lit: s0.lit + seq!['{'] + s0.code + seq!['}'], ..s0 },
                    };
                    assert(code@ =~= seq![]);
                    assert(scan_v(parts@, lit, code, depth, byte_pos, code_start) == ScanState {
                        code: seq![],
                        depth: 0,
                        byte_pos: sat(s0.byte_pos, n as int),
                        ..next
                    });
                }
            } else if c == '}' {
                push_char(&mut code, c);
                depth = depth - 1;
                byte_pos = byte_pos.saturating_add(n);
                k = k + 1;
                proof {
                    assert(scan_v(parts@, lit, code, depth, byte_pos, code_start) == ScanState {
                        code: s0.code.push(c),
                        depth: (s0.depth - 1) as nat,
                        byte_pos: sat(s0.byte_pos, n as int),
                        ..s0
                    });
                }
            } else {
                push_char(&mut code, c);
                byte_pos = byte_pos.saturating_add(n);
                k = k + 1;
                proof {
                    assert(scan_v(parts@, lit, code, depth, byte_pos, code_start) == ScanState {
                        code: s0.code.push(c),
                        byte_pos: sat(s0.byte_pos, n as int),
                        ..s0
                    });
                }
            }
        } else if c == '\\' {
            if k + 1 < cs.len() {
                let d = cs[k + 1];
                if d == '\\' || d == '{' || d == '}' {
                    push_char(&mut lit, d);
                } else {
                    push_char(&mut lit, '\\');
                    push_char(&mut lit, d);
                }
                byte_pos = byte_pos.saturating_add(utf8_len_x(d)).saturating_add(n);
                k = k + 2;
                proof {
                    let l = if d == '\\' || d == '{' || d == '}' {
                        s0.lit.push(d)
                    } else {
                        s0.lit.push('\\').push(d)
                    };
                    assert(scan_v(parts@, lit, code, depth, byte_pos, code_start) == ScanState {
                        lit: l,
                        byte_pos: sat(sat(s0.byte_pos, utf8_len(d)), n as int),
                        ..s0
                    });
                }
            } else {
                push_char(&mut lit, '\\');
                byte_pos = byte_pos.saturating_add(n);
                k = k + 1;
                proof {
                    assert(scan_v(parts@, lit, code, depth, byte_pos, code_start) == ScanState {
                        lit: s0.lit.push('\\'),
                        byte_pos: sat(s0.byte_pos, n as int),
                        ..s0
                    });
                }
            }
        } else if c == '{' {
            if !lit.as_str().is_empty() {
                let piece = lit;
                proof {
                    lemma_parts_push(parts@, StringPart::Literal(piece));
                }
                parts.push(StringPart::Literal(piece));
                lit = String::new();
            }
            depth = 1;
            code_start = byte_pos.saturating_add(n);
            byte_pos = byte_pos.saturating_add(n);
            k = k + 1;
            proof {
                let ps = if s0.lit.len() > 0 {
                    s0.parts.push(PartV::Literal(s0.lit))
                } else {
                    s0.parts
                };
                assert(lit@ =~= seq![]);
                assert(scan_v(parts@, lit, code, depth, byte_pos, code_start) == ScanState {
                    parts: ps,
                    lit: seq![],
                    depth: 1,
                    code_start: sat(s0.byte_pos, n as int),
                    byte_pos: sat(s0.byte_pos, n as int),
                    ..s0
                });
            }
        } else {
            push_char(&mut lit, c);
            byte_pos = byte_pos.saturating_add(n);
            k = k + 1;
            proof {
                assert(scan_v(parts@, lit, code, depth, byte_pos, code_start) == ScanState {
                    lit: s0.lit.push(c),
                    byte_pos: sat(s0.byte_pos, n as int),
                    ..s0
                });
            }
        }
    }
    let ghost sf = scan_v(parts@, lit, code, depth, byte_pos, code_start);
    if depth > 0 {
        push_char(&mut lit, '{');
        push_str(&mut lit, code.as_str());
        proof {
            assert(lit@ =~= sf.lit + seq!['{'] + sf.code);
        }
    }
    if !lit.as_str().is_empty() {
        let piece = lit;
        proof {
            lemma_parts_push(parts@, StringPart::Literal(piece));
        }
        parts.push(StringPart::Literal(piece));
    }
    proof {
        lemma_parts_v(parts@);
    }
    if parts.len() == 1 && matches!(parts[0], StringPart::Literal(_)) {
        let only = parts.pop().unwrap();
        let r = match only {
            StringPart::Literal(x) => x,
            StringPart::Interp(_) => String::new(),
        };
        proof {
            lemma_node_str(r);
        }
        Expression::String(r)
    } else {
        proof {
            lemma_node_interp(parts);
        }
        Expression::StringInterp(parts)
    }
}

/// Moves every span of `tokens` by `base`, saturating.
fn shift_tokens(tokens: Vec<(Token, Range<usize>)>, base: usize) -> (r: Tokens)
    ensures
        r@.len() == tokens@.len(),
        forall|k: int|
            0 <= k < r@.len() ==> {
                &&& (#[trigger] r@[k]).0 == tokens@[k].0
                &&& r@[k].1.start == sat(tokens@[k].1.start as int, base as int)
                &&& r@[k].1.end == sat(tokens@[k].1.end as int, base as int)
            },
{
    let ghost orig = tokens@;
    let n = tokens.len();
    let mut tokens = tokens;
    let mut rev: Tokens = Vec::new();
    while tokens.len() > 0
        invariant
            n == orig.len(),
            tokens@ == orig.subrange(0, n - rev@.len()),
            rev@.len() <= n,
            forall|j: int| 0 <= j < rev@.len() ==> #[trigger] rev@[j] == orig[n - 1 - j],
        decreases tokens@.len(),
    {
        let x = tokens.pop().unwrap();
        rev.push(x);
    }
    let mut out: Tokens = Vec::new();
    while rev.len() > 0
        invariant
            n == orig.len(),
            out@.len() + rev@.len() == n,
            forall|j: int| 0 <= j < rev@.len() ==> #[trigger] rev@[j] == orig[n - 1 - j],
            forall|j: int|
                0 <= j < out@.len() ==> {
                    &&& (#[trigger] out@[j]).0 == orig[j].0
                    &&& out@[j].1.start == sat(orig[j].1.start as int, base as int)
                    &&& out@[j].1.end == sat(orig[j].1.end as int, base as int)
                },
        decreases rev@.len(),
    {
        let (tok, sp) = rev.pop().unwrap();
        out.push((tok, Range { start: sp.start.saturating_add(base), end: sp.end.saturating_add(base) }));
    }
    out
}

pub proof fn lemma_tokens_of(
    code: Seq<char>,
    base: int,
    tokens: Seq<(Token, Range<usize>)>,
    shifted: Seq<(Token, Range<usize>)>,
)
    requires
        tokens_match(encode_utf8(code), tokens, code_lexemes(lexemes(encode_utf8(code), 0).0)),
        shifted.len() == tokens.len(),
        forall|k: int|
            0 <= k < shifted.len() ==> {
                &&& (#[trigger] shifted[k]).0 == tokens[k].0
                &&& shifted[k].1.start == sat(tokens[k].1.start as int, base)
                &&& shifted[k].1.end == sat(tokens[k].1.end as int, base)
            },
    ensures
        toks_v(shifted) == tokens_of(code, base),
{
    let b = encode_utf8(code);
    let lx = code_lexemes(lexemes(b, 0).0);
    lemma_lexemes_shape(b, 0);
    lemma_code_lexemes_shape(b, lexemes(b, 0).0);
    let want = tokens_of(code, base);
    assert forall|k: int| 0 <= k < shifted.len() implies #[trigger] toks_v(shifted)[k] == want[k] by {
        let x = lx[k];
        assert(code_shape(b, x));
        let tok = tokens[k].0;
        assert(tokens[k].1.start == x.1);
        assert(denotes(b, x.0, x.1, x.2, tok));
        match tok {
            Token::Ident(s) => {
                vstd::utf8::encode_utf8_decode_utf8(s@);
            },
            Token::Float(s) => {
                vstd::utf8::encode_utf8_decode_utf8(s@);
            },
            Token::String(s) => {
                vstd::utf8::encode_utf8_decode_utf8(s@);
            },
            Token::Comment(s) => {
                vstd::utf8::encode_utf8_decode_utf8(s@);
            },
            _ => {},
        }
    }
    assert(toks_v(shifted) =~= want);
}

/// The expression an interpolation holds (see [`interp_expr`]).
#[verifier::spinoff_prover]
#[verifier::rlimit(60)]
fn interp_expr_x(code: &String, base: usize, f: usize) -> (r: Option<Spanned<Expression>>)
    ensures
        opt_expr_v(r) == interp_expr(code@, base as int, f as nat),
    decreases f, 0int, 0int,
{
    if f == 0 {
        return None;
    }
    let (tokens, errors) = lex(code.as_str());
    let ghost b = encode_utf8(code@);
    let ghost lx = code_lexemes(lexemes(b, 0).0);
    if errors.len() > 0 || tokens.len() == 0 {
        return None;
    }
    let ghost toks0 = tokens@;
    let shifted = shift_tokens(tokens, base);
    proof {
        lemma_tokens_of(code@, base as int, toks0, shifted@);
    }
    match program_x(&shifted, f - 1) {
        Ok(ss) => {
            proof {
                lemma_stmts_v(ss@);
            }
            if ss.len() == 1 && matches!(ss[0].node, Statement::Expression(_)) {
                proof {
                    lemma_stmt_expression_view(ss@[0]);
                }
                let mut ss = ss;
                let first = ss.pop().unwrap();
                match first.node {
                    Statement::Expression(e) => Some(e),
                    _ => None,
                }
            } else {
                proof {
                    if ss@.len() == 1 {
                        lemma_stmt_expression_view(ss@[0]);
                    }
                }
                None
            }
        },
        Err(_) => None,
    }
}

/// The fuel a token stream is parsed with: one more than the end of its
/// last token. Each nested interpolation lies inside a string literal of
/// the one around it, so the nesting never runs out of it.
pub open spec fn fuel_for(t: Seq<TokV>) -> nat {
    if t.len() == 0 {
        1
    } else {
        sat(t[t.len() - 1].2, 1) as nat
    }
}

fn fuel_x(toks: &Tokens) -> (r: usize)
    ensures
        r == fuel_for(toks_v(toks@)),
{
    let n = toks.len();
    if n == 0 {
        1
    } else {
        toks[n - 1].1.end.saturating_add(1)
    }
}

/// The message for a program that stops at token `t`.
pub open spec fn stop_message(t: Token) -> Seq<char> {
    "unexpected '"@ + token_text(t) + "'"@
}

/// Parses a token stream into statements, following [`program`] with
/// the fuel [`fuel_for`] gives. When the tokens do not form a program,
/// no statement is returned and one [`OrynError::Parser`] is, at the
/// token where the top-level statements stop.
pub fn parse(tokens: Vec<(Token, Range<usize>)>) -> (r: (Vec<Spanned<Statement>>, Vec<OrynError>))
    ensures
        ({
            let t = toks_v(tokens@);
            match program(t, fuel_for(t)) {
                Some(ss) => stmts_v(r.0@) == ss && r.1@.len() == 0,
                None => {
                    let stop = program_stop(t, fuel_for(t));
                    &&& r.0@.len() == 0
                    &&& r.1@.len() == 1
                    &&& 0 <= stop < tokens@.len()
                    &&& r.1@[0] matches OrynError::Parser { span, message } && span.start
                        == tokens@[stop].1.start && span.end == tokens@[stop].1.end && message@
                        == stop_message(tokens@[stop].0)
                },
            }
        }),
{
    let f = fuel_x(&tokens);
    match program_x(&tokens, f) {
        Ok(ss) => (ss, Vec::new()),
        Err(stop) => {
            let mut message = String::from_str("unexpected '");
            let text = tokens[stop].0.text();
            push_str(&mut message, text.as_str());
            push_str(&mut message, "'");
            let span = Range { start: tokens[stop].1.start, end: tokens[stop].1.end };
            let mut errors: Vec<OrynError> = Vec::new();
            errors.push(OrynError::Parser { span, message });
            proof {
                assert(errors@.len() == 1);
            }
            (Vec::new(), errors)
        },
    }
}


// ---------------------------------------------------------------------------
// What the lexer hands the parser.
// ---------------------------------------------------------------------------

/// The grammar's view of lexemes over `b`.
pub open spec fn lexed_v(b: Seq<u8>, lx: Seq<(Lexeme, int, int)>) -> Seq<TokV> {
    lx.map_values(|x: (Lexeme, int, int)| (lexeme_tok(b, x.0, x.1, x.2), x.1, x.2))
}

/// A token is a comment.
pub open spec fn is_remark(x: TokV) -> bool {
    x.0 is Remark
}

/// Tokens that match lexemes are, through the grammar's view, those
/// lexemes.
proof fn lemma_tokens_view(b: Seq<u8>, toks: Seq<(Token, Range<usize>)>, lx: Seq<(Lexeme, int, int)>)
    requires
        tokens_match(b, toks, lx),
        forall|k: int| 0 <= k < lx.len() ==> (!((#[trigger] lx[k]).0 is Remark) ==> code_shape(b, lx[k])),
    ensures
        toks_v(toks) == lexed_v(b, lx),
{
    assert forall|k: int| 0 <= k < toks.len() implies #[trigger] toks_v(toks)[k] == lexed_v(b, lx)[k] by {
        let x = lx[k];
        let tok = toks[k].0;
        assert(toks[k].1.start == x.1);
        assert(denotes(b, x.0, x.1, x.2, tok));
        match tok {
            Token::Ident(s) => {
                vstd::utf8::encode_utf8_decode_utf8(s@);
            },
            Token::Float(s) => {
                vstd::utf8::encode_utf8_decode_utf8(s@);
            },
            Token::String(s) => {
                vstd::utf8::encode_utf8_decode_utf8(s@);
            },
            Token::Comment(s) => {
                vstd::utf8::encode_utf8_decode_utf8(s@);
            },
            _ => {
                if !(x.0 is Remark) {
                    assert(code_shape(b, x));
                }
            },
        }
    }
    assert(toks_v(toks) =~= lexed_v(b, lx));
}

/// Leaving out comment lexemes and then viewing is viewing and then
/// leaving out comment tokens.
proof fn lemma_code_lexemes_view(b: Seq<u8>, lx: Seq<(Lexeme, int, int)>)
    requires
        forall|k: int| 0 <= k < lx.len() ==> (!((#[trigger] lx[k]).0 is Remark) ==> code_shape(b, lx[k])),
    ensures
        lexed_v(b, code_lexemes(lx)) == lexed_v(b, lx).filter(|x: TokV| !is_remark(x)),
    decreases lx.len(),
{
    let p = |x: TokV| !is_remark(x);
    if lx.len() == 0 {
        assert(lexed_v(b, lx) =~= Seq::<TokV>::empty());
        assert(lexed_v(b, code_lexemes(lx)) =~= Seq::<TokV>::empty());
        reveal(Seq::filter);
    } else {
        let rest = lx.drop_first();
        assert forall|k: int| 0 <= k < rest.len() implies (!((#[trigger] rest[k]).0 is Remark) ==> code_shape(b, rest[k])) by {
            assert(rest[k] == lx[k + 1]);
        }
        lemma_code_lexemes_view(b, rest);
        let head = (lexeme_tok(b, lx[0].0, lx[0].1, lx[0].2), lx[0].1, lx[0].2);
        assert(lexed_v(b, lx) =~= seq![head] + lexed_v(b, rest));
        lexed_v(b, rest).lemma_filter_prepend(head, p);
        if !(lx[0].0 is Remark) {
            assert(code_shape(b, lx[0]));
        }
        assert(is_remark(head) == (lx[0].0 is Remark));
        if lx[0].0 is Remark {
            assert(lexed_v(b, code_lexemes(lx)) == lexed_v(b, code_lexemes(rest)));
            assert(lexed_v(b, lx).filter(p) =~= lexed_v(b, rest).filter(p));
        } else {
            assert(code_lexemes(lx) == seq![lx[0]] + code_lexemes(rest));
            assert(lexed_v(b, code_lexemes(lx)) =~= seq![head] + lexed_v(b, code_lexemes(rest)));
            assert(lexed_v(b, lx).filter(p) =~= seq![head] + lexed_v(b, rest).filter(p));
        }
    }
}

/// [`lex`] gives the tokens of [`crate::lexer::lex_all`] with the comments
/// left out: for any source, the token stream the parser reads is the
/// full token stream, spans included, without its comment tokens.
pub proof fn lex_is_lex_all_without_comments(
    source: Seq<char>,
    all: Seq<(Token, Range<usize>)>,
    code: Seq<(Token, Range<usize>)>,
)
    requires
        tokens_match(encode_utf8(source), all, lexemes(encode_utf8(source), 0).0),
        tokens_match(encode_utf8(source), code, code_lexemes(lexemes(encode_utf8(source), 0).0)),
    ensures
        toks_v(code) == toks_v(all).filter(|x: TokV| !is_remark(x)),
{
    let b = encode_utf8(source);
    let lx = lexemes(b, 0).0;
    lemma_lexemes_shape(b, 0);
    lemma_code_lexemes_shape(b, lx);
    lemma_tokens_view(b, all, lx);
    lemma_tokens_view(b, code, code_lexemes(lx));
    lemma_code_lexemes_view(b, lx);
}

} // verus!
