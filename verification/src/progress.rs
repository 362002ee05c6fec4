//! Every production of the grammar that succeeds consumes at least one
//! token and stops within the tokens. The grammar checks `i < j` (and
//! `j <= t.len()`) on what a production returned, so that its recursion
//! is well founded; the lemmas here show that those checks always hold,
//! so they never turn a parse away.
use vstd::prelude::*;

use crate::ast::{BinOp, ExprV, SExpr, SStmt};
use crate::grammar::{
    and_expr, and_rest, args_rest, at, atom, call_args, close_bracket, close_curly,
    coalesce_rest, comparison, comparison_rest, dotted, dotted_rest, end_of, expr, field_items,
    ident_at, ident_or_call, list_items, map_items, not_expr, obj_fields, opt_annotation,
    opt_return, or_expr, or_rest, param, params, params_rest, path_of, postfix, postfix_rest,
    prefix, product, product_op, product_rest, range_expr, relation_op, skip_nl, lemma_skip_nl,
    sum, sum_op, sum_rest, ty, ty_base, binary, val_of, TokV, assert_stmt, assignment, binding,
    block, block_items, else_branch, for_stmt, function, if_cond_rest, if_let_rest, if_rest,
    import_stmt, keyword_stmt, method, obj_def, obj_field, obj_item, obj_items, return_stmt,
    stmt, test_stmt, top_items, unless_stmt, while_stmt, ItemV,
};
use crate::lexer::Token;

verus! {

/// A parse that succeeded at `i` stopped after `i` and at most at `n`.
pub open spec fn advances<X>(r: Option<(X, int)>, i: int, n: int) -> bool {
    r is Some ==> i < end_of(r) <= n
}

/// A loop that continues at `i` stops at or after `i`, and within the
/// tokens when it started within them.
pub open spec fn stays<X>(r: (X, int), i: int, n: int) -> bool {
    i <= r.1 && (i <= n ==> r.1 <= n)
}

proof fn lemma_dotted_rest(t: Seq<TokV>, i: int, acc: Seq<Seq<char>>)
    requires
        0 <= i,
    ensures
        stays(dotted_rest(t, i, acc), i, t.len() as int),
    decreases t.len() - i,
{
    if at(t, i, Token::Dot) && ident_at(t, i + 1) is Some {
        lemma_dotted_rest(t, i + 2, acc.push(ident_at(t, i + 1)->0));
    }
}

proof fn lemma_dotted(t: Seq<TokV>, i: int)
    requires
        0 <= i,
    ensures
        advances(dotted(t, i), i, t.len() as int),
{
    if ident_at(t, i) is Some {
        lemma_dotted_rest(t, i + 1, seq![ident_at(t, i)->0]);
    }
}

proof fn lemma_ty(t: Seq<TokV>, i: int)
    requires
        0 <= i,
    ensures
        advances(ty(t, i), i, t.len() as int),
    decreases t.len() - i, 1int,
{
    if at(t, i, Token::Bang) {
        lemma_ty_base(t, i + 1);
    } else {
        lemma_ty_base(t, i);
    }
}

proof fn lemma_ty_base(t: Seq<TokV>, i: int)
    requires
        0 <= i,
    ensures
        advances(ty_base(t, i), i, t.len() as int),
    decreases t.len() - i, 0int,
{
    if at(t, i, Token::LeftBracket) {
        lemma_ty(t, i + 1);
    } else if at(t, i, Token::LeftCurly) {
        lemma_ty(t, i + 1);
        match ty(t, i + 1) {
            Some((_, j)) => if i < j && at(t, j, Token::Colon) {
                lemma_ty(t, j + 1);
            },
            None => {},
        }
    } else if at(t, i, Token::LeftParen) {
        lemma_ty(t, i + 1);
    } else {
        lemma_dotted(t, i);
    }
}

proof fn lemma_opt_annotation(t: Seq<TokV>, i: int)
    requires
        0 <= i,
    ensures
        stays(opt_annotation(t, i), i, t.len() as int),
{
    if at(t, i, Token::Colon) {
        lemma_ty(t, i + 1);
    }
}

proof fn lemma_opt_return(t: Seq<TokV>, i: int)
    requires
        0 <= i,
    ensures
        stays(opt_return(t, i), i, t.len() as int),
{
    if at(t, i, Token::Arrow) {
        lemma_ty(t, i + 1);
    }
}

proof fn lemma_param(t: Seq<TokV>, i: int)
    requires
        0 <= i,
    ensures
        advances(param(t, i), i, t.len() as int),
{
    let k = if at(t, i, Token::Mut) {
        i + 1
    } else {
        i
    };
    lemma_opt_annotation(t, k + 1);
}

proof fn lemma_params_rest(t: Seq<TokV>, i: int, acc: Seq<crate::ast::ParamV>)
    requires
        0 <= i,
    ensures
        advances(params_rest(t, i, acc), i, t.len() as int),
    decreases t.len() - i,
{
    if at(t, i, Token::Comma) && param(t, i + 1) is Some && i < end_of(param(t, i + 1)) <= t.len() {
        lemma_params_rest(t, end_of(param(t, i + 1)), acc.push(val_of(param(t, i + 1))));
    }
}

proof fn lemma_params(t: Seq<TokV>, i: int)
    requires
        0 <= i,
    ensures
        advances(params(t, i), i, t.len() as int),
{
    if at(t, i, Token::LeftParen) {
        lemma_param(t, i + 1);
        match param(t, i + 1) {
            Some((p, j)) => lemma_params_rest(t, j, seq![p]),
            None => {},
        }
    }
}

proof fn lemma_close_curly(t: Seq<TokV>, i: int)
    requires
        0 <= i,
    ensures
        close_curly(t, i) is Some ==> i < close_curly(t, i)->0 <= t.len(),
{
    lemma_skip_nl(t, i);
}

proof fn lemma_close_bracket(t: Seq<TokV>, i: int)
    requires
        0 <= i,
    ensures
        close_bracket(t, i) is Some ==> i < close_bracket(t, i)->0 <= t.len(),
{
    lemma_skip_nl(t, i);
}

proof fn lemma_expr(t: Seq<TokV>, i: int, f: nat)
    requires
        0 <= i,
    ensures
        advances(expr(t, i, f), i, t.len() as int),
    decreases f, t.len() - i, 20int,
{
    lemma_or_expr(t, i, f);
    match or_expr(t, i, f) {
        Some((l, j)) => if i < j <= t.len() {
            lemma_coalesce_rest(t, j, l, f);
        },
        None => {},
    }
}

proof fn lemma_coalesce_rest(t: Seq<TokV>, i: int, l: SExpr, f: nat)
    requires
        0 <= i,
    ensures
        stays(coalesce_rest(t, i, l, f), i, t.len() as int),
    decreases f, t.len() - i, 20int,
{
    if at(t, i, Token::Orelse) {
        lemma_or_expr(t, i + 1, f);
        match or_expr(t, i + 1, f) {
            Some((r, j)) => if i < j <= t.len() {
                lemma_coalesce_rest(
                    t,
                    j,
                    SExpr {
                        node: ExprV::Coalesce(Box::new(l), Box::new(r)),
                        span: (l.span.0, r.span.1),
                    },
                    f,
                );
            },
            None => {},
        }
    }
}

proof fn lemma_or_expr(t: Seq<TokV>, i: int, f: nat)
    requires
        0 <= i,
    ensures
        advances(or_expr(t, i, f), i, t.len() as int),
    decreases f, t.len() - i, 19int,
{
    lemma_and_expr(t, i, f);
    match and_expr(t, i, f) {
        Some((l, j)) => if i < j <= t.len() {
            lemma_or_rest(t, j, l, f);
        },
        None => {},
    }
}

proof fn lemma_or_rest(t: Seq<TokV>, i: int, l: SExpr, f: nat)
    requires
        0 <= i,
    ensures
        stays(or_rest(t, i, l, f), i, t.len() as int),
    decreases f, t.len() - i, 19int,
{
    if at(t, i, Token::Or) {
        lemma_and_expr(t, i + 1, f);
        match and_expr(t, i + 1, f) {
            Some((r, j)) => if i < j <= t.len() {
                lemma_or_rest(t, j, binary(BinOp::Or, l, r), f);
            },
            None => {},
        }
    }
}

proof fn lemma_and_expr(t: Seq<TokV>, i: int, f: nat)
    requires
        0 <= i,
    ensures
        advances(and_expr(t, i, f), i, t.len() as int),
    decreases f, t.len() - i, 18int,
{
    lemma_not_expr(t, i, f);
    match not_expr(t, i, f) {
        Some((l, j)) => if i < j <= t.len() {
            lemma_and_rest(t, j, l, f);
        },
        None => {},
    }
}

proof fn lemma_and_rest(t: Seq<TokV>, i: int, l: SExpr, f: nat)
    requires
        0 <= i,
    ensures
        stays(and_rest(t, i, l, f), i, t.len() as int),
    decreases f, t.len() - i, 18int,
{
    if at(t, i, Token::And) {
        lemma_not_expr(t, i + 1, f);
        match not_expr(t, i + 1, f) {
            Some((r, j)) => if i < j <= t.len() {
                lemma_and_rest(t, j, binary(BinOp::And, l, r), f);
            },
            None => {},
        }
    }
}

proof fn lemma_not_expr(t: Seq<TokV>, i: int, f: nat)
    requires
        0 <= i,
    ensures
        advances(not_expr(t, i, f), i, t.len() as int),
    decreases f, t.len() - i, 17int,
{
    if at(t, i, Token::Not) {
        lemma_not_expr(t, i + 1, f);
    } else {
        lemma_comparison(t, i, f);
    }
}

proof fn lemma_comparison(t: Seq<TokV>, i: int, f: nat)
    requires
        0 <= i,
    ensures
        advances(comparison(t, i, f), i, t.len() as int),
    decreases f, t.len() - i, 16int,
{
    lemma_range_expr(t, i, f);
    match range_expr(t, i, f) {
        Some((l, j)) => if i < j <= t.len() {
            lemma_comparison_rest(t, j, l, f);
        },
        None => {},
    }
}

proof fn lemma_comparison_rest(t: Seq<TokV>, i: int, l: SExpr, f: nat)
    requires
        0 <= i,
    ensures
        stays(comparison_rest(t, i, l, f), i, t.len() as int),
    decreases f, t.len() - i, 16int,
{
    match relation_op(t, i) {
        Some(op) => {
            lemma_range_expr(t, i + 1, f);
            match range_expr(t, i + 1, f) {
                Some((r, j)) => if i < j <= t.len() {
                    lemma_comparison_rest(t, j, binary(op, l, r), f);
                },
                None => {},
            }
        },
        None => {},
    }
}

proof fn lemma_range_expr(t: Seq<TokV>, i: int, f: nat)
    requires
        0 <= i,
    ensures
        advances(range_expr(t, i, f), i, t.len() as int),
    decreases f, t.len() - i, 15int,
{
    lemma_sum(t, i, f);
    match sum(t, i, f) {
        Some((_, j)) => if (at(t, j, Token::DotDotEquals) || at(t, j, Token::DotDot)) && i < j {
            lemma_sum(t, j + 1, f);
        },
        None => {},
    }
}

proof fn lemma_sum(t: Seq<TokV>, i: int, f: nat)
    requires
        0 <= i,
    ensures
        advances(sum(t, i, f), i, t.len() as int),
    decreases f, t.len() - i, 14int,
{
    lemma_product(t, i, f);
    match product(t, i, f) {
        Some((l, j)) => if i < j <= t.len() {
            lemma_sum_rest(t, j, l, f);
        },
        None => {},
    }
}

proof fn lemma_sum_rest(t: Seq<TokV>, i: int, l: SExpr, f: nat)
    requires
        0 <= i,
    ensures
        stays(sum_rest(t, i, l, f), i, t.len() as int),
    decreases f, t.len() - i, 14int,
{
    match sum_op(t, i) {
        Some(op) => {
            lemma_product(t, i + 1, f);
            match product(t, i + 1, f) {
                Some((r, j)) => if i < j <= t.len() {
                    lemma_sum_rest(t, j, binary(op, l, r), f);
                },
                None => {},
            }
        },
        None => {},
    }
}

proof fn lemma_product(t: Seq<TokV>, i: int, f: nat)
    requires
        0 <= i,
    ensures
        advances(product(t, i, f), i, t.len() as int),
    decreases f, t.len() - i, 13int,
{
    lemma_prefix(t, i, f);
    match prefix(t, i, f) {
        Some((l, j)) => if i < j <= t.len() {
            lemma_product_rest(t, j, l, f);
        },
        None => {},
    }
}

proof fn lemma_product_rest(t: Seq<TokV>, i: int, l: SExpr, f: nat)
    requires
        0 <= i,
    ensures
        stays(product_rest(t, i, l, f), i, t.len() as int),
    decreases f, t.len() - i, 13int,
{
    match product_op(t, i) {
        Some(op) => {
            lemma_prefix(t, i + 1, f);
            match prefix(t, i + 1, f) {
                Some((r, j)) => if i < j <= t.len() {
                    lemma_product_rest(t, j, binary(op, l, r), f);
                },
                None => {},
            }
        },
        None => {},
    }
}

proof fn lemma_prefix(t: Seq<TokV>, i: int, f: nat)
    requires
        0 <= i,
    ensures
        advances(prefix(t, i, f), i, t.len() as int),
    decreases f, t.len() - i, 12int,
{
    if at(t, i, Token::Minus) || at(t, i, Token::Try) || at(t, i, Token::Bang) {
        lemma_prefix(t, i + 1, f);
    } else {
        lemma_postfix(t, i, f);
    }
}

proof fn lemma_postfix(t: Seq<TokV>, i: int, f: nat)
    requires
        0 <= i,
    ensures
        advances(postfix(t, i, f), i, t.len() as int),
    decreases f, t.len() - i, 11int,
{
    lemma_atom(t, i, f);
    match atom(t, i, f) {
        Some((a, j)) => if i < j <= t.len() {
            lemma_postfix_rest(t, j, a, f);
        },
        None => {},
    }
}

proof fn lemma_postfix_rest(t: Seq<TokV>, i: int, o: SExpr, f: nat)
    requires
        0 <= i,
    ensures
        stays(postfix_rest(t, i, o, f), i, t.len() as int),
    decreases f, t.len() - i, 11int,
{
    if at(t, i, Token::Dot) && ident_at(t, i + 1) is Some {
        let n = ident_at(t, i + 1)->0;
        lemma_call_args(t, i + 2, f);
        match call_args(t, i + 2, f) {
            Some((args, m)) => if i < m <= t.len() {
                lemma_postfix_rest(
                    t,
                    m,
                    SExpr { node: ExprV::MethodCall(Box::new(o), n, args), span: o.span },
                    f,
                );
            },
            None => {
                lemma_obj_fields(t, i + 2, f);
                match obj_fields(t, i + 2, f) {
                    Some((fs, m)) => if i < m <= t.len() {
                        lemma_postfix_rest(
                            t,
                            m,
                            SExpr {
                                node: ExprV::ObjLiteral(path_of(o.node).push(n), fs),
                                span: o.span,
                            },
                            f,
                        );
                    },
                    None => {
                        lemma_postfix_rest(
                            t,
                            i + 2,
                            SExpr { node: ExprV::FieldAccess(Box::new(o), n), span: o.span },
                            f,
                        );
                    },
                }
            },
        }
    } else if at(t, i, Token::LeftBracket) {
        lemma_expr(t, i + 1, f);
        match expr(t, i + 1, f) {
            Some((x, j)) => if i < j && at(t, j, Token::RightBracket) {
                lemma_postfix_rest(
                    t,
                    j + 1,
                    SExpr { node: ExprV::Index(Box::new(o), Box::new(x)), span: o.span },
                    f,
                );
            },
            None => {},
        }
    }
}

proof fn lemma_call_args(t: Seq<TokV>, i: int, f: nat)
    requires
        0 <= i,
    ensures
        advances(call_args(t, i, f), i, t.len() as int),
    decreases f, t.len() - i, 5int,
{
    if at(t, i, Token::LeftParen) {
        lemma_expr(t, i + 1, f);
        match expr(t, i + 1, f) {
            Some((e, j)) => if i < j <= t.len() {
                lemma_args_rest(t, j, seq![e], f);
            },
            None => {},
        }
    }
}

proof fn lemma_args_rest(t: Seq<TokV>, i: int, acc: Seq<SExpr>, f: nat)
    requires
        0 <= i,
    ensures
        advances(args_rest(t, i, acc, f), i, t.len() as int),
    decreases f, t.len() - i, 5int,
{
    if at(t, i, Token::Comma) && expr(t, i + 1, f) is Some && i < end_of(expr(t, i + 1, f))
        <= t.len() {
        let (e, j) = expr(t, i + 1, f)->0;
        lemma_args_rest(t, j, acc.push(e), f);
    }
}

proof fn lemma_obj_fields(t: Seq<TokV>, i: int, f: nat)
    requires
        0 <= i,
    ensures
        advances(obj_fields(t, i, f), i, t.len() as int),
    decreases f, t.len() - i, 5int,
{
    if at(t, i, Token::LeftCurly) {
        lemma_skip_nl(t, i + 1);
        lemma_field_items(t, skip_nl(t, i + 1), seq![], f);
    }
}

proof fn lemma_field_items(t: Seq<TokV>, i: int, acc: Seq<(Seq<char>, SExpr)>, f: nat)
    requires
        0 <= i,
    ensures
        advances(field_items(t, i, acc, f), i, t.len() as int),
    decreases f, t.len() - i, 4int,
{
    if ident_at(t, i) is Some && at(t, i + 1, Token::Colon) && expr(t, i + 2, f) is Some && i
        < end_of(expr(t, i + 2, f)) <= t.len() {
        let (e, j) = expr(t, i + 2, f)->0;
        let acc2 = acc.push((ident_at(t, i)->0, e));
        if at(t, j, Token::Comma) {
            lemma_skip_nl(t, j + 1);
            lemma_field_items(t, skip_nl(t, j + 1), acc2, f);
        } else {
            lemma_close_curly(t, j);
        }
    } else {
        lemma_close_curly(t, i);
    }
}

proof fn lemma_list_items(t: Seq<TokV>, i: int, acc: Seq<SExpr>, f: nat)
    requires
        0 <= i,
    ensures
        advances(list_items(t, i, acc, f), i, t.len() as int),
    decreases f, t.len() - i, 21int,
{
    if expr(t, i, f) is Some && i < end_of(expr(t, i, f)) <= t.len() {
        let (e, j) = expr(t, i, f)->0;
        if at(t, j, Token::Comma) {
            lemma_skip_nl(t, j + 1);
            lemma_list_items(t, skip_nl(t, j + 1), acc.push(e), f);
        } else {
            lemma_close_bracket(t, j);
        }
    } else {
        lemma_close_bracket(t, i);
    }
}

proof fn lemma_map_items(t: Seq<TokV>, i: int, acc: Seq<(SExpr, SExpr)>, f: nat)
    requires
        0 <= i,
    ensures
        advances(map_items(t, i, acc, f), i, t.len() as int),
    decreases f, t.len() - i, 21int,
{
    let key = expr(t, i, f);
    if key is Some && i < end_of(key) && at(t, end_of(key), Token::Colon) && expr(
        t,
        end_of(key) + 1,
        f,
    ) is Some && end_of(key) < end_of(expr(t, end_of(key) + 1, f)) <= t.len() {
        let (k, j) = key->0;
        let (v, m) = expr(t, j + 1, f)->0;
        if at(t, m, Token::Comma) {
            lemma_skip_nl(t, m + 1);
            lemma_map_items(t, skip_nl(t, m + 1), acc.push((k, v)), f);
        } else {
            lemma_close_curly(t, m);
        }
    } else {
        lemma_close_curly(t, i);
    }
}

proof fn lemma_ident_or_call(t: Seq<TokV>, i: int, f: nat)
    requires
        0 <= i,
    ensures
        advances(ident_or_call(t, i, f), i, t.len() as int),
    decreases f, t.len() - i, 9int,
{
    if ident_at(t, i) is Some {
        lemma_call_args(t, i + 1, f);
        let args = call_args(t, i + 1, f);
        let j = match args {
            Some((_, j)) => if i < j <= t.len() {
                j
            } else {
                i + 1
            },
            None => i + 1,
        };
        lemma_obj_fields(t, j, f);
    }
}

/// What `atom` reads before it checks its own stopping point.
proof fn lemma_atom(t: Seq<TokV>, i: int, f: nat)
    requires
        0 <= i,
    ensures
        advances(atom(t, i, f), i, t.len() as int),
    decreases f, t.len() - i, 10int,
{
    if 0 <= i < t.len() {
        lemma_skip_nl(t, i + 1);
        match t[i].0 {
            crate::grammar::Tok::Ident(_) => lemma_ident_or_call(t, i, f),
            crate::grammar::Tok::Fixed(Token::LeftParen) => lemma_expr(t, i + 1, f),
            crate::grammar::Tok::Fixed(Token::LeftBracket) => lemma_list_items(
                t,
                skip_nl(t, i + 1),
                seq![],
                f,
            ),
            crate::grammar::Tok::Fixed(Token::LeftCurly) => lemma_map_items(
                t,
                skip_nl(t, i + 1),
                seq![],
                f,
            ),
            _ => {},
        }
    }
}

proof fn lemma_block(t: Seq<TokV>, i: int, f: nat)
    requires
        0 <= i,
    ensures
        advances(block(t, i, f), i, t.len() as int),
    decreases f, t.len() - i, 23int,
{
    if at(t, i, Token::LeftCurly) {
        lemma_skip_nl(t, i + 1);
        lemma_block_items(t, skip_nl(t, i + 1), seq![], f);
    }
}

proof fn lemma_block_items(t: Seq<TokV>, i: int, acc: Seq<SStmt>, f: nat)
    requires
        0 <= i,
    ensures
        advances(block_items(t, i, acc, f), i, t.len() as int),
    decreases f, t.len() - i, 36int,
{
    lemma_stmt(t, i, f);
    match stmt(t, i, f) {
        Some((s, j)) => if i < j <= t.len() {
            lemma_skip_nl(t, j);
            lemma_block_items(t, skip_nl(t, j), acc.push(s), f);
        },
        None => lemma_close_curly(t, i),
    }
}

proof fn lemma_else_branch(t: Seq<TokV>, i: int, f: nat)
    requires
        0 <= i,
    ensures
        stays(else_branch(t, i, f), i, t.len() as int),
    decreases f, t.len() - i, 21int,
{
    if at(t, i, Token::Else) {
        lemma_block(t, i + 1, f);
    }
    if at(t, i, Token::Elif) {
        lemma_if_rest(t, i + 1, f);
    }
}

proof fn lemma_if_rest(t: Seq<TokV>, i: int, f: nat)
    requires
        0 <= i,
    ensures
        advances(if_rest(t, i, f), i, t.len() as int),
    decreases f, t.len() - i, 29int,
{
    lemma_if_let_rest(t, i, f);
    lemma_if_cond_rest(t, i, f);
}

proof fn lemma_if_let_rest(t: Seq<TokV>, i: int, f: nat)
    requires
        0 <= i,
    ensures
        advances(if_let_rest(t, i, f), i, t.len() as int),
    decreases f, t.len() - i, 28int,
{
    if at(t, i, Token::Let) && ident_at(t, i + 1) is Some && at(t, i + 2, Token::Equals) {
        lemma_expr(t, i + 3, f);
        match expr(t, i + 3, f) {
            Some((_, j)) => if i < j <= t.len() {
                lemma_block(t, j, f);
                match block(t, j, f) {
                    Some((_, k)) => if j < k <= t.len() {
                        lemma_else_branch(t, k, f);
                    },
                    None => {},
                }
            },
            None => {},
        }
    }
}

proof fn lemma_if_cond_rest(t: Seq<TokV>, i: int, f: nat)
    requires
        0 <= i,
    ensures
        advances(if_cond_rest(t, i, f), i, t.len() as int),
    decreases f, t.len() - i, 28int,
{
    lemma_expr(t, i, f);
    match expr(t, i, f) {
        Some((_, j)) => if i < j <= t.len() {
            lemma_block(t, j, f);
            match block(t, j, f) {
                Some((_, k)) => if j < k <= t.len() {
                    lemma_else_branch(t, k, f);
                },
                None => {},
            }
        },
        None => {},
    }
}

proof fn lemma_binding(t: Seq<TokV>, i: int, f: nat, mutable: bool)
    requires
        0 <= i,
    ensures
        advances(binding(t, i, f, mutable), i, t.len() as int),
    decreases f, t.len() - i, 34int,
{
    let k = if at(t, i, Token::Pub) {
        i + 1
    } else {
        i
    };
    let kw = if mutable {
        Token::Let
    } else {
        Token::Val
    };
    if at(t, k, kw) && ident_at(t, k + 1) is Some {
        lemma_opt_annotation(t, k + 2);
        let (_, j) = opt_annotation(t, k + 2);
        if i < j && at(t, j, Token::Equals) {
            lemma_expr(t, j + 1, f);
        }
    }
}

proof fn lemma_assignment(t: Seq<TokV>, i: int, f: nat)
    requires
        0 <= i,
    ensures
        advances(assignment(t, i, f), i, t.len() as int),
    decreases f, t.len() - i, 33int,
{
    lemma_postfix(t, i, f);
    match postfix(t, i, f) {
        Some((_, j)) => if i < j && at(t, j, Token::Equals) {
            lemma_expr(t, j + 1, f);
        },
        None => {},
    }
}

proof fn lemma_method(t: Seq<TokV>, i: int, f: nat)
    requires
        0 <= i,
    ensures
        advances(method(t, i, f), i, t.len() as int),
    decreases f, t.len() - i, 31int,
{
    let k = if at(t, i, Token::Pub) {
        i + 1
    } else {
        i
    };
    if at(t, k, Token::Fn) && ident_at(t, k + 1) is Some && params(t, k + 2) is Some {
        lemma_params(t, k + 2);
        let (_, j) = params(t, k + 2)->0;
        lemma_opt_return(t, j);
        let (_, j2) = opt_return(t, j);
        if i < j2 <= t.len() {
            lemma_block(t, j2, f);
        }
    }
}

proof fn lemma_obj_field(t: Seq<TokV>, i: int)
    requires
        0 <= i,
    ensures
        advances(obj_field(t, i), i, t.len() as int),
{
    let k = if at(t, i, Token::Pub) {
        i + 1
    } else {
        i
    };
    lemma_ty(t, k + 2);
}

proof fn lemma_obj_item(t: Seq<TokV>, i: int, f: nat)
    requires
        0 <= i,
    ensures
        advances(obj_item(t, i, f), i, t.len() as int),
    decreases f, t.len() - i, 32int,
{
    lemma_method(t, i, f);
    lemma_dotted(t, i + 1);
    lemma_obj_field(t, i);
}

proof fn lemma_obj_items(t: Seq<TokV>, i: int, acc: Seq<ItemV>, f: nat)
    requires
        0 <= i,
    ensures
        advances(obj_items(t, i, acc, f), i, t.len() as int),
    decreases f, t.len() - i, 37int,
{
    lemma_obj_item(t, i, f);
    match obj_item(t, i, f) {
        Some((x, j)) => if i < j <= t.len() {
            lemma_skip_nl(t, j);
            lemma_skip_nl(t, j + 1);
            let k = if at(t, j, Token::Comma) {
                skip_nl(t, j + 1)
            } else {
                skip_nl(t, j)
            };
            lemma_obj_items(t, k, acc.push(x), f);
        },
        None => lemma_close_curly(t, i),
    }
}

proof fn lemma_obj_def(t: Seq<TokV>, i: int, f: nat)
    requires
        0 <= i,
    ensures
        advances(obj_def(t, i, f), i, t.len() as int),
    decreases f, t.len() - i, 33int,
{
    let k = if at(t, i, Token::Pub) {
        i + 1
    } else {
        i
    };
    if at(t, k, Token::Obj) && ident_at(t, k + 1) is Some && at(t, k + 2, Token::LeftCurly) {
        lemma_skip_nl(t, k + 3);
        lemma_obj_items(t, skip_nl(t, k + 3), seq![], f);
    }
}

proof fn lemma_function(t: Seq<TokV>, i: int, f: nat)
    requires
        0 <= i,
    ensures
        advances(function(t, i, f), i, t.len() as int),
    decreases f, t.len() - i, 33int,
{
    let k = if at(t, i, Token::Pub) {
        i + 1
    } else {
        i
    };
    if at(t, k, Token::Fn) && ident_at(t, k + 1) is Some && params(t, k + 2) is Some {
        lemma_params(t, k + 2);
        let (_, j) = params(t, k + 2)->0;
        lemma_opt_return(t, j);
        let (_, j2) = opt_return(t, j);
        if i < j2 <= t.len() {
            lemma_block(t, j2, f);
        }
    }
}

proof fn lemma_import_stmt(t: Seq<TokV>, i: int)
    requires
        0 <= i,
    ensures
        advances(import_stmt(t, i), i, t.len() as int),
{
    lemma_dotted(t, i + 1);
}

proof fn lemma_return_stmt(t: Seq<TokV>, i: int, f: nat)
    requires
        0 <= i,
    ensures
        advances(return_stmt(t, i, f), i, t.len() as int),
    decreases f, t.len() - i, 33int,
{
    if at(t, i, Token::Rn) {
        lemma_expr(t, i + 1, f);
    }
}

proof fn lemma_unless_stmt(t: Seq<TokV>, i: int, f: nat)
    requires
        0 <= i,
    ensures
        advances(unless_stmt(t, i, f), i, t.len() as int),
    decreases f, t.len() - i, 33int,
{
    if at(t, i, Token::Unless) {
        lemma_expr(t, i + 1, f);
        match expr(t, i + 1, f) {
            Some((_, j)) => if i < j <= t.len() {
                lemma_block(t, j, f);
                match block(t, j, f) {
                    Some((_, k)) => if j < k <= t.len() {
                        if at(t, k, Token::Else) {
                            lemma_block(t, k + 1, f);
                        }
                    },
                    None => {},
                }
            },
            None => {},
        }
    }
}

proof fn lemma_while_stmt(t: Seq<TokV>, i: int, f: nat)
    requires
        0 <= i,
    ensures
        advances(while_stmt(t, i, f), i, t.len() as int),
    decreases f, t.len() - i, 33int,
{
    if at(t, i, Token::While) {
        lemma_expr(t, i + 1, f);
        match expr(t, i + 1, f) {
            Some((_, j)) => if i < j <= t.len() {
                lemma_block(t, j, f);
            },
            None => {},
        }
    }
}

proof fn lemma_for_stmt(t: Seq<TokV>, i: int, f: nat)
    requires
        0 <= i,
    ensures
        advances(for_stmt(t, i, f), i, t.len() as int),
    decreases f, t.len() - i, 33int,
{
    if at(t, i, Token::For) && ident_at(t, i + 1) is Some && at(t, i + 2, Token::In) {
        lemma_expr(t, i + 3, f);
        match expr(t, i + 3, f) {
            Some((_, j)) => if i < j <= t.len() {
                lemma_block(t, j, f);
            },
            None => {},
        }
    }
}

proof fn lemma_test_stmt(t: Seq<TokV>, i: int, f: nat)
    requires
        0 <= i,
    ensures
        advances(test_stmt(t, i, f), i, t.len() as int),
    decreases f, t.len() - i, 33int,
{
    if at(t, i, Token::Test) && 0 <= i + 1 < t.len() && t[i + 1].0 is Str {
        lemma_block(t, i + 2, f);
    }
}

proof fn lemma_assert_stmt(t: Seq<TokV>, i: int, f: nat)
    requires
        0 <= i,
    ensures
        advances(assert_stmt(t, i, f), i, t.len() as int),
    decreases f, t.len() - i, 33int,
{
    if at(t, i, Token::Assert) && at(t, i + 1, Token::LeftParen) {
        lemma_expr(t, i + 2, f);
    }
}

proof fn lemma_keyword_stmt(t: Seq<TokV>, i: int, f: nat)
    requires
        0 <= i,
    ensures
        advances(keyword_stmt(t, i, f), i, t.len() as int),
    decreases f, t.len() - i, 34int,
{
    if at(t, i, Token::Import) {
        lemma_import_stmt(t, i);
    } else if at(t, i, Token::Rn) {
        lemma_return_stmt(t, i, f);
    } else if at(t, i, Token::If) {
        lemma_if_rest(t, i + 1, f);
    } else {
        lemma_unless_stmt(t, i, f);
        lemma_while_stmt(t, i, f);
        lemma_for_stmt(t, i, f);
        lemma_test_stmt(t, i, f);
        lemma_assert_stmt(t, i, f);
    }
}

proof fn lemma_stmt(t: Seq<TokV>, i: int, f: nat)
    requires
        0 <= i,
    ensures
        advances(stmt(t, i, f), i, t.len() as int),
    decreases f, t.len() - i, 35int,
{
    lemma_binding(t, i, f, true);
    lemma_assignment(t, i, f);
    lemma_binding(t, i, f, false);
    lemma_obj_def(t, i, f);
    lemma_function(t, i, f);
    lemma_keyword_stmt(t, i, f);
    lemma_block(t, i, f);
    lemma_expr(t, i, f);
}

proof fn lemma_top_items(t: Seq<TokV>, i: int, acc: Seq<SStmt>, f: nat)
    requires
        0 <= i,
    ensures
        stays(top_items(t, i, acc, f), i, t.len() as int),
    decreases f, t.len() - i, 40int,
{
    lemma_stmt(t, i, f);
    match stmt(t, i, f) {
        Some((s, j)) => if i < j <= t.len() {
            lemma_skip_nl(t, j);
            let k = skip_nl(t, j);
            if j < k {
                lemma_top_items(t, k, acc.push(s), f);
            }
        },
        None => {},
    }
}

/// Every production of the grammar that succeeds at a position `i` consumes
/// at least one token and stops within the tokens, and every loop over
/// repeated parts stops at or after where it began (within the tokens when
/// it began within them). Each check `i < j` or `j <= t.len()` that the
/// grammar makes on what a production or a loop returned therefore holds
/// whenever it is made: the checks never turn a parse away.
pub proof fn productions_advance(t: Seq<TokV>, i: int, f: nat)
    requires
        0 <= i,
    ensures
        advances(ty(t, i), i, t.len() as int),
        advances(ty_base(t, i), i, t.len() as int),
        advances(dotted(t, i), i, t.len() as int),
        advances(param(t, i), i, t.len() as int),
        advances(params(t, i), i, t.len() as int),
        advances(expr(t, i, f), i, t.len() as int),
        advances(or_expr(t, i, f), i, t.len() as int),
        advances(and_expr(t, i, f), i, t.len() as int),
        advances(not_expr(t, i, f), i, t.len() as int),
        advances(comparison(t, i, f), i, t.len() as int),
        advances(range_expr(t, i, f), i, t.len() as int),
        advances(sum(t, i, f), i, t.len() as int),
        advances(product(t, i, f), i, t.len() as int),
        advances(prefix(t, i, f), i, t.len() as int),
        advances(postfix(t, i, f), i, t.len() as int),
        advances(call_args(t, i, f), i, t.len() as int),
        advances(obj_fields(t, i, f), i, t.len() as int),
        advances(ident_or_call(t, i, f), i, t.len() as int),
        advances(atom(t, i, f), i, t.len() as int),
        advances(block(t, i, f), i, t.len() as int),
        advances(if_rest(t, i, f), i, t.len() as int),
        advances(if_let_rest(t, i, f), i, t.len() as int),
        advances(if_cond_rest(t, i, f), i, t.len() as int),
        advances(binding(t, i, f, true), i, t.len() as int),
        advances(binding(t, i, f, false), i, t.len() as int),
        advances(assignment(t, i, f), i, t.len() as int),
        advances(method(t, i, f), i, t.len() as int),
        advances(obj_field(t, i), i, t.len() as int),
        advances(obj_item(t, i, f), i, t.len() as int),
        advances(obj_def(t, i, f), i, t.len() as int),
        advances(function(t, i, f), i, t.len() as int),
        advances(import_stmt(t, i), i, t.len() as int),
        advances(return_stmt(t, i, f), i, t.len() as int),
        advances(unless_stmt(t, i, f), i, t.len() as int),
        advances(while_stmt(t, i, f), i, t.len() as int),
        advances(for_stmt(t, i, f), i, t.len() as int),
        advances(test_stmt(t, i, f), i, t.len() as int),
        advances(assert_stmt(t, i, f), i, t.len() as int),
        advances(keyword_stmt(t, i, f), i, t.len() as int),
        advances(stmt(t, i, f), i, t.len() as int),
        stays(else_branch(t, i, f), i, t.len() as int),
        stays(opt_annotation(t, i), i, t.len() as int),
        stays(opt_return(t, i), i, t.len() as int),
        close_curly(t, i) is Some ==> i < close_curly(t, i)->0 <= t.len(),
        close_bracket(t, i) is Some ==> i < close_bracket(t, i)->0 <= t.len(),
        forall|l: SExpr| #[trigger] stays(coalesce_rest(t, i, l, f), i, t.len() as int),
        forall|l: SExpr| #[trigger] stays(or_rest(t, i, l, f), i, t.len() as int),
        forall|l: SExpr| #[trigger] stays(and_rest(t, i, l, f), i, t.len() as int),
        forall|l: SExpr| #[trigger] stays(comparison_rest(t, i, l, f), i, t.len() as int),
        forall|l: SExpr| #[trigger] stays(sum_rest(t, i, l, f), i, t.len() as int),
        forall|l: SExpr| #[trigger] stays(product_rest(t, i, l, f), i, t.len() as int),
        forall|l: SExpr| #[trigger] stays(postfix_rest(t, i, l, f), i, t.len() as int),
        forall|acc: Seq<crate::ast::ParamV>| #[trigger] advances(params_rest(t, i, acc), i, t.len() as int),
        forall|acc: Seq<SExpr>| #[trigger] advances(args_rest(t, i, acc, f), i, t.len() as int),
        forall|acc: Seq<(Seq<char>, SExpr)>| #[trigger] advances(field_items(t, i, acc, f), i, t.len() as int),
        forall|acc: Seq<SExpr>| #[trigger] advances(list_items(t, i, acc, f), i, t.len() as int),
        forall|acc: Seq<(SExpr, SExpr)>| #[trigger] advances(map_items(t, i, acc, f), i, t.len() as int),
        forall|acc: Seq<SStmt>| #[trigger] advances(block_items(t, i, acc, f), i, t.len() as int),
        forall|acc: Seq<ItemV>| #[trigger] advances(obj_items(t, i, acc, f), i, t.len() as int),
        forall|acc: Seq<SStmt>| #[trigger] stays(top_items(t, i, acc, f), i, t.len() as int),
{
    lemma_ty(t, i);
    lemma_ty_base(t, i);
    lemma_dotted(t, i);
    lemma_param(t, i);
    lemma_params(t, i);
    lemma_expr(t, i, f);
    lemma_or_expr(t, i, f);
    lemma_and_expr(t, i, f);
    lemma_not_expr(t, i, f);
    lemma_comparison(t, i, f);
    lemma_range_expr(t, i, f);
    lemma_sum(t, i, f);
    lemma_product(t, i, f);
    lemma_prefix(t, i, f);
    lemma_postfix(t, i, f);
    lemma_call_args(t, i, f);
    lemma_obj_fields(t, i, f);
    lemma_ident_or_call(t, i, f);
    lemma_atom(t, i, f);
    lemma_block(t, i, f);
    lemma_if_rest(t, i, f);
    lemma_if_let_rest(t, i, f);
    lemma_if_cond_rest(t, i, f);
    lemma_binding(t, i, f, true);
    lemma_binding(t, i, f, false);
    lemma_assignment(t, i, f);
    lemma_method(t, i, f);
    lemma_obj_field(t, i);
    lemma_obj_item(t, i, f);
    lemma_obj_def(t, i, f);
    lemma_function(t, i, f);
    lemma_import_stmt(t, i);
    lemma_return_stmt(t, i, f);
    lemma_unless_stmt(t, i, f);
    lemma_while_stmt(t, i, f);
    lemma_for_stmt(t, i, f);
    lemma_test_stmt(t, i, f);
    lemma_assert_stmt(t, i, f);
    lemma_keyword_stmt(t, i, f);
    lemma_stmt(t, i, f);
    lemma_else_branch(t, i, f);
    lemma_opt_annotation(t, i);
    lemma_opt_return(t, i);
    lemma_close_curly(t, i);
    lemma_close_bracket(t, i);
    assert forall|l: SExpr| #[trigger] stays(coalesce_rest(t, i, l, f), i, t.len() as int) by {
        lemma_coalesce_rest(t, i, l, f);
    }
    assert forall|l: SExpr| #[trigger] stays(or_rest(t, i, l, f), i, t.len() as int) by {
        lemma_or_rest(t, i, l, f);
    }
    assert forall|l: SExpr| #[trigger] stays(and_rest(t, i, l, f), i, t.len() as int) by {
        lemma_and_rest(t, i, l, f);
    }
    assert forall|l: SExpr| #[trigger] stays(comparison_rest(t, i, l, f), i, t.len() as int) by {
        lemma_comparison_rest(t, i, l, f);
    }
    assert forall|l: SExpr| #[trigger] stays(sum_rest(t, i, l, f), i, t.len() as int) by {
        lemma_sum_rest(t, i, l, f);
    }
    assert forall|l: SExpr| #[trigger] stays(product_rest(t, i, l, f), i, t.len() as int) by {
        lemma_product_rest(t, i, l, f);
    }
    assert forall|l: SExpr| #[trigger] stays(postfix_rest(t, i, l, f), i, t.len() as int) by {
        lemma_postfix_rest(t, i, l, f);
    }
    assert forall|acc: Seq<crate::ast::ParamV>| #[trigger] advances(params_rest(t, i, acc), i, t.len() as int) by {
        lemma_params_rest(t, i, acc);
    }
    assert forall|acc: Seq<SExpr>| #[trigger] advances(args_rest(t, i, acc, f), i, t.len() as int) by {
        lemma_args_rest(t, i, acc, f);
    }
    assert forall|acc: Seq<(Seq<char>, SExpr)>| #[trigger] advances(field_items(t, i, acc, f), i, t.len() as int) by {
        lemma_field_items(t, i, acc, f);
    }
    assert forall|acc: Seq<SExpr>| #[trigger] advances(list_items(t, i, acc, f), i, t.len() as int) by {
        lemma_list_items(t, i, acc, f);
    }
    assert forall|acc: Seq<(SExpr, SExpr)>| #[trigger] advances(map_items(t, i, acc, f), i, t.len() as int) by {
        lemma_map_items(t, i, acc, f);
    }
    assert forall|acc: Seq<SStmt>| #[trigger] advances(block_items(t, i, acc, f), i, t.len() as int) by {
        lemma_block_items(t, i, acc, f);
    }
    assert forall|acc: Seq<ItemV>| #[trigger] advances(obj_items(t, i, acc, f), i, t.len() as int) by {
        lemma_obj_items(t, i, acc, f);
    }
    assert forall|acc: Seq<SStmt>| #[trigger] stays(top_items(t, i, acc, f), i, t.len() as int) by {
        lemma_top_items(t, i, acc, f);
    }
}

} // verus!
