//! The compiler: it lowers the syntax tree to the bytecode of
//! [`crate::vm`]. The lowering is stated as spec functions over the view of
//! the tree ([`lower_expr`], [`lower_stmt`], [`lower_program`]), threading
//! what has been emitted so far; the compiler is proved to emit exactly
//! that.
//!
//! What the machine runs is integers and booleans, locals, arithmetic,
//! comparisons, `print`, functions, `if`, `unless`, `while` with `break`
//! and `continue`, and `rn`. Expressions are typed as they are compiled,
//! and bindings, assignments, conditions and assertions are checked
//! against those types. Object types are laid out (the fields of their
//! `use` clauses in order, then their own) and registered, and object
//! literals are checked against them; the machine has no objects, so a
//! literal, a method body, and any other construct it cannot run is
//! reported as a compile error at its span.
use std::ops::Range;
use vstd::prelude::*;

use crate::ast::{
    expr_v, exprs_v, lemma_exprs_push, lemma_stmts_push, span_v, stmt_v, stmts_v, BinOp,
    ExprV, Expression, Param, ParamV, SExpr, SStmt, Spanned, Statement, StmtV, UnaryOp, params_v,
    fields_v, methods_v, paths_v, strs_v, FieldV, MethodV, ObjField, ObjMethod,
};
use crate::errors::OrynError;
use crate::tables::{immutability_error, immutability_message, BindingKind};
use crate::text::{push_str, str_eq};
use crate::types::{compatible, display, CompiledFunction, ListMethod, ResolvedType, TypeView};
use crate::ast::{type_v, TypeAnnotation, TypeV};
use crate::text::join_with;
use crate::grammar::{lemma_tok_text, program, program_stop, product_op, relation_op, sum_op, tokens_of, toks_v, Tok, TokV};
use crate::lexer::{lex, lexemes, Token};
use crate::parser::{fuel_for, lemma_tokens_of, parse};
use crate::vm::{
    check_errors_match, div_trunc, divide, frame_code, next, step_panics, step_spec, Chunk,
    Instruction, MachineState, StepView, Value,
};
use vstd::utf8::encode_utf8;

verus! {

// ---------------------------------------------------------------------------
// The view of what is emitted
// ---------------------------------------------------------------------------

/// An instruction, with indices as integers and names as text.
pub enum Op {
    PushBool(bool),
    PushInt(i32),
    GetLocal(int),
    SetLocal(int),
    Return,
    Equal,
    NotEqual,
    LessThan,
    GreaterThan,
    LessThanEquals,
    GreaterThanEquals,
    And,
    Or,
    Not,
    Add,
    Sub,
    Mul,
    Div,
    Call(int, int),
    CallBuiltin(Seq<char>, int),
    Pop,
    JumpIfFalse(int),
    Jump(int),
}

pub open spec fn op_v(i: Instruction) -> Op {
    match i {
        Instruction::PushBool(b) => Op::PushBool(b),
        Instruction::PushInt(n) => Op::PushInt(n),
        Instruction::GetLocal(k) => Op::GetLocal(k as int),
        Instruction::SetLocal(k) => Op::SetLocal(k as int),
        Instruction::Return => Op::Return,
        Instruction::Equal => Op::Equal,
        Instruction::NotEqual => Op::NotEqual,
        Instruction::LessThan => Op::LessThan,
        Instruction::GreaterThan => Op::GreaterThan,
        Instruction::LessThanEquals => Op::LessThanEquals,
        Instruction::GreaterThanEquals => Op::GreaterThanEquals,
        Instruction::And => Op::And,
        Instruction::Or => Op::Or,
        Instruction::Not => Op::Not,
        Instruction::Add => Op::Add,
        Instruction::Sub => Op::Sub,
        Instruction::Mul => Op::Mul,
        Instruction::Div => Op::Div,
        Instruction::Call(f, n) => Op::Call(f as int, n as int),
        Instruction::CallBuiltin(name, n) => Op::CallBuiltin(name@, n as int),
        Instruction::Pop => Op::Pop,
        Instruction::JumpIfFalse(t) => Op::JumpIfFalse(t as int),
        Instruction::Jump(t) => Op::Jump(t as int),
    }
}

pub open spec fn code_v(s: Seq<Instruction>) -> Seq<Op> {
    s.map_values(|i: Instruction| op_v(i))
}

pub open spec fn spans_v(s: Seq<Range<usize>>) -> Seq<(int, int)> {
    s.map_values(|r: Range<usize>| span_v(r))
}

/// A compiled function: its name, parameter names, code with spans, and
/// metadata.
pub struct FuncV {
    pub name: Seq<char>,
    pub arity: int,
    pub params: Seq<Seq<char>>,
    pub param_types: Seq<TypeView>,
    pub return_type: Option<TypeView>,
    pub num_locals: int,
    pub code: Seq<Op>,
    pub spans: Seq<(int, int)>,
    pub is_pub: bool,
}

pub open spec fn func_v(f: CompiledFunction) -> FuncV {
    FuncV {
        name: f.name@,
        arity: f.arity as int,
        params: f.params@.map_values(|p: String| p@),
        param_types: f.param_types@.map_values(|t: ResolvedType| t@),
        return_type: match f.return_type {
            Some(t) => Some(t@),
            None => None,
        },
        num_locals: f.num_locals as int,
        code: code_v(f.instructions@),
        spans: spans_v(f.spans@),
        is_pub: f.is_pub,
    }
}

pub open spec fn funcs_v(s: Seq<CompiledFunction>) -> Seq<FuncV> {
    s.map_values(|f: CompiledFunction| func_v(f))
}

/// A compile error: its span and message.
pub open spec fn err_v(e: OrynError) -> ((int, int), Seq<char>) {
    match e {
        OrynError::Compiler { span, message } => (span_v(span), message@),
        _ => ((-1, -1), Seq::empty()),
    }
}

pub open spec fn errs_v(s: Seq<OrynError>) -> Seq<((int, int), Seq<char>)> {
    s.map_values(|e: OrynError| err_v(e))
}

/// Everything emitted so far, and the locals in scope (the slot of a
/// local is its position).
pub struct Emitted {
    pub code: Seq<Op>,
    pub spans: Seq<(int, int)>,
    pub funcs: Seq<FuncV>,
    pub errs: Seq<((int, int), Seq<char>)>,
    pub scope: Seq<(Seq<char>, BindingKind, TypeView)>,
    /// The loops being compiled, innermost last: where `continue` jumps,
    /// and the `break` jumps still to be pointed past the loop.
    pub loops: Seq<(int, Seq<int>)>,
    /// The object types defined so far, each with its fields in slot
    /// order.
    pub objs: Seq<(Seq<char>, Seq<Seq<char>>)>,
}

// ---------------------------------------------------------------------------
// The lowering
// ---------------------------------------------------------------------------

pub open spec fn emit(s: Emitted, op: Op, span: (int, int)) -> Emitted {
    Emitted { code: s.code.push(op), spans: s.spans.push(span), ..s }
}

pub open spec fn fail(s: Emitted, span: (int, int), message: Seq<char>) -> Emitted {
    Emitted { errs: s.errs.push((span, message)), ..s }
}

/// The slot of the innermost local named `name`.
pub open spec fn find_local(scope: Seq<(Seq<char>, BindingKind, TypeView)>, name: Seq<char>) -> Option<int>
    decreases scope.len(),
{
    if scope.len() == 0 {
        None
    } else if scope.last().0 == name {
        Some(scope.len() - 1)
    } else {
        find_local(scope.drop_last(), name)
    }
}

/// The index of the latest function named `name`.
pub open spec fn find_fn(funcs: Seq<FuncV>, name: Seq<char>) -> Option<int>
    decreases funcs.len(),
{
    if funcs.len() == 0 {
        None
    } else if funcs.last().name == name {
        Some(funcs.len() - 1)
    } else {
        find_fn(funcs.drop_last(), name)
    }
}

pub open spec fn binop(op: BinOp) -> Op {
    match op {
        BinOp::Equals => Op::Equal,
        BinOp::NotEquals => Op::NotEqual,
        BinOp::LessThan => Op::LessThan,
        BinOp::GreaterThan => Op::GreaterThan,
        BinOp::LessThanEquals => Op::LessThanEquals,
        BinOp::GreaterThanEquals => Op::GreaterThanEquals,
        BinOp::And => Op::And,
        BinOp::Or => Op::Or,
        BinOp::Add => Op::Add,
        BinOp::Sub => Op::Sub,
        BinOp::Mul => Op::Mul,
        BinOp::Div => Op::Div,
    }
}

pub open spec fn undefined_variable(name: Seq<char>) -> Seq<char> {
    "undefined variable `"@ + name + "`"@
}

pub open spec fn undefined_function(name: Seq<char>) -> Seq<char> {
    "undefined function `"@ + name + "`"@
}

pub open spec fn unsupported_expression() -> Seq<char> {
    "this expression is not supported by the virtual machine"@
}

pub open spec fn unsupported_statement() -> Seq<char> {
    "this statement is not supported by the virtual machine"@
}


/// A value known at compile time.
#[derive(Clone, Copy)]
pub enum Folded {
    Int(i32),
    Bool(bool),
}

/// `v` as an `i32` constant, or nothing when it overflows.
pub open spec fn int_const(v: int) -> Option<Folded> {
    if i32::MIN <= v <= i32::MAX {
        Some(Folded::Int(v as i32))
    } else {
        None
    }
}

/// The value of a binary operator on two constants, when it has one:
/// integer arithmetic that does not overflow or divide by zero, and
/// comparisons of integers and of booleans.
pub open spec fn fold_binary(op: BinOp, l: Folded, r: Folded) -> Option<Folded> {
    match (l, r) {
        (Folded::Int(a), Folded::Int(b)) => match op {
            BinOp::Add => int_const(a + b),
            BinOp::Sub => int_const(a - b),
            BinOp::Mul => int_const(a * b),
            BinOp::Div => if b == 0 {
                None
            } else {
                int_const(div_trunc(a as int, b as int))
            },
            BinOp::Equals => Some(Folded::Bool(a == b)),
            BinOp::NotEquals => Some(Folded::Bool(a != b)),
            BinOp::LessThan => Some(Folded::Bool(a < b)),
            BinOp::GreaterThan => Some(Folded::Bool(a > b)),
            BinOp::LessThanEquals => Some(Folded::Bool(a <= b)),
            BinOp::GreaterThanEquals => Some(Folded::Bool(a >= b)),
            _ => None,
        },
        (Folded::Bool(a), Folded::Bool(b)) => match op {
            BinOp::Equals => Some(Folded::Bool(a == b)),
            BinOp::NotEquals => Some(Folded::Bool(a != b)),
            _ => None,
        },
        _ => None,
    }
}

/// The value of an expression made of constants, when the compiler can
/// compute it: `and` and `or` stop at a deciding left operand, integer
/// arithmetic gives up on overflow and division by zero.
pub open spec fn fold(e: SExpr) -> Option<Folded>
    decreases e,
{
    match e.node {
        ExprV::True => Some(Folded::Bool(true)),
        ExprV::False => Some(Folded::Bool(false)),
        ExprV::Int(n) => Some(Folded::Int(n)),
        ExprV::Unary(UnaryOp::Not, x) => match fold(*x) {
            Some(Folded::Bool(v)) => Some(Folded::Bool(!v)),
            _ => None,
        },
        ExprV::Unary(UnaryOp::Negate, x) => match fold(*x) {
            Some(Folded::Int(v)) => int_const(-v),
            _ => None,
        },
        ExprV::Binary(BinOp::And, l, r) => match fold(*l) {
            Some(Folded::Bool(false)) => Some(Folded::Bool(false)),
            Some(Folded::Bool(true)) => match fold(*r) {
                Some(Folded::Bool(v)) => Some(Folded::Bool(v)),
                _ => None,
            },
            _ => None,
        },
        ExprV::Binary(BinOp::Or, l, r) => match fold(*l) {
            Some(Folded::Bool(true)) => Some(Folded::Bool(true)),
            Some(Folded::Bool(false)) => match fold(*r) {
                Some(Folded::Bool(v)) => Some(Folded::Bool(v)),
                _ => None,
            },
            _ => None,
        },
        ExprV::Binary(op, l, r) => match (fold(*l), fold(*r)) {
            (Some(a), Some(b)) => fold_binary(op, a, b),
            _ => None,
        },
        _ => None,
    }
}

pub open spec fn push_folded(v: Folded) -> Op {
    match v {
        Folded::Int(n) => Op::PushInt(n),
        Folded::Bool(b) => Op::PushBool(b),
    }
}

/// The code of an expression: a constant when [`fold`] computes it, else
/// [`lower_node`].
pub open spec fn lower_expr(e: SExpr, s: Emitted) -> Emitted
    decreases e, 1int,
{
    match fold(e) {
        Some(v) => emit(s, push_folded(v), e.span),
        None => lower_node(e, s),
    }
}

/// The type of an expression: what the compiler infers from literals,
/// the declared or inferred types of locals, and operators (arithmetic
/// has the type of its left operand, comparisons and logic are `bool`).
pub open spec fn type_of(e: SExpr, scope: Seq<(Seq<char>, BindingKind, TypeView)>) -> TypeView
    decreases e,
{
    match e.node {
        ExprV::True => TypeView::Bool,
        ExprV::False => TypeView::Bool,
        ExprV::Int(_) => TypeView::Int,
        ExprV::Float(_) => TypeView::Float,
        ExprV::Str(_) => TypeView::Str,
        ExprV::Interp(_) => TypeView::Str,
        ExprV::Nil => TypeView::Nil,
        ExprV::Ident(n) => match find_local(scope, n) {
            Some(k) => scope[k].2,
            None => TypeView::Unknown,
        },
        ExprV::Unary(UnaryOp::Not, _) => TypeView::Bool,
        ExprV::Unary(UnaryOp::Negate, x) => type_of(*x, scope),
        ExprV::Binary(op, l, _) => if op is Add || op is Sub || op is Mul || op is Div {
            type_of(*l, scope)
        } else {
            TypeView::Bool
        },
        ExprV::List(xs) => if xs.len() == 0 {
            TypeView::List(Box::new(TypeView::Unknown))
        } else {
            TypeView::List(Box::new(type_of(xs[0], scope)))
        },
        _ => TypeView::Unknown,
    }
}

/// The message of a type check that failed.
pub open spec fn mismatch(what: Seq<char>, expected: TypeView, actual: TypeView) -> Seq<char> {
    what + ": expected `"@ + display(expected) + "`, got `"@ + display(actual) + "`"@
}

/// `s` with an error when `actual` does not fit `expected`.
pub open spec fn check_types(
    s: Emitted,
    expected: TypeView,
    actual: TypeView,
    span: (int, int),
    what: Seq<char>,
) -> Emitted {
    if compatible(expected, actual) {
        s
    } else {
        fail(s, span, mismatch(what, expected, actual))
    }
}

/// The type a written annotation names, or why it names none.
/// The last type named `name` among the object types defined so far.
pub open spec fn find_obj(objs: Seq<(Seq<char>, Seq<Seq<char>>)>, name: Seq<char>) -> Option<int>
    decreases objs.len(),
{
    if objs.len() == 0 {
        None
    } else if objs.last().0 == name {
        Some(objs.len() - 1)
    } else {
        find_obj(objs.drop_last(), name)
    }
}

pub open spec fn resolve_ann(t: TypeV, objs: Seq<(Seq<char>, Seq<Seq<char>>)>) -> Result<TypeView, Seq<char>>
    decreases t,
{
    match t {
        TypeV::Named(p) => if p.len() == 1 {
            if p[0] == "int"@ {
                Ok(TypeView::Int)
            } else if p[0] == "float"@ {
                Ok(TypeView::Float)
            } else if p[0] == "bool"@ {
                Ok(TypeView::Bool)
            } else if p[0] == "string"@ {
                Ok(TypeView::Str)
            } else if p[0] == "range"@ {
                Ok(TypeView::Range)
            } else if find_obj(objs, p[0]) is Some {
                Ok(TypeView::Object { name: p[0], module: seq![] })
            } else {
                Err("undefined type `"@ + p[0] + "`"@)
            }
        } else if p.len() == 0 {
            Err("empty type path"@)
        } else {
            Err("undefined module `"@ + join_with(p.drop_last(), "."@) + "`"@)
        },
        TypeV::Nillable(x) => match resolve_ann(*x, objs) {
            Ok(v) => Ok(TypeView::Nillable(Box::new(v))),
            Err(m) => Err(m),
        },
        TypeV::ErrorUnion(x) => match resolve_ann(*x, objs) {
            Ok(v) => Ok(TypeView::ErrorUnion(Box::new(v))),
            Err(m) => Err(m),
        },
        TypeV::List(x) => match resolve_ann(*x, objs) {
            Ok(v) => Ok(TypeView::List(Box::new(v))),
            Err(m) => Err(m),
        },
        TypeV::MapOf(_, _) => Ok(TypeView::Unknown),
    }
}

pub open spec fn logic_operand() -> Seq<char> {
    "logical operand must be `bool`"@
}

pub open spec fn empty_list_message() -> Seq<char> {
    "cannot infer element type of empty list literal; add a type annotation like `let xs: [int] = []`"@
}

pub open spec fn unknown_list_method(name: Seq<char>) -> Seq<char> {
    "unknown list method `"@ + name + "`"@
}

/// The field names of an object literal, in the order written.
pub open spec fn lit_names(lit: Seq<(Seq<char>, SExpr)>) -> Seq<Seq<char>> {
    lit.map_values(|p: (Seq<char>, SExpr)| p.0)
}

/// The fields of a literal of type `t` checked in the order written: a
/// name given twice, and a name the type does not have, are errors.
pub open spec fn check_lit_fields(
    s: Emitted,
    ns: Seq<Seq<char>>,
    def: Seq<Seq<char>>,
    t: Seq<char>,
    span: (int, int),
) -> Emitted
    decreases ns.len(),
{
    if ns.len() == 0 {
        s
    } else {
        let s1 = check_lit_fields(s, ns.drop_last(), def, t, span);
        let f = ns.last();
        let s2 = if ns.drop_last().contains(f) {
            fail(s1, span, "duplicate field `"@ + f + "` in `"@ + t + "` literal"@)
        } else {
            s1
        };
        if def.contains(f) {
            s2
        } else {
            fail(s2, span, "unknown field `"@ + f + "` on type `"@ + t + "`"@)
        }
    }
}

/// The fields of type `t` in slot order that a literal leaves out.
pub open spec fn check_missing(
    s: Emitted,
    ns: Seq<Seq<char>>,
    def: Seq<Seq<char>>,
    t: Seq<char>,
    span: (int, int),
) -> Emitted
    decreases def.len(),
{
    if def.len() == 0 {
        s
    } else {
        let s1 = check_missing(s, ns, def.drop_last(), t, span);
        if ns.contains(def.last()) {
            s1
        } else {
            fail(s1, span, "missing field `"@ + def.last() + "` in `"@ + t + "` literal"@)
        }
    }
}

/// An object literal: its type resolved and its fields checked against
/// the type's; the machine has no objects, so it is refused after that.
pub open spec fn lower_obj_literal(p: Seq<Seq<char>>, lit: Seq<(Seq<char>, SExpr)>, span: (int, int), s: Emitted) -> Emitted {
    if p.len() == 1 {
        match find_obj(s.objs, p[0]) {
            Some(k) => fail(
                check_missing(
                    check_lit_fields(s, lit_names(lit), s.objs[k].1, p[0], span),
                    lit_names(lit),
                    s.objs[k].1,
                    p[0],
                    span,
                ),
                span,
                unsupported_expression(),
            ),
            None => fail(s, span, "undefined type `"@ + p[0] + "`"@),
        }
    } else if p.len() == 0 {
        fail(s, span, "empty type path"@)
    } else {
        fail(s, span, "undefined module `"@ + join_with(p.drop_last(), "."@) + "`"@)
    }
}

/// The code of an expression that does not fold: operands left to right,
/// then the operator; its value is left on the stack.
pub open spec fn lower_node(e: SExpr, s: Emitted) -> Emitted
    decreases e, 0int,
{
    match e.node {
        ExprV::True => emit(s, Op::PushBool(true), e.span),
        ExprV::False => emit(s, Op::PushBool(false), e.span),
        ExprV::Int(n) => emit(s, Op::PushInt(n), e.span),
        ExprV::Ident(n) => match find_local(s.scope, n) {
            Some(k) => emit(s, Op::GetLocal(k), e.span),
            None => fail(s, e.span, undefined_variable(n)),
        },
        ExprV::Unary(UnaryOp::Not, x) => emit(lower_expr(*x, s), Op::Not, e.span),
        ExprV::Unary(UnaryOp::Negate, x) => emit(
            lower_expr(*x, emit(s, Op::PushInt(0), e.span)),
            Op::Sub,
            e.span,
        ),
        ExprV::Binary(BinOp::And, l, r) => {
            let s1 = check_types(lower_expr(*l, s), TypeView::Bool, type_of(*l, s.scope), l.span, logic_operand());
            let jf = s1.code.len() as int;
            let s2 = check_types(
                lower_expr(*r, emit(s1, Op::JumpIfFalse(0), e.span)),
                TypeView::Bool,
                type_of(*r, s.scope),
                r.span,
                logic_operand(),
            );
            let jmp = s2.code.len() as int;
            let s3 = emit(emit(s2, Op::Jump(0), e.span), Op::PushBool(false), e.span);
            Emitted {
                code: s3.code.update(jf, Op::JumpIfFalse(jmp + 1)).update(jmp, Op::Jump(s3.code.len() as int)),
                ..s3
            }
        },
        ExprV::Binary(BinOp::Or, l, r) => {
            let s1 = check_types(lower_expr(*l, s), TypeView::Bool, type_of(*l, s.scope), l.span, logic_operand());
            let jf = s1.code.len() as int;
            let s2 = emit(emit(s1, Op::JumpIfFalse(0), e.span), Op::PushBool(true), e.span);
            let jmp = s2.code.len() as int;
            let s3 = check_types(
                lower_expr(*r, emit(s2, Op::Jump(0), e.span)),
                TypeView::Bool,
                type_of(*r, s.scope),
                r.span,
                logic_operand(),
            );
            Emitted {
                code: s3.code.update(jf, Op::JumpIfFalse(jmp + 1)).update(jmp, Op::Jump(s3.code.len() as int)),
                ..s3
            }
        },
        ExprV::Binary(op, l, r) => emit(lower_expr(*r, lower_expr(*l, s)), binop(op), e.span),
        ExprV::Call(n, args) => {
            let s2 = lower_args(args, s);
            if n == "print"@ {
                emit(s2, Op::CallBuiltin(n, args.len() as int), e.span)
            } else {
                match find_fn(s2.funcs, n) {
                    Some(k) => emit(s2, Op::Call(k, args.len() as int), e.span),
                    None => fail(s2, e.span, undefined_function(n)),
                }
            }
        },
        ExprV::MethodCall(o, n, _) => if type_of(*o, s.scope) is List && ListMethod::spec_from_name(n)
            is None {
            fail(s, e.span, unknown_list_method(n))
        } else {
            fail(s, e.span, unsupported_expression())
        },
        ExprV::ObjLiteral(p, lit) => lower_obj_literal(p, lit, e.span, s),
        _ => fail(s, e.span, unsupported_expression()),
    }
}

/// The code of the arguments, left to right.
pub open spec fn lower_args(args: Seq<SExpr>, s: Emitted) -> Emitted
    decreases args, 0int,
{
    if args.len() == 0 {
        s
    } else {
        lower_expr(args.last(), lower_args(args.drop_last(), s))
    }
}

/// Binds `name` to the next slot and stores the value on the stack there.
pub open spec fn define(
    s: Emitted,
    name: Seq<char>,
    kind: BindingKind,
    ty: TypeView,
    span: (int, int),
) -> Emitted {
    emit(
        Emitted { scope: s.scope.push((name, kind, ty)), ..s },
        Op::SetLocal(s.scope.len() as int),
        span,
    )
}

/// The statements of a block, in a scope of their own.
pub open spec fn lower_block(ss: Seq<SStmt>, s: Emitted) -> Emitted {
    Emitted { scope: s.scope, ..lower_stmts(ss, s) }
}

/// A branch or loop body: a block, or (never produced by the parser) an
/// expression whose value is dropped.
pub open spec fn lower_branch(b: SExpr, s: Emitted) -> Emitted
    decreases b,
{
    match b.node {
        ExprV::Block(ss) => Emitted { scope: s.scope, ..lower_stmts(ss, s) },
        _ => emit(lower_expr(b, s), Op::Pop, b.span),
    }
}

pub open spec fn lower_stmts(ss: Seq<SStmt>, s: Emitted) -> Emitted
    decreases ss,
{
    if ss.len() == 0 {
        s
    } else {
        lower_stmt(ss.last(), lower_stmts(ss.drop_last(), s))
    }
}

/// `SetLocal(m - 1)`, .., `SetLocal(0)`: the arguments of a call, the
/// last on top of the stack, into the parameter slots.
pub open spec fn store_params(s: Emitted, m: nat, span: (int, int)) -> Emitted
    decreases m,
{
    if m == 0 {
        s
    } else {
        store_params(emit(s, Op::SetLocal(m - 1), span), (m - 1) as nat, span)
    }
}

pub open spec fn param_scope(ps: Seq<ParamV>) -> Seq<(Seq<char>, BindingKind, TypeView)> {
    ps.map_values(
        |p: ParamV|
            (
                p.name,
                if p.is_mut {
                    BindingKind::MutParam
                } else {
                    BindingKind::Param
                },
                TypeView::Unknown,
            ),
    )
}

/// The function entry registered before its body is compiled, so that
/// the body may call it.
pub open spec fn fn_header(name: Seq<char>, ps: Seq<ParamV>, is_pub: bool) -> FuncV {
    FuncV {
        name,
        arity: ps.len() as int,
        params: ps.map_values(|p: ParamV| p.name),
        param_types: Seq::new(ps.len(), |k: int| TypeView::Unknown),
        return_type: None,
        num_locals: ps.len() as int,
        code: seq![],
        spans: seq![],
        is_pub,
    }
}

/// What the body of a function is compiled from: no code yet, the
/// function registered, and its parameters in scope.
pub open spec fn fn_start(s: Emitted, name: Seq<char>, ps: Seq<ParamV>, is_pub: bool) -> Emitted {
    Emitted {
        code: seq![],
        spans: seq![],
        funcs: s.funcs.push(fn_header(name, ps, is_pub)),
        errs: s.errs,
        scope: param_scope(ps),
        loops: seq![],
        objs: s.objs,
    }
}

/// Back to the enclosing code once the body has been compiled into
/// `inner`: the function's entry receives the body's code.
pub open spec fn fn_finish(
    s: Emitted,
    inner: Emitted,
    name: Seq<char>,
    ps: Seq<ParamV>,
    is_pub: bool,
) -> Emitted {
    Emitted {
        code: s.code,
        spans: s.spans,
        funcs: inner.funcs.update(
            s.funcs.len() as int,
            FuncV { code: inner.code, spans: inner.spans, ..fn_header(name, ps, is_pub) },
        ),
        errs: inner.errs,
        scope: s.scope,
        loops: s.loops,
        objs: inner.objs,
    }
}

/// A `let` or `val`: the annotation resolved, the value compiled, an
/// empty list without annotation rejected, the value checked against the
/// annotation, and the name bound to the next slot with the declared (or
/// else inferred) type.
pub open spec fn lower_binding(
    n: Seq<char>,
    v: SExpr,
    ann: Option<TypeV>,
    kind: BindingKind,
    span: (int, int),
    s: Emitted,
) -> Emitted {
    let (declared, s1) = match ann {
        None => (None::<TypeView>, s),
        Some(t) => match resolve_ann(t, s.objs) {
            Ok(d) => (Some(d), s),
            Err(m) => (Some(TypeView::Unknown), fail(s, span, m)),
        },
    };
    let inferred = type_of(v, s.scope);
    let s2 = lower_expr(v, s1);
    let s3 = if declared is None && inferred == TypeView::List(Box::new(TypeView::Unknown)) {
        fail(s2, span, empty_list_message())
    } else {
        s2
    };
    match declared {
        Some(d) => define(check_types(s3, d, inferred, span, "type mismatch"@), n, kind, d, span),
        None => define(s3, n, kind, inferred, span),
    }
}

/// `code` with a `Jump(end)` at each position of `ps`.
pub open spec fn patch_all(code: Seq<Op>, ps: Seq<int>, end: int) -> Seq<Op>
    decreases ps.len(),
{
    if ps.len() == 0 {
        code
    } else {
        patch_all(code, ps.drop_last(), end).update(ps.last(), Op::Jump(end))
    }
}

impl Emitted {
    /// The state with the innermost loop closed.
    pub open spec fn drop_loop(self) -> Emitted {
        Emitted { loops: self.loops.drop_last(), ..self }
    }
}

pub proof fn lemma_patch_all_len(code: Seq<Op>, ps: Seq<int>, end: int)
    requires
        forall|j: int| 0 <= j < ps.len() ==> 0 <= #[trigger] ps[j] < code.len(),
    ensures
        patch_all(code, ps, end).len() == code.len(),
    decreases ps.len(),
{
    if ps.len() > 0 {
        assert forall|j: int| 0 <= j < ps.drop_last().len() implies 0 <= #[trigger] ps.drop_last()[j]
            < code.len() by {
            assert(ps.drop_last()[j] == ps[j]);
        }
        lemma_patch_all_len(code, ps.drop_last(), end);
    }
}

/// Every pending `break` jump is at a position of the code.
pub open spec fn loops_ok(s: Emitted) -> bool {
    &&& forall|i: int| 0 <= i < s.loops.len() ==> 0 <= (#[trigger] s.loops[i]).0 <= s.code.len()
    &&& forall|i: int, j: int|
        0 <= i < s.loops.len() && 0 <= j < s.loops[i].1.len() ==> s.loops[i].0 <= #[trigger] s.loops[i].1[j]
            < s.code.len()
}

/// The code and spans emitted before stay as they were: what comes after
/// only adds to them.
pub open spec fn keeps(old: Emitted, new: Emitted) -> bool {
    &&& old.code.len() <= new.code.len()
    &&& old.spans.len() <= new.spans.len()
    &&& forall|k: int| 0 <= k < old.code.len() ==> #[trigger] new.code[k] == old.code[k]
    &&& forall|k: int| 0 <= k < old.spans.len() ==> #[trigger] new.spans[k] == old.spans[k]
}

/// Patching jumps at positions from `n` on leaves the code before `n`.
pub proof fn lemma_patch_all_keeps(code: Seq<Op>, ps: Seq<int>, end: int, n: int)
    requires
        0 <= n,
        forall|j: int| 0 <= j < ps.len() ==> n <= #[trigger] ps[j] < code.len(),
    ensures
        patch_all(code, ps, end).len() == code.len(),
        forall|k: int| 0 <= k < n ==> #[trigger] patch_all(code, ps, end)[k] == code[k],
    decreases ps.len(),
{
    if ps.len() > 0 {
        assert forall|j: int| 0 <= j < ps.drop_last().len() implies n <= #[trigger] ps.drop_last()[j]
            < code.len() by {
            assert(ps.drop_last()[j] == ps[j]);
        }
        assert(ps.last() == ps[ps.len() - 1]);
        lemma_patch_all_keeps(code, ps.drop_last(), end, n);
    }
}

/// The code of a statement. Jumps are absolute positions in the code of
/// the function (or top level) being compiled.
pub open spec fn lower_stmt(st: SStmt, s: Emitted) -> Emitted
    decreases st,
{
    match st.node {
        StmtV::Let(n, v, ann, _) => lower_binding(n, v, ann, BindingKind::Let, st.span, s),
        StmtV::Val(n, v, ann, _) => lower_binding(n, v, ann, BindingKind::Val, st.span, s),
        StmtV::Assert(c) => fail(
            check_types(
                lower_expr(c, s),
                TypeView::Bool,
                type_of(c, s.scope),
                c.span,
                "assert condition type mismatch"@,
            ),
            st.span,
            unsupported_statement(),
        ),
        StmtV::Assignment(n, v) => {
            let s2 = lower_expr(v, s);
            match find_local(s2.scope, n) {
                Some(k) => {
                    let entry = s2.scope[k];
                    let s3 = if entry.1.spec_is_mutable() {
                        s2
                    } else {
                        fail(s2, st.span, immutability_message(n, entry.1, "reassign"@))
                    };
                    emit(
                        check_types(s3, entry.2, type_of(v, s.scope), st.span, "assignment type mismatch"@),
                        Op::SetLocal(k),
                        st.span,
                    )
                },
                None => fail(s2, st.span, undefined_variable(n)),
            }
        },
        StmtV::Expression(x) => match x.node {
            ExprV::Block(ss) => Emitted { scope: s.scope, ..lower_stmts(ss, s) },
            _ => emit(lower_expr(x, s), Op::Pop, x.span),
        },
        StmtV::Return(Some(x)) => emit(lower_expr(x, s), Op::Return, st.span),
        StmtV::Return(None) => emit(emit(s, Op::PushInt(0), st.span), Op::Return, st.span),
        StmtV::If(c, body, els) => {
            let s1 = check_types(lower_expr(c, s), TypeView::Bool, type_of(c, s.scope), c.span, "if condition type mismatch"@);
            let jf = s1.code.len() as int;
            let s2 = lower_branch(body, emit(s1, Op::JumpIfFalse(0), st.span));
            let jmp = s2.code.len() as int;
            let s3 = emit(s2, Op::Jump(0), st.span);
            let start = s3.code.len() as int;
            let s4 = match els {
                Some(b) => lower_branch(b, s3),
                None => s3,
            };
            Emitted {
                code: s4.code.update(jf, Op::JumpIfFalse(start)).update(
                    jmp,
                    Op::Jump(s4.code.len() as int),
                ),
                ..s4
            }
        },
        StmtV::Unless(c, body, els) => {
            let s1 = emit(lower_expr(c, s), Op::Not, st.span);
            let jf = s1.code.len() as int;
            let s2 = lower_branch(body, emit(s1, Op::JumpIfFalse(0), st.span));
            let jmp = s2.code.len() as int;
            let s3 = emit(s2, Op::Jump(0), st.span);
            let start = s3.code.len() as int;
            let s4 = match els {
                Some(b) => lower_branch(b, s3),
                None => s3,
            };
            Emitted {
                code: s4.code.update(jf, Op::JumpIfFalse(start)).update(
                    jmp,
                    Op::Jump(s4.code.len() as int),
                ),
                ..s4
            }
        },
        StmtV::While(c, body) => {
            let top = s.code.len() as int;
            let s1 = emit(lower_expr(c, s), Op::JumpIfFalse(0), st.span);
            let jf = s1.code.len() - 1;
            let s2 = lower_branch(body, Emitted { loops: s1.loops.push((top, seq![])), ..s1 });
            let s3 = emit(s2, Op::Jump(top), st.span);
            let end = s3.code.len() as int;
            Emitted {
                code: patch_all(s3.code.update(jf, Op::JumpIfFalse(end)), s3.loops.last().1, end),
                loops: s3.loops.drop_last(),
                ..s3
            }
        },
        StmtV::Break => if s.loops.len() == 0 {
            fail(s, st.span, "break outside of loop"@)
        } else {
            let last = s.loops.last();
            Emitted {
                loops: s.loops.update(s.loops.len() - 1, (last.0, last.1.push(s.code.len() as int))),
                ..emit(s, Op::Jump(0), st.span)
            }
        },
        StmtV::Continue => if s.loops.len() == 0 {
            fail(s, st.span, "continue outside of loop"@)
        } else {
            emit(s, Op::Jump(s.loops.last().0), st.span)
        },
        StmtV::Function(n, ps, body, _, is_pub) => fn_finish(
            s,
            lower_branch(body, store_params(fn_start(s, n, ps, is_pub), ps.len(), st.span)),
            n,
            ps,
            is_pub,
        ),
        StmtV::ObjDef(n, fs, ms, uses, _) => lower_obj_def(n, fs, ms, uses, st.span, s),
        _ => fail(s, st.span, unsupported_statement()),
    }
}

/// The fields of an object type being laid out, each with the `use`
/// clause it came from (`None` for a field of the type's own), and the
/// errors so far.
#[verifier::ext_equal]
pub struct Layout {
    pub fields: Seq<(Seq<char>, Option<Seq<char>>)>,
    pub errs: Seq<((int, int), Seq<char>)>,
}

/// The slot of the field named `name`.
pub open spec fn field_slot(fs: Seq<(Seq<char>, Option<Seq<char>>)>, name: Seq<char>) -> Option<int>
    decreases fs.len(),
{
    if fs.len() == 0 {
        None
    } else if fs.last().0 == name {
        Some(fs.len() - 1)
    } else {
        field_slot(fs.drop_last(), name)
    }
}

pub open spec fn field_conflict(name: Seq<char>, source: Seq<char>) -> Seq<char> {
    "field `"@ + name + "` conflicts in `use "@ + source + "`"@
}

pub open spec fn inherited_conflict(name: Seq<char>, source: Seq<char>) -> Seq<char> {
    "field `"@ + name + "` conflicts with field inherited from `use "@ + source
        + "`; fields cannot be overridden"@
}

pub open spec fn undefined_use(shown: Seq<char>) -> Seq<char> {
    "undefined type `"@ + shown + "` in use declaration"@
}

pub open spec fn unsupported_method() -> Seq<char> {
    "this method is not supported by the virtual machine"@
}

/// The fields `fs` of the type named in `use source`, taken over in
/// order; one that is already there is a conflict.
pub open spec fn inherit_fields(l: Layout, fs: Seq<Seq<char>>, source: Seq<char>, span: (int, int)) -> Layout
    decreases fs.len(),
{
    if fs.len() == 0 {
        l
    } else {
        let l1 = inherit_fields(l, fs.drop_last(), source, span);
        let f = fs.last();
        if field_slot(l1.fields, f) is Some {
            Layout { errs: l1.errs.push((span, field_conflict(f, source))), ..l1 }
        } else {
            Layout { fields: l1.fields.push((f, Some(source))), ..l1 }
        }
    }
}

/// The type a `use` clause names: a single name of a type defined before.
pub open spec fn use_target(objs: Seq<(Seq<char>, Seq<Seq<char>>)>, u: Seq<Seq<char>>) -> Option<int> {
    if u.len() == 1 {
        find_obj(objs, u[0])
    } else {
        None
    }
}

/// One `use` clause: the fields of the type it names taken over, or an
/// error where it names no type defined before.
pub open spec fn inherit_one(
    objs: Seq<(Seq<char>, Seq<Seq<char>>)>,
    l: Layout,
    u: Seq<Seq<char>>,
    span: (int, int),
) -> Layout {
    match use_target(objs, u) {
        Some(k) => inherit_fields(l, objs[k].1, join_with(u, "."@), span),
        None => Layout { errs: l.errs.push((span, undefined_use(join_with(u, "."@)))), ..l },
    }
}

/// The `use` clauses in order.
pub open spec fn inherit(
    objs: Seq<(Seq<char>, Seq<Seq<char>>)>,
    l: Layout,
    uses: Seq<Seq<Seq<char>>>,
    span: (int, int),
) -> Layout
    decreases uses.len(),
{
    if uses.len() == 0 {
        l
    } else {
        inherit_one(objs, inherit(objs, l, uses.drop_last(), span), uses.last(), span)
    }
}

/// One field of the type's own, after those before it: one that is
/// already there is an error (inherited fields cannot be overridden);
/// else it is added and its type annotation resolved.
pub open spec fn own_one(objs: Seq<(Seq<char>, Seq<Seq<char>>)>, l: Layout, f: FieldV) -> Layout {
    match field_slot(l.fields, f.name) {
        Some(k) => match l.fields[k].1 {
            Some(source) => Layout {
                errs: l.errs.push((f.span, inherited_conflict(f.name, source))),
                ..l
            },
            None => Layout { errs: l.errs.push((f.span, "duplicate field `"@ + f.name + "`"@)), ..l },
        },
        None => {
            let l2 = Layout { fields: l.fields.push((f.name, None)), ..l };
            match resolve_ann(f.type_ann, objs) {
                Ok(_) => l2,
                Err(m) => Layout { errs: l2.errs.push((f.span, "field `"@ + f.name + "`: "@ + m)), ..l2 },
            }
        },
    }
}

/// The type's own fields in order, after the inherited ones.
pub open spec fn own_fields(
    objs: Seq<(Seq<char>, Seq<Seq<char>>)>,
    l: Layout,
    fs: Seq<FieldV>,
) -> Layout
    decreases fs.len(),
{
    if fs.len() == 0 {
        l
    } else {
        own_one(objs, own_fields(objs, l, fs.drop_last()), fs.last())
    }
}

/// Each method with a body is refused at its span.
pub open spec fn fail_methods(s: Emitted, ms: Seq<MethodV>) -> Emitted
    decreases ms.len(),
{
    if ms.len() == 0 {
        s
    } else {
        let s1 = fail_methods(s, ms.drop_last());
        if ms.last().body is Some {
            fail(s1, ms.last().span, unsupported_method())
        } else {
            s1
        }
    }
}

proof fn lemma_fail_methods(s: Emitted, ms: Seq<MethodV>)
    ensures
        fail_methods(s, ms) == (Emitted { errs: fail_methods(s, ms).errs, ..s }),
    decreases ms.len(),
{
    if ms.len() > 0 {
        lemma_fail_methods(s, ms.drop_last());
    }
}

pub open spec fn layout_names(fs: Seq<(Seq<char>, Option<Seq<char>>)>) -> Seq<Seq<char>> {
    fs.map_values(|p: (Seq<char>, Option<Seq<char>>)| p.0)
}

/// An object type: its fields laid out (those of the `use` clauses in
/// order, then its own), the type registered with them, and its methods.
pub open spec fn lower_obj_def(
    n: Seq<char>,
    fs: Seq<FieldV>,
    ms: Seq<MethodV>,
    uses: Seq<Seq<Seq<char>>>,
    span: (int, int),
    s: Emitted,
) -> Emitted {
    let l = own_fields(s.objs, inherit(s.objs, Layout { fields: seq![], errs: s.errs }, uses, span), fs);
    fail_methods(Emitted { errs: l.errs, objs: s.objs.push((n, layout_names(l.fields))), ..s }, ms)
}

proof fn lemma_field_slot_none(fs: Seq<(Seq<char>, Option<Seq<char>>)>, n: Seq<char>)
    requires
        field_slot(fs, n) is None,
    ensures
        forall|i: int| 0 <= i < fs.len() ==> (#[trigger] fs[i]).0 != n,
    decreases fs.len(),
{
    if fs.len() > 0 {
        lemma_field_slot_none(fs.drop_last(), n);
        assert forall|i: int| 0 <= i < fs.len() implies (#[trigger] fs[i]).0 != n by {
            if i < fs.len() - 1 {
                assert(fs[i] == fs.drop_last()[i]);
            }
        }
    }
}

proof fn lemma_push_distinct(fs: Seq<(Seq<char>, Option<Seq<char>>)>, e: (Seq<char>, Option<Seq<char>>))
    requires
        layout_names(fs).no_duplicates(),
        field_slot(fs, e.0) is None,
    ensures
        layout_names(fs.push(e)).no_duplicates(),
{
    lemma_field_slot_none(fs, e.0);
    let ns = layout_names(fs.push(e));
    assert forall|i: int, j: int| 0 <= i < ns.len() && 0 <= j < ns.len() && i != j implies ns[i] != ns[j] by {
        if i < fs.len() && j < fs.len() {
            assert(ns[i] == layout_names(fs)[i]);
            assert(ns[j] == layout_names(fs)[j]);
        } else if i < fs.len() {
            assert(ns[i] == fs[i].0);
        } else {
            assert(ns[j] == fs[j].0);
        }
    }
}

proof fn lemma_inherit_fields_distinct(l: Layout, fs: Seq<Seq<char>>, source: Seq<char>, span: (int, int))
    requires
        layout_names(l.fields).no_duplicates(),
    ensures
        layout_names(inherit_fields(l, fs, source, span).fields).no_duplicates(),
    decreases fs.len(),
{
    if fs.len() > 0 {
        lemma_inherit_fields_distinct(l, fs.drop_last(), source, span);
        let l1 = inherit_fields(l, fs.drop_last(), source, span);
        if field_slot(l1.fields, fs.last()) is None {
            lemma_push_distinct(l1.fields, (fs.last(), Some(source)));
        }
    }
}

proof fn lemma_inherit_distinct(
    objs: Seq<(Seq<char>, Seq<Seq<char>>)>,
    l: Layout,
    uses: Seq<Seq<Seq<char>>>,
    span: (int, int),
)
    requires
        layout_names(l.fields).no_duplicates(),
    ensures
        layout_names(inherit(objs, l, uses, span).fields).no_duplicates(),
    decreases uses.len(),
{
    if uses.len() > 0 {
        lemma_inherit_distinct(objs, l, uses.drop_last(), span);
        let l1 = inherit(objs, l, uses.drop_last(), span);
        match use_target(objs, uses.last()) {
            Some(k) => lemma_inherit_fields_distinct(l1, objs[k].1, join_with(uses.last(), "."@), span),
            None => {},
        }
    }
}

proof fn lemma_own_distinct(objs: Seq<(Seq<char>, Seq<Seq<char>>)>, l: Layout, fs: Seq<FieldV>)
    requires
        layout_names(l.fields).no_duplicates(),
    ensures
        layout_names(own_fields(objs, l, fs).fields).no_duplicates(),
    decreases fs.len(),
{
    if fs.len() > 0 {
        lemma_own_distinct(objs, l, fs.drop_last());
        let l1 = own_fields(objs, l, fs.drop_last());
        if field_slot(l1.fields, fs.last().name) is None {
            lemma_push_distinct(l1.fields, (fs.last().name, None));
        }
    }
}

/// An object type's fields never repeat a name: a field met again, from
/// a second `use` clause or among the type's own, is reported and left
/// out, so every field keeps a slot of its own.
pub proof fn object_fields_are_distinct(
    n: Seq<char>,
    fs: Seq<FieldV>,
    ms: Seq<MethodV>,
    uses: Seq<Seq<Seq<char>>>,
    span: (int, int),
    s: Emitted,
)
    ensures
        lower_obj_def(n, fs, ms, uses, span, s).objs == s.objs.push(
            (n, lower_obj_def(n, fs, ms, uses, span, s).objs.last().1),
        ),
        lower_obj_def(n, fs, ms, uses, span, s).objs.last().1.no_duplicates(),
{
    let l0 = Layout { fields: seq![], errs: s.errs };
    assert(layout_names(l0.fields) =~= Seq::<Seq<char>>::empty());
    lemma_inherit_distinct(s.objs, l0, uses, span);
    let li = inherit(s.objs, l0, uses, span);
    lemma_own_distinct(s.objs, li, fs);
    let l = own_fields(s.objs, li, fs);
    let s1 = Emitted { errs: l.errs, objs: s.objs.push((n, layout_names(l.fields))), ..s };
    lemma_fail_methods(s1, ms);
}

pub open spec fn empty_emitted() -> Emitted {
    Emitted { code: seq![], spans: seq![], funcs: seq![], errs: seq![], scope: seq![], loops: seq![], objs: seq![] }
}

/// The lowering of a whole program, from nothing emitted.
pub open spec fn lower_program(ss: Seq<SStmt>) -> Emitted {
    lower_stmts(ss, empty_emitted())
}


// ---------------------------------------------------------------------------
// The compiler
// ---------------------------------------------------------------------------

/// What a compilation produced: the top-level code with a span per
/// instruction, the functions, and the compile errors.
pub struct CompilerOutput {
    pub instructions: Vec<Instruction>,
    pub spans: Vec<Range<usize>>,
    pub functions: Vec<CompiledFunction>,
    pub errors: Vec<OrynError>,
}

/// The state of a compilation: the code being emitted (top level or the
/// body of a function), its spans, the functions so far, the errors so
/// far, and the locals in scope.
pub struct Compiler {
    code: Vec<Instruction>,
    spans: Vec<Range<usize>>,
    functions: Vec<CompiledFunction>,
    errors: Vec<(Range<usize>, String)>,
    scope: Vec<(String, BindingKind, ResolvedType)>,
    loops: Vec<(usize, Vec<usize>)>,
    objs: Vec<(String, Vec<String>)>,
}

pub open spec fn objs_v(s: Seq<(String, Vec<String>)>) -> Seq<(Seq<char>, Seq<Seq<char>>)> {
    s.map_values(|p: (String, Vec<String>)| (p.0@, strs_v(p.1@)))
}

pub open spec fn loops_v(s: Seq<(usize, Vec<usize>)>) -> Seq<(int, Seq<int>)> {
    s.map_values(|p: (usize, Vec<usize>)| (p.0 as int, p.1@.map_values(|x: usize| x as int)))
}

pub open spec fn pending_v(s: Seq<(Range<usize>, String)>) -> Seq<((int, int), Seq<char>)> {
    s.map_values(|p: (Range<usize>, String)| (span_v(p.0), p.1@))
}

pub open spec fn scope_v(s: Seq<(String, BindingKind, ResolvedType)>) -> Seq<(Seq<char>, BindingKind, TypeView)> {
    s.map_values(|p: (String, BindingKind, ResolvedType)| (p.0@, p.1, p.2@))
}

/// The view of an emitted state is consistent: one span per instruction.
pub open spec fn parallel(s: Emitted) -> bool {
    s.code.len() == s.spans.len()
}

/// The state of a statement after it: the old code is a prefix of the new
/// code, the functions only grow, and the locals of the old scope stay.
pub open spec fn grows(old: Emitted, new: Emitted) -> bool {
    &&& parallel(old) ==> parallel(new)
    &&& old.code.len() <= new.code.len()
    &&& old.funcs.len() <= new.funcs.len()
    &&& old.scope.len() <= new.scope.len()
    &&& new.scope.subrange(0, old.scope.len() as int) == old.scope
    &&& new.loops.len() == old.loops.len()
    &&& forall|i: int| 0 <= i < old.loops.len() ==> (#[trigger] new.loops[i]).0 == old.loops[i].0
    &&& loops_ok(old) ==> loops_ok(new)
    &&& keeps(old, new)
}

fn range_of(r: &Range<usize>) -> (out: Range<usize>)
    ensures
        span_v(out) == span_v(*r),
{
    Range { start: r.start, end: r.end }
}

fn message_with(prefix: &str, name: &str, suffix: &str) -> (r: String)
    ensures
        r@ == prefix@ + name@ + suffix@,
{
    let mut m = String::new();
    push_str(&mut m, prefix);
    push_str(&mut m, name);
    push_str(&mut m, suffix);
    m
}

fn concat5(a: &str, b: &str, c: &str, d: &str, e: &str) -> (r: String)
    ensures
        r@ == a@ + b@ + c@ + d@ + e@,
{
    let mut m = String::new();
    push_str(&mut m, a);
    push_str(&mut m, b);
    push_str(&mut m, c);
    push_str(&mut m, d);
    push_str(&mut m, e);
    m
}

/// Whether `n` is among the first `upto` strings of `v`.
fn has_str(v: &Vec<String>, upto: usize, n: &str) -> (r: bool)
    requires
        upto <= v@.len(),
    ensures
        r == strs_v(v@).take(upto as int).contains(n@),
{
    let ghost vv = strs_v(v@);
    let mut i: usize = 0;
    while i < upto
        invariant
            i <= upto <= v@.len(),
            vv == strs_v(v@),
            !vv.take(i as int).contains(n@),
        decreases upto - i,
    {
        if str_eq(v[i].as_str(), n) {
            proof {
                assert(vv.take(upto as int)[i as int] == n@);
            }
            return true;
        }
        proof {
            assert forall|q: int| 0 <= q < i + 1 implies #[trigger] vv.take(i + 1)[q] != n@ by {
                if q < i {
                    assert(vv.take(i + 1)[q] == vv.take(i as int)[q]);
                }
            }
        }
        i += 1;
    }
    false
}

proof fn lemma_named_names(s: Seq<(String, Spanned<Expression>)>)
    ensures
        lit_names(crate::ast::named_v(s)) =~= s.map_values(|p: (String, Spanned<Expression>)| p.0@),
    decreases s.len(),
{
    if s.len() > 0 {
        lemma_named_names(s.drop_last());
        crate::ast::lemma_named_push(s.drop_last(), s.last());
        assert(s.drop_last().push(s.last()) =~= s);
        let f = |p: (String, Spanned<Expression>)| p.0@;
        assert(s.map_values(f) =~= s.drop_last().map_values(f).push(s.last().0@));
        assert(lit_names(crate::ast::named_v(s)) =~= lit_names(crate::ast::named_v(s.drop_last())).push(
            s.last().0@,
        ));
    } else {
        reveal(crate::ast::expr_v);
        assert(crate::ast::named_v(s) =~= Seq::<(Seq<char>, SExpr)>::empty());
    }
}

proof fn lemma_checks_keep(s: Emitted, ns: Seq<Seq<char>>, def: Seq<Seq<char>>, t: Seq<char>, span: (int, int))
    ensures
        check_lit_fields(s, ns, def, t, span) == (Emitted { errs: check_lit_fields(s, ns, def, t, span).errs, ..s }),
        check_missing(s, ns, def, t, span) == (Emitted { errs: check_missing(s, ns, def, t, span).errs, ..s }),
    decreases ns.len() + def.len(),
{
    if ns.len() > 0 {
        lemma_checks_keep(s, ns.drop_last(), def, t, span);
    }
    if def.len() > 0 {
        lemma_checks_keep(s, ns, def.drop_last(), t, span);
    }
}

fn copy_strs(v: &Vec<String>) -> (r: Vec<String>)
    ensures
        strs_v(r@) == strs_v(v@),
{
    let mut r: Vec<String> = Vec::new();
    let mut j: usize = 0;
    while j < v.len()
        invariant
            j <= v@.len(),
            r@.len() == j,
            forall|k: int| 0 <= k < j ==> (#[trigger] r@[k])@ == v@[k]@,
        decreases v@.len() - j,
    {
        r.push(v[j].clone());
        j += 1;
    }
    proof {
        assert(strs_v(r@) =~= strs_v(v@));
    }
    r
}

pub open spec fn layout_v(s: Seq<(String, Option<String>)>) -> Seq<(Seq<char>, Option<Seq<char>>)> {
    s.map_values(|p: (String, Option<String>)| (p.0@, match p.1 {
        Some(x) => Some(x@),
        None => None,
    }))
}

/// The layout being built: its fields, and the errors emitted so far.
pub open spec fn current(layout: Seq<(String, Option<String>)>, e: Emitted) -> Layout {
    Layout { fields: layout_v(layout), errs: e.errs }
}

/// The slot of the field named `name` in a layout being built.
fn field_slot_x(layout: &Vec<(String, Option<String>)>, name: &str) -> (r: Option<usize>)
    ensures
        match r {
            Some(k) => k < layout@.len() && field_slot(layout_v(layout@), name@) == Some(k as int),
            None => field_slot(layout_v(layout@), name@) is None,
        },
{
    let ghost lv = layout_v(layout@);
    let mut i = layout.len();
    proof {
        assert(lv.subrange(0, i as int) =~= lv);
    }
    while i > 0
        invariant
            i <= layout@.len(),
            lv == layout_v(layout@),
            field_slot(lv, name@) == field_slot(lv.subrange(0, i as int), name@),
        decreases i,
    {
        let ghost pre = lv.subrange(0, i as int);
        if str_eq(layout[i - 1].0.as_str(), name) {
            return Some(i - 1);
        }
        proof {
            assert(pre.drop_last() =~= lv.subrange(0, i - 1));
        }
        i -= 1;
    }
    None
}

impl Compiler {
    /// What has been emitted so far.
    pub closed spec fn emitted(&self) -> Emitted {
        Emitted {
            code: code_v(self.code@),
            spans: spans_v(self.spans@),
            funcs: funcs_v(self.functions@),
            errs: pending_v(self.errors@),
            scope: scope_v(self.scope@),
            loops: loops_v(self.loops@),
            objs: objs_v(self.objs@),
        }
    }

    /// Nothing emitted, no functions, no errors, no locals.
    pub fn new() -> (r: Compiler)
        ensures
            r.emitted() == empty_emitted(),
    {
        let r = Compiler {
            code: Vec::new(),
            spans: Vec::new(),
            functions: Vec::new(),
            errors: Vec::new(),
            scope: Vec::new(),
            loops: Vec::new(),
            objs: Vec::new(),
        };
        proof {
            assert(r.emitted().loops =~= seq![]);
            assert(r.emitted().code =~= seq![]);
            assert(r.emitted().spans =~= seq![]);
            assert(r.emitted().funcs =~= seq![]);
            assert(r.emitted().errs =~= seq![]);
            assert(r.emitted().scope =~= seq![]);
            assert(r.emitted().objs =~= seq![]);
        }
        r
    }

    fn emit_op(&mut self, op: Instruction, span: &Range<usize>)
        ensures
            final(self).emitted() == emit(old(self).emitted(), op_v(op), span_v(*span)),
    {
        let ghost s = self.emitted();
        self.code.push(op);
        self.spans.push(range_of(span));
        proof {
            assert(self.emitted().code =~= s.code.push(op_v(op)));
            assert(self.emitted().spans =~= s.spans.push(span_v(*span)));
        }
    }

    fn fail_with(&mut self, span: &Range<usize>, message: String)
        ensures
            final(self).emitted() == fail(old(self).emitted(), span_v(*span), message@),
    {
        let ghost s = self.emitted();
        let ghost m = message@;
        self.errors.push((range_of(span), message));
        proof {
            assert(self.emitted().errs =~= s.errs.push((span_v(*span), m)));
        }
    }

    fn code_len(&self) -> (r: usize)
        ensures
            r == self.emitted().code.len(),
    {
        self.code.len()
    }

    fn set_op(&mut self, at: usize, op: Instruction)
        requires
            at < old(self).emitted().code.len(),
        ensures
            final(self).emitted() == (Emitted {
                code: old(self).emitted().code.update(at as int, op_v(op)),
                ..old(self).emitted()
            }),
    {
        let ghost s = self.emitted();
        self.code.set(at, op);
        proof {
            assert(self.emitted().code =~= s.code.update(at as int, op_v(op)));
        }
    }

    fn find_local_x(&self, name: &str) -> (r: Option<usize>)
        ensures
            match r {
                Some(k) => k < self.scope@.len() && find_local(self.emitted().scope, name@) == Some(
                    k as int,
                ),
                None => find_local(self.emitted().scope, name@) is None,
            },
    {
        let ghost sv = self.emitted().scope;
        let mut i = self.scope.len();
        proof {
            assert(sv.subrange(0, i as int) =~= sv);
        }
        while i > 0
            invariant
                i <= self.scope@.len(),
                sv == scope_v(self.scope@),
                find_local(sv, name@) == find_local(sv.subrange(0, i as int), name@),
            decreases i,
        {
            let ghost pre = sv.subrange(0, i as int);
            if str_eq(self.scope[i - 1].0.as_str(), name) {
                return Some(i - 1);
            }
            proof {
                assert(pre.drop_last() =~= sv.subrange(0, i - 1));
            }
            i -= 1;
        }
        None
    }

    fn find_fn_x(&self, name: &str) -> (r: Option<usize>)
        ensures
            match r {
                Some(k) => k < self.functions@.len() && find_fn(self.emitted().funcs, name@) == Some(
                    k as int,
                ),
                None => find_fn(self.emitted().funcs, name@) is None,
            },
    {
        let ghost fv = self.emitted().funcs;
        let mut i = self.functions.len();
        proof {
            assert(fv.subrange(0, i as int) =~= fv);
        }
        while i > 0
            invariant
                i <= self.functions@.len(),
                fv == funcs_v(self.functions@),
                find_fn(fv, name@) == find_fn(fv.subrange(0, i as int), name@),
            decreases i,
        {
            let ghost pre = fv.subrange(0, i as int);
            if str_eq(self.functions[i - 1].name.as_str(), name) {
                return Some(i - 1);
            }
            proof {
                assert(pre.drop_last() =~= fv.subrange(0, i - 1));
            }
            i -= 1;
        }
        None
    }

    /// Emits the code of `e`: its value ends up on the stack. A constant
    /// expression is emitted as its value.
    pub fn compile_expr(&mut self, e: &Spanned<Expression>) -> (t: ResolvedType)
        ensures
            t@ == type_of(expr_v(*e), old(self).emitted().scope),
            final(self).emitted() == lower_expr(expr_v(*e), old(self).emitted()),
            old(self).emitted().code.len() <= final(self).emitted().code.len(),
            parallel(old(self).emitted()) ==> parallel(final(self).emitted()),
            final(self).emitted().funcs == old(self).emitted().funcs,
            final(self).emitted().scope == old(self).emitted().scope,
            final(self).emitted().loops == old(self).emitted().loops,
            keeps(old(self).emitted(), final(self).emitted()),
        decreases e, 1int,
    {
        proof {
            crate::ast::lemma_expr_v(*e);
        }
        let t = self.infer(e);
        match try_fold_expr(e) {
            Some(Folded::Int(n)) => self.emit_op(Instruction::PushInt(n), &e.span),
            Some(Folded::Bool(b)) => self.emit_op(Instruction::PushBool(b), &e.span),
            None => self.compile_node(e),
        }
        t
    }

    /// The type of `e` in the current scope.
    pub fn infer(&self, e: &Spanned<Expression>) -> (t: ResolvedType)
        ensures
            t@ == type_of(expr_v(*e), self.emitted().scope),
        decreases e,
    {
        proof {
            reveal(expr_v);
        }
        match &e.node {
            Expression::True | Expression::False => ResolvedType::Bool,
            Expression::Int(_) => ResolvedType::Int,
            Expression::Float(_) => ResolvedType::Float,
            Expression::String(_) | Expression::StringInterp(_) => ResolvedType::Str,
            Expression::Nil => ResolvedType::Nil,
            Expression::Ident(name) => match self.find_local_x(name.as_str()) {
                Some(k) => {
                    proof {
                        assert(self.emitted().scope[k as int].2 == self.scope@[k as int].2@);
                    }
                    self.scope[k].2.duplicate()
                },
                None => ResolvedType::Unknown,
            },
            Expression::UnaryOp { op, expr } => match op {
                UnaryOp::Not => ResolvedType::Bool,
                UnaryOp::Negate => {
                    let x = self.infer(expr);
                    proof {
                        assert(expr_v(*e).node == ExprV::Unary(UnaryOp::Negate, Box::new(expr_v(**expr))));
                    }
                    x
                },
            },
            Expression::BinaryOp { op, left, right } => match op {
                BinOp::Add | BinOp::Sub | BinOp::Mul | BinOp::Div => {
                    let x = self.infer(left);
                    proof {
                        assert(expr_v(*e).node == ExprV::Binary(
                            *op,
                            Box::new(expr_v(**left)),
                            Box::new(expr_v(**right)),
                        ));
                    }
                    x
                },
                _ => ResolvedType::Bool,
            },
            Expression::ListLiteral(xs) => {
                proof {
                    crate::ast::lemma_exprs_v_len(xs@);
                    lemma_exprs_v_index(xs@);
                }
                if xs.len() == 0 {
                    let r = ResolvedType::List(Box::new(ResolvedType::Unknown));
                    proof {
                        assert(ResolvedType::Unknown@ == TypeView::Unknown);
                        assert(expr_v(*e).node == ExprV::List(exprs_v(xs@)));
                        assert(r@ == type_of(expr_v(*e), self.emitted().scope));
                    }
                    r
                } else {
                    let x0 = self.infer(&xs[0]);
                    proof {
                        assert(exprs_v(xs@)[0] == expr_v(xs@[0]));
                        assert(x0@ == type_of(exprs_v(xs@)[0], self.emitted().scope));
                        assert(expr_v(*e).node == ExprV::List(exprs_v(xs@)));
                    }
                    let r = ResolvedType::List(Box::new(x0));
                    proof {
                        assert(r@ == type_of(expr_v(*e), self.emitted().scope));
                    }
                    r
                }
            },
            _ => ResolvedType::Unknown,
        }
    }

    /// Adds a type error unless `actual` fits `expected`.
    fn check_types_x(
        &mut self,
        expected: &ResolvedType,
        actual: &ResolvedType,
        span: &Range<usize>,
        what: &str,
    )
        ensures
            final(self).emitted() == check_types(
                old(self).emitted(),
                expected@,
                actual@,
                span_v(*span),
                what@,
            ),
    {
        if !expected.is_compatible_with(actual) {
            let mut m = String::new();
            push_str(&mut m, what);
            push_str(&mut m, ": expected `");
            let d = expected.display_name();
            push_str(&mut m, d.as_str());
            push_str(&mut m, "`, got `");
            let a = actual.display_name();
            push_str(&mut m, a.as_str());
            push_str(&mut m, "`");
            self.fail_with(span, m);
        }
    }

    fn compile_node(&mut self, e: &Spanned<Expression>)
        ensures
            final(self).emitted() == lower_node(expr_v(*e), old(self).emitted()),
            old(self).emitted().code.len() <= final(self).emitted().code.len(),
            parallel(old(self).emitted()) ==> parallel(final(self).emitted()),
            final(self).emitted().funcs == old(self).emitted().funcs,
            final(self).emitted().scope == old(self).emitted().scope,
            final(self).emitted().loops == old(self).emitted().loops,
            keeps(old(self).emitted(), final(self).emitted()),
        decreases e, 0int,
    {
        proof {
            reveal(expr_v);
        }
        let span = &e.span;
        match &e.node {
            Expression::True => self.emit_op(Instruction::PushBool(true), span),
            Expression::False => self.emit_op(Instruction::PushBool(false), span),
            Expression::Int(n) => self.emit_op(Instruction::PushInt(*n), span),
            Expression::Ident(name) => match self.find_local_x(name.as_str()) {
                Some(k) => self.emit_op(Instruction::GetLocal(k), span),
                None => {
                    let m = message_with("undefined variable `", name.as_str(), "`");
                    self.fail_with(span, m);
                },
            },
            Expression::UnaryOp { op, expr } => match op {
                UnaryOp::Not => {
                    self.compile_expr(expr);
                    self.emit_op(Instruction::Not, span);
                },
                UnaryOp::Negate => {
                    self.emit_op(Instruction::PushInt(0), span);
                    self.compile_expr(expr);
                    self.emit_op(Instruction::Sub, span);
                },
            },
            Expression::BinaryOp { op: BinOp::And, left, right } => {
                proof {
                    crate::ast::lemma_expr_v(**left);
                    crate::ast::lemma_expr_v(**right);
                }
                let ghost s0 = self.emitted();
                let lt = self.compile_expr(left);
                self.check_types_x(&ResolvedType::Bool, &lt, &left.span, "logical operand must be `bool`");
                let jf = self.code_len();
                self.emit_op(Instruction::JumpIfFalse(0), span);
                let rt = self.compile_expr(right);
                self.check_types_x(&ResolvedType::Bool, &rt, &right.span, "logical operand must be `bool`");
                let jmp = self.code_len();
                self.emit_op(Instruction::Jump(0), span);
                self.emit_op(Instruction::PushBool(false), span);
                let end = self.code_len();
                self.set_op(jf, Instruction::JumpIfFalse(jmp + 1));
                self.set_op(jmp, Instruction::Jump(end));
            },
            Expression::BinaryOp { op: BinOp::Or, left, right } => {
                proof {
                    crate::ast::lemma_expr_v(**left);
                    crate::ast::lemma_expr_v(**right);
                }
                let ghost s0 = self.emitted();
                let lt = self.compile_expr(left);
                self.check_types_x(&ResolvedType::Bool, &lt, &left.span, "logical operand must be `bool`");
                let jf = self.code_len();
                self.emit_op(Instruction::JumpIfFalse(0), span);
                self.emit_op(Instruction::PushBool(true), span);
                let jmp = self.code_len();
                self.emit_op(Instruction::Jump(0), span);
                let rt = self.compile_expr(right);
                self.check_types_x(&ResolvedType::Bool, &rt, &right.span, "logical operand must be `bool`");
                let end = self.code_len();
                self.set_op(jf, Instruction::JumpIfFalse(jmp + 1));
                self.set_op(jmp, Instruction::Jump(end));
            },
            Expression::BinaryOp { op, left, right } => {
                self.compile_expr(left);
                self.compile_expr(right);
                let i = match op {
                    BinOp::Equals => Instruction::Equal,
                    BinOp::NotEquals => Instruction::NotEqual,
                    BinOp::LessThan => Instruction::LessThan,
                    BinOp::GreaterThan => Instruction::GreaterThan,
                    BinOp::LessThanEquals => Instruction::LessThanEquals,
                    BinOp::GreaterThanEquals => Instruction::GreaterThanEquals,
                    BinOp::And => Instruction::And,
                    BinOp::Or => Instruction::Or,
                    BinOp::Add => Instruction::Add,
                    BinOp::Sub => Instruction::Sub,
                    BinOp::Mul => Instruction::Mul,
                    BinOp::Div => Instruction::Div,
                };
                self.emit_op(i, span);
            },
            Expression::Call { name, args } => {
                self.compile_args(args);
                proof {
                    crate::ast::lemma_exprs_v_len(args@);
                }
                if str_eq(name.as_str(), "print") {
                    self.emit_op(Instruction::CallBuiltin(name.clone(), args.len()), span);
                } else {
                    match self.find_fn_x(name.as_str()) {
                        Some(k) => self.emit_op(Instruction::Call(k, args.len()), span),
                        None => {
                            let m = message_with("undefined function `", name.as_str(), "`");
                            self.fail_with(span, m);
                        },
                    }
                }
            },
            Expression::MethodCall { object, method, .. } => {
                let ot = self.infer(object);
                proof {
                    assert(ot@ == type_of(expr_v(**object), self.emitted().scope));
                }
                if matches!(ot, ResolvedType::List(_)) && ListMethod::from_name(method.as_str()).is_none() {
                    let m = message_with("unknown list method `", method.as_str(), "`");
                    self.fail_with(span, m);
                } else {
                    let m = String::from_str("this expression is not supported by the virtual machine");
                    self.fail_with(span, m);
                }
            },
            Expression::ObjLiteral { type_path, fields } => {
                proof {
                    crate::ast::lemma_node_obj(*type_path, *fields);
                }
                self.compile_obj_literal(type_path, fields, span);
            },
            _ => {
                let m = String::from_str("this expression is not supported by the virtual machine");
                self.fail_with(span, m);
            },
        }
    }

    /// The fields of a literal of type `t` checked in the order written.
    fn check_lit_fields_x(&mut self, names: &Vec<String>, def: &Vec<String>, t: &str, span: &Range<usize>)
        ensures
            final(self).emitted() == check_lit_fields(
                old(self).emitted(),
                strs_v(names@),
                strs_v(def@),
                t@,
                span_v(*span),
            ),
    {
        let ghost s = self.emitted();
        let ghost nv = strs_v(names@);
        let mut i: usize = 0;
        proof {
            assert(nv.take(0) =~= Seq::<Seq<char>>::empty());
        }
        while i < names.len()
            invariant
                i <= names@.len(),
                nv == strs_v(names@),
                self.emitted() == check_lit_fields(s, nv.take(i as int), strs_v(def@), t@, span_v(*span)),
            decreases names@.len() - i,
        {
            let f = names[i].as_str();
            proof {
                assert(nv.take(i + 1).drop_last() =~= nv.take(i as int));
                assert(nv.take(i + 1).last() == f@);
                assert(nv.take(i as int) =~= strs_v(names@).take(i as int));
            }
            if has_str(names, i, f) {
                let m = concat5("duplicate field `", f, "` in `", t, "` literal");
                self.fail_with(span, m);
            }
            if !has_str(def, def.len(), f) {
                proof {
                    assert(strs_v(def@).take(def@.len() as int) =~= strs_v(def@));
                }
                let m = concat5("unknown field `", f, "` on type `", t, "`");
                self.fail_with(span, m);
            }
            proof {
                assert(strs_v(def@).take(def@.len() as int) =~= strs_v(def@));
            }
            i += 1;
        }
        proof {
            assert(nv.take(nv.len() as int) =~= nv);
        }
    }

    /// The fields of type `t` that a literal leaves out, in slot order.
    fn check_missing_x(&mut self, names: &Vec<String>, def: &Vec<String>, t: &str, span: &Range<usize>)
        ensures
            final(self).emitted() == check_missing(
                old(self).emitted(),
                strs_v(names@),
                strs_v(def@),
                t@,
                span_v(*span),
            ),
    {
        let ghost s = self.emitted();
        let ghost dv = strs_v(def@);
        let mut i: usize = 0;
        proof {
            assert(dv.take(0) =~= Seq::<Seq<char>>::empty());
            assert(strs_v(names@).take(names@.len() as int) =~= strs_v(names@));
        }
        while i < def.len()
            invariant
                i <= def@.len(),
                dv == strs_v(def@),
                strs_v(names@).take(names@.len() as int) == strs_v(names@),
                self.emitted() == check_missing(s, strs_v(names@), dv.take(i as int), t@, span_v(*span)),
            decreases def@.len() - i,
        {
            let f = def[i].as_str();
            proof {
                assert(dv.take(i + 1).drop_last() =~= dv.take(i as int));
                assert(dv.take(i + 1).last() == f@);
            }
            if !has_str(names, names.len(), f) {
                let m = concat5("missing field `", f, "` in `", t, "` literal");
                self.fail_with(span, m);
            }
            i += 1;
        }
        proof {
            assert(dv.take(dv.len() as int) =~= dv);
        }
    }

    /// An object literal: its type resolved and its fields checked; then
    /// refused, as the machine has no objects.
    fn compile_obj_literal(
        &mut self,
        type_path: &Vec<String>,
        fields: &Vec<(String, Spanned<Expression>)>,
        span: &Range<usize>,
    )
        ensures
            final(self).emitted() == lower_obj_literal(
                strs_v(type_path@),
                crate::ast::named_v(fields@),
                span_v(*span),
                old(self).emitted(),
            ),
            final(self).emitted() == (Emitted { errs: final(self).emitted().errs, ..old(self).emitted() }),
    {
        let ghost pv = strs_v(type_path@);
        if type_path.len() == 1 {
            let t = type_path[0].as_str();
            proof {
                assert(pv[0] == t@);
            }
            match find_obj_x(&self.objs, t) {
                Some(k) => {
                    let def = copy_strs(&self.objs[k].1);
                    let mut names: Vec<String> = Vec::new();
                    let mut j: usize = 0;
                    while j < fields.len()
                        invariant
                            j <= fields@.len(),
                            names@.len() == j,
                            forall|q: int| 0 <= q < j ==> (#[trigger] names@[q])@ == fields@[q].0@,
                        decreases fields@.len() - j,
                    {
                        names.push(fields[j].0.clone());
                        j += 1;
                    }
                    proof {
                        lemma_named_names(fields@);
                        assert(strs_v(names@) =~= fields@.map_values(
                            |p: (String, Spanned<Expression>)| p.0@,
                        ));
                    }
                    let ghost s0 = self.emitted();
                    self.check_lit_fields_x(&names, &def, t, span);
                    let ghost s1 = self.emitted();
                    self.check_missing_x(&names, &def, t, span);
                    proof {
                        lemma_checks_keep(s0, strs_v(names@), strs_v(def@), t@, span_v(*span));
                        lemma_checks_keep(s1, strs_v(names@), strs_v(def@), t@, span_v(*span));
                    }
                    let m = String::from_str("this expression is not supported by the virtual machine");
                    self.fail_with(span, m);
                },
                None => {
                    let m = message_with("undefined type `", t, "`");
                    self.fail_with(span, m);
                },
            }
        } else if type_path.len() == 0 {
            self.fail_with(span, String::from_str("empty type path"));
        } else {
            let mut prefix: Vec<String> = Vec::new();
            let mut i: usize = 0;
            while i < type_path.len() - 1
                invariant
                    type_path@.len() >= 2,
                    i <= type_path@.len() - 1,
                    prefix@.len() == i,
                    forall|j: int| 0 <= j < i ==> (#[trigger] prefix@[j])@ == type_path@[j]@,
                decreases type_path@.len() - i,
            {
                prefix.push(type_path[i].clone());
                i += 1;
            }
            let mut m = String::new();
            push_str(&mut m, "undefined module `");
            crate::text::push_joined(&mut m, &prefix, ".");
            push_str(&mut m, "`");
            proof {
                assert(prefix@.map_values(|x: String| x@) =~= pv.drop_last());
            }
            self.fail_with(span, m);
        }
    }

    fn compile_args(&mut self, args: &Vec<Spanned<Expression>>)
        ensures
            final(self).emitted() == lower_args(exprs_v(args@), old(self).emitted()),
            old(self).emitted().code.len() <= final(self).emitted().code.len(),
            parallel(old(self).emitted()) ==> parallel(final(self).emitted()),
            final(self).emitted().funcs == old(self).emitted().funcs,
            final(self).emitted().scope == old(self).emitted().scope,
            final(self).emitted().loops == old(self).emitted().loops,
            keeps(old(self).emitted(), final(self).emitted()),
        decreases args, 0int,
    {
        let ghost s0 = self.emitted();
        let mut i: usize = 0;
        proof {
            lemma_exprs_push(args@.take(0), args@[0]);
            assert(args@.take(0) =~= Seq::<Spanned<Expression>>::empty());
        }
        while i < args.len()
            invariant
                i <= args@.len(),
                self.emitted() == lower_args(exprs_v(args@.take(i as int)), s0),
                s0.code.len() <= self.emitted().code.len(),
                parallel(s0) ==> parallel(self.emitted()),
                self.emitted().funcs == s0.funcs,
                self.emitted().scope == s0.scope,
                self.emitted().loops == s0.loops,
                keeps(s0, self.emitted()),
            decreases args@.len() - i,
        {
            proof {
                lemma_exprs_push(args@.take(i as int), args@[i as int]);
                assert(args@.take(i + 1) =~= args@.take(i as int).push(args@[i as int]));
                let xs = exprs_v(args@.take(i as int)).push(expr_v(args@[i as int]));
                assert(xs.drop_last() =~= exprs_v(args@.take(i as int)));
            }
            self.compile_expr(&args[i]);
            i += 1;
        }
        proof {
            assert(args@.take(args@.len() as int) =~= args@);
        }
    }
}



fn int_const_x(v: i64) -> (r: Option<Folded>)
    ensures
        r == int_const(v as int),
{
    if i32::MIN as i64 <= v && v <= i32::MAX as i64 {
        Some(Folded::Int(v as i32))
    } else {
        None
    }
}

fn fold_binary_x(op: BinOp, l: Folded, r: Folded) -> (out: Option<Folded>)
    ensures
        out == fold_binary(op, l, r),
{
    match (l, r) {
        (Folded::Int(a), Folded::Int(b)) => match op {
            BinOp::Add => int_const_x(a as i64 + b as i64),
            BinOp::Sub => int_const_x(a as i64 - b as i64),
            BinOp::Mul => {
                assert(-0x8000_0000 * 0x8000_0000 <= a * b <= 0x8000_0000 * 0x8000_0000) by (nonlinear_arith)
                    requires
                        -0x8000_0000 <= a <= 0x7fff_ffff,
                        -0x8000_0000 <= b <= 0x7fff_ffff,
                ;
                int_const_x(a as i64 * b as i64)
            },
            BinOp::Div => if b == 0 {
                None
            } else if a == i32::MIN && b == -1 {
                assert(div_trunc(a as int, b as int) == 0x8000_0000);
                None
            } else {
                Some(Folded::Int(divide(a, b)))
            },
            BinOp::Equals => Some(Folded::Bool(a == b)),
            BinOp::NotEquals => Some(Folded::Bool(a != b)),
            BinOp::LessThan => Some(Folded::Bool(a < b)),
            BinOp::GreaterThan => Some(Folded::Bool(a > b)),
            BinOp::LessThanEquals => Some(Folded::Bool(a <= b)),
            BinOp::GreaterThanEquals => Some(Folded::Bool(a >= b)),
            _ => None,
        },
        (Folded::Bool(a), Folded::Bool(b)) => match op {
            BinOp::Equals => Some(Folded::Bool(a == b)),
            BinOp::NotEquals => Some(Folded::Bool(a != b)),
            _ => None,
        },
        _ => None,
    }
}

/// The constant value of `e`, when [`fold`] computes one.
pub fn try_fold_expr(e: &Spanned<Expression>) -> (r: Option<Folded>)
    ensures
        r == fold(expr_v(*e)),
    decreases e,
{
    proof {
        reveal(expr_v);
    }
    match &e.node {
        Expression::True => Some(Folded::Bool(true)),
        Expression::False => Some(Folded::Bool(false)),
        Expression::Int(n) => Some(Folded::Int(*n)),
        Expression::UnaryOp { op, expr } => match (op, try_fold_expr(expr)) {
            (UnaryOp::Not, Some(Folded::Bool(v))) => Some(Folded::Bool(!v)),
            (UnaryOp::Negate, Some(Folded::Int(v))) => int_const_x(-(v as i64)),
            _ => None,
        },
        Expression::BinaryOp { op, left, right } => match op {
            BinOp::And => match try_fold_expr(left) {
                Some(Folded::Bool(false)) => Some(Folded::Bool(false)),
                Some(Folded::Bool(true)) => match try_fold_expr(right) {
                    Some(Folded::Bool(v)) => Some(Folded::Bool(v)),
                    _ => None,
                },
                _ => None,
            },
            BinOp::Or => match try_fold_expr(left) {
                Some(Folded::Bool(true)) => Some(Folded::Bool(true)),
                Some(Folded::Bool(false)) => match try_fold_expr(right) {
                    Some(Folded::Bool(v)) => Some(Folded::Bool(v)),
                    _ => None,
                },
                _ => None,
            },
            _ => match (try_fold_expr(left), try_fold_expr(right)) {
                (Some(a), Some(b)) => fold_binary_x(*op, a, b),
                _ => None,
            },
        },
        _ => None,
    }
}


proof fn lemma_exprs_v_index(s: Seq<Spanned<Expression>>)
    ensures
        forall|k: int| 0 <= k < s.len() ==> #[trigger] exprs_v(s)[k] == expr_v(s[k]),
    decreases s.len(),
{
    crate::ast::lemma_exprs_v_len(s);
    if s.len() > 0 {
        lemma_exprs_v_index(s.drop_last());
        crate::ast::lemma_exprs_push(s.drop_last(), s.last());
        assert(s.drop_last().push(s.last()) =~= s);
        crate::ast::lemma_exprs_v_len(s.drop_last());
    }
}

/// The type an annotation names, or the message saying why it names none.
/// The last of the object types `objs` named `name`.
fn find_obj_x(objs: &Vec<(String, Vec<String>)>, name: &str) -> (r: Option<usize>)
    ensures
        match r {
            Some(k) => k < objs@.len() && find_obj(objs_v(objs@), name@) == Some(k as int),
            None => find_obj(objs_v(objs@), name@) is None,
        },
{
    let ghost ov = objs_v(objs@);
    let mut i = objs.len();
    proof {
        assert(ov.subrange(0, i as int) =~= ov);
    }
    while i > 0
        invariant
            i <= objs@.len(),
            ov == objs_v(objs@),
            find_obj(ov, name@) == find_obj(ov.subrange(0, i as int), name@),
        decreases i,
    {
        let ghost pre = ov.subrange(0, i as int);
        if str_eq(objs[i - 1].0.as_str(), name) {
            return Some(i - 1);
        }
        proof {
            assert(pre.drop_last() =~= ov.subrange(0, i - 1));
        }
        i -= 1;
    }
    None
}

/// The type an annotation names, given the object types defined so far.
pub fn resolve_annotation(t: &TypeAnnotation, objs: &Vec<(String, Vec<String>)>) -> (r: Result<ResolvedType, String>)
    ensures
        match r {
            Ok(x) => resolve_ann(type_v(*t), objs_v(objs@)) == Ok::<TypeView, Seq<char>>(x@),
            Err(m) => resolve_ann(type_v(*t), objs_v(objs@)) == Err::<TypeView, Seq<char>>(m@),
        },
    decreases t,
{
    match t {
        TypeAnnotation::Named(p) => {
            proof {
                assert(crate::ast::strs_v(p@).len() == p@.len());
            }
            if p.len() == 1 {
                let n = p[0].as_str();
                proof {
                    assert(crate::ast::strs_v(p@)[0] == p@[0]@);
                }
                if str_eq(n, "int") {
                    Ok(ResolvedType::Int)
                } else if str_eq(n, "float") {
                    Ok(ResolvedType::Float)
                } else if str_eq(n, "bool") {
                    Ok(ResolvedType::Bool)
                } else if str_eq(n, "string") {
                    Ok(ResolvedType::Str)
                } else if str_eq(n, "range") {
                    Ok(ResolvedType::Range)
                } else if find_obj_x(objs, n).is_some() {
                    let module: Vec<String> = Vec::new();
                    let r = ResolvedType::Object { name: String::from_str(n), module };
                    proof {
                        assert(module@.map_values(|x: String| x@) =~= Seq::<Seq<char>>::empty());
                    }
                    Ok(r)
                } else {
                    Err(message_with("undefined type `", n, "`"))
                }
            } else if p.len() == 0 {
                Err(String::from_str("empty type path"))
            } else {
                let mut prefix: Vec<String> = Vec::new();
                let mut i: usize = 0;
                while i < p.len() - 1
                    invariant
                        p@.len() >= 2,
                        i <= p@.len() - 1,
                        prefix@.len() == i,
                        forall|j: int| 0 <= j < i ==> (#[trigger] prefix@[j])@ == p@[j]@,
                    decreases p@.len() - i,
                {
                    prefix.push(p[i].clone());
                    i += 1;
                }
                let mut m = String::new();
                push_str(&mut m, "undefined module `");
                crate::text::push_joined(&mut m, &prefix, ".");
                push_str(&mut m, "`");
                proof {
                    assert(prefix@.map_values(|x: String| x@) =~= crate::ast::strs_v(p@).drop_last());
                }
                Err(m)
            }
        },
        TypeAnnotation::Nillable(x) => match resolve_annotation(x, objs) {
            Ok(v) => Ok(ResolvedType::Nillable(Box::new(v))),
            Err(m) => Err(m),
        },
        TypeAnnotation::ErrorUnion(x) => match resolve_annotation(x, objs) {
            Ok(v) => Ok(ResolvedType::ErrorUnion(Box::new(v))),
            Err(m) => Err(m),
        },
        TypeAnnotation::List(x) => match resolve_annotation(x, objs) {
            Ok(v) => Ok(ResolvedType::List(Box::new(v))),
            Err(m) => Err(m),
        },
        TypeAnnotation::MapOf(_, _) => Ok(ResolvedType::Unknown),
    }
}

fn names_of(params: &Vec<Param>) -> (r: Vec<String>)
    ensures
        r@.map_values(|p: String| p@) == params_v(params@).map_values(|p: ParamV| p.name),
{
    let mut out: Vec<String> = Vec::new();
    let mut i: usize = 0;
    while i < params.len()
        invariant
            i <= params@.len(),
            out@.len() == i,
            forall|j: int| 0 <= j < i ==> (#[trigger] out@[j])@ == params@[j].name@,
        decreases params@.len() - i,
    {
        out.push(params[i].name.clone());
        i += 1;
    }
    proof {
        assert(out@.map_values(|p: String| p@) =~= params_v(params@).map_values(|p: ParamV| p.name));
    }
    out
}

fn unknowns(n: usize) -> (r: Vec<ResolvedType>)
    ensures
        r@.map_values(|t: ResolvedType| t@) == Seq::new(n as nat, |k: int| TypeView::Unknown),
{
    let mut out: Vec<ResolvedType> = Vec::new();
    let mut i: usize = 0;
    while i < n
        invariant
            i <= n,
            out@.len() == i,
            forall|j: int| 0 <= j < i ==> (#[trigger] out@[j])@ == TypeView::Unknown,
        decreases n - i,
    {
        out.push(ResolvedType::Unknown);
        i += 1;
    }
    proof {
        assert(out@.map_values(|t: ResolvedType| t@) =~= Seq::new(n as nat, |k: int| TypeView::Unknown));
    }
    out
}

fn param_scope_x(params: &Vec<Param>) -> (r: Vec<(String, BindingKind, ResolvedType)>)
    ensures
        scope_v(r@) == param_scope(params_v(params@)),
{
    let mut out: Vec<(String, BindingKind, ResolvedType)> = Vec::new();
    let mut i: usize = 0;
    while i < params.len()
        invariant
            i <= params@.len(),
            out@.len() == i,
            forall|j: int|
                0 <= j < i ==> (#[trigger] out@[j]).0@ == params@[j].name@ && out@[j].1 == (
                if params@[j].is_mut {
                    BindingKind::MutParam
                } else {
                    BindingKind::Param
                }) && out@[j].2@ == TypeView::Unknown,
        decreases params@.len() - i,
    {
        let kind = if params[i].is_mut {
            BindingKind::MutParam
        } else {
            BindingKind::Param
        };
        out.push((params[i].name.clone(), kind, ResolvedType::Unknown));
        i += 1;
    }
    proof {
        assert(scope_v(out@) =~= param_scope(params_v(params@)));
    }
    out
}

fn make_function(
    name: &String,
    params: &Vec<Param>,
    is_pub: bool,
    instructions: Vec<Instruction>,
    spans: Vec<Range<usize>>,
) -> (r: CompiledFunction)
    ensures
        func_v(r) == (FuncV {
            code: code_v(instructions@),
            spans: spans_v(spans@),
            ..fn_header(name@, params_v(params@), is_pub)
        }),
{
    let n = params.len();
    let r = CompiledFunction {
        name: name.clone(),
        arity: n,
        params: names_of(params),
        param_types: unknowns(n),
        return_type: None,
        num_locals: n,
        instructions,
        spans,
        is_pub,
    };
    proof {
        assert(params_v(params@).len() == n);
    }
    r
}

proof fn lemma_grows_trans(a: Emitted, b: Emitted, c: Emitted)
    requires
        grows(a, b),
        grows(b, c),
    ensures
        grows(a, c),
{
    assert(c.scope.subrange(0, a.scope.len() as int) =~= c.scope.subrange(0, b.scope.len() as int).subrange(
        0,
        a.scope.len() as int,
    ));
}

proof fn lemma_grows_refl(a: Emitted)
    ensures
        grows(a, a),
{
    assert(a.scope.subrange(0, a.scope.len() as int) =~= a.scope);
}

/// A statement the machine does not run is reported at its span.
proof fn lemma_unsupported(st: Spanned<Statement>, s: Emitted)
    requires
        !(st.node is Let || st.node is Val || st.node is Assignment || st.node is Expression
            || st.node is Return || st.node is If || st.node is Unless || st.node is While
            || st.node is Function || st.node is Break || st.node is Continue || st.node is Assert
            || st.node is ObjDef),
    ensures
        lower_stmt(stmt_v(st), s) == fail(s, span_v(st.span), unsupported_statement()),
{
    reveal(stmt_v);
}

impl Compiler {
    /// Emits the code of a statement.
    pub fn compile_stmt(&mut self, st: &Spanned<Statement>)
        requires
            loops_ok(old(self).emitted()),
        ensures
            final(self).emitted() == lower_stmt(stmt_v(*st), old(self).emitted()),
            grows(old(self).emitted(), final(self).emitted()),
        decreases st, 2int,
    {
        match &st.node {
            Statement::Let { .. } | Statement::Val { .. } => self.compile_binding(st),
            Statement::Assignment { .. } => self.compile_assignment(st),
            Statement::Expression(_) => self.compile_expression_stmt(st),
            Statement::Return(_) => self.compile_return(st),
            Statement::If { .. } | Statement::Unless { .. } => self.compile_if(st),
            Statement::While { .. } => self.compile_while(st),
            Statement::Break | Statement::Continue => self.compile_jump(st),
            Statement::Assert { .. } => self.compile_assert(st),
            Statement::ObjDef { .. } => self.compile_obj_def(st),
            Statement::Function { name, params, body, is_pub, return_type } => {
                proof {
                    crate::ast::lemma_stmt_function(*name, *params, *body, *return_type, *is_pub, st.span);
                }
                self.compile_function(name, params, body, *is_pub, &st.span);
            },
            _ => {
                proof {
                    lemma_unsupported(*st, self.emitted());
                }
                let m = String::from_str("this statement is not supported by the virtual machine");
                self.fail_with(&st.span, m);
                proof {
                    lemma_grows_refl(old(self).emitted());
                }
            },
        }
    }

    fn compile_binding(&mut self, st: &Spanned<Statement>)
        requires
            st.node is Let || st.node is Val,
            loops_ok(old(self).emitted()),
        ensures
            final(self).emitted() == lower_stmt(stmt_v(*st), old(self).emitted()),
            grows(old(self).emitted(), final(self).emitted()),
    {
        let ghost s0 = self.emitted();
        let (name, value, kind, type_ann) = match &st.node {
            Statement::Let { name, value, type_ann, is_pub } => {
                proof {
                    crate::ast::lemma_stmt_let(*name, *value, *type_ann, *is_pub, st.span);
                }
                (name, value, BindingKind::Let, type_ann)
            },
            Statement::Val { name, value, type_ann, is_pub } => {
                proof {
                    crate::ast::lemma_stmt_val(*name, *value, *type_ann, *is_pub, st.span);
                }
                (name, value, BindingKind::Val, type_ann)
            },
            _ => {
                proof {
                    assert(false);
                }
                return;
            },
        };
        let declared: Option<ResolvedType> = match type_ann {
            None => None,
            Some(t) => match resolve_annotation(t, &self.objs) {
                Ok(d) => Some(d),
                Err(m) => {
                    self.fail_with(&st.span, m);
                    Some(ResolvedType::Unknown)
                },
            },
        };
        let ghost s1 = self.emitted();
        let inferred = self.compile_expr(value);
        let empty_list = match &inferred {
            ResolvedType::List(inner) => matches!(**inner, ResolvedType::Unknown),
            _ => false,
        };
        proof {
            assert(ResolvedType::Unknown@ == TypeView::Unknown);
            let ghost inf = inferred;
            match inf {
                ResolvedType::List(inner) => {
                    assert(inf@ == TypeView::List(Box::new(inner@)));
                    if !(*inner is Unknown) {
                        assert(inner@ != TypeView::Unknown);
                    }
                },
                _ => {},
            }
            assert(empty_list == (inferred@ == TypeView::List(Box::new(TypeView::Unknown))));
        }
        if declared.is_none() && empty_list {
            let m = String::from_str(
                "cannot infer element type of empty list literal; add a type annotation like `let xs: [int] = []`",
            );
            self.fail_with(&st.span, m);
        }
        let ty = match declared {
            Some(d) => {
                self.check_types_x(&d, &inferred, &st.span, "type mismatch");
                d
            },
            None => inferred,
        };
        let slot = self.scope.len();
        let ghost s = self.emitted();
        let ghost tv = ty@;
        self.scope.push((name.clone(), kind, ty));
        proof {
            assert(self.emitted().scope =~= s.scope.push((name@, kind, tv)));
        }
        self.emit_op(Instruction::SetLocal(slot), &st.span);
        proof {
            assert(self.emitted().scope.subrange(0, s0.scope.len() as int) =~= s0.scope);
        }
    }

    fn compile_assignment(&mut self, st: &Spanned<Statement>)
        requires
            st.node is Assignment,
            loops_ok(old(self).emitted()),
        ensures
            final(self).emitted() == lower_stmt(stmt_v(*st), old(self).emitted()),
            grows(old(self).emitted(), final(self).emitted()),
    {
        proof {
            lemma_grows_refl(old(self).emitted());
        }
        if let Statement::Assignment { name, value } = &st.node {
            proof {
                crate::ast::lemma_stmt_assignment(*name, *value, st.span);
            }
            let vt = self.compile_expr(value);
            match self.find_local_x(name.as_str()) {
                Some(k) => {
                    let kind = self.scope[k].1;
                    let et = self.scope[k].2.duplicate();
                    proof {
                        assert(self.emitted().scope[k as int].1 == kind);
                        assert(self.emitted().scope[k as int].2 == et@);
                    }
                    if !kind.is_mutable() {
                        let m = immutability_error(name.as_str(), &kind, "reassign");
                        self.fail_with(&st.span, m);
                    }
                    self.check_types_x(&et, &vt, &st.span, "assignment type mismatch");
                    self.emit_op(Instruction::SetLocal(k), &st.span);
                },
                None => {
                    let m = message_with("undefined variable `", name.as_str(), "`");
                    self.fail_with(&st.span, m);
                },
            }
        }
    }

    fn compile_expression_stmt(&mut self, st: &Spanned<Statement>)
        requires
            st.node is Expression,
            loops_ok(old(self).emitted()),
        ensures
            final(self).emitted() == lower_stmt(stmt_v(*st), old(self).emitted()),
            grows(old(self).emitted(), final(self).emitted()),
        decreases st, 1int,
    {
        proof {
            lemma_grows_refl(old(self).emitted());
        }
        if let Statement::Expression(x) = &st.node {
            proof {
                crate::ast::lemma_stmt_expression(*x, st.span);
                reveal(expr_v);
            }
            match &x.node {
                Expression::Block(ss) => {
                    let n = self.scope.len();
                    let ghost s0 = self.emitted();
                    self.compile_stmts(ss);
                    self.restore_scope(n);
                    proof {
                        assert(self.emitted().scope =~= s0.scope);
                    }
                },
                _ => {
                    self.compile_expr(x);
                    self.emit_op(Instruction::Pop, &x.span);
                },
            }
        }
    }

    fn compile_return(&mut self, st: &Spanned<Statement>)
        requires
            st.node is Return,
            loops_ok(old(self).emitted()),
        ensures
            final(self).emitted() == lower_stmt(stmt_v(*st), old(self).emitted()),
            grows(old(self).emitted(), final(self).emitted()),
    {
        proof {
            lemma_grows_refl(old(self).emitted());
        }
        if let Statement::Return(value) = &st.node {
            proof {
                crate::ast::lemma_stmt_return(*value, st.span);
            }
            match value {
                Some(x) => {
                    proof {
                        crate::ast::lemma_opt_expr_v(*value);
                    }
                    self.compile_expr(x);
                    self.emit_op(Instruction::Return, &st.span);
                },
                None => {
                    proof {
                        crate::ast::lemma_opt_expr_v(*value);
                    }
                    self.emit_op(Instruction::PushInt(0), &st.span);
                    self.emit_op(Instruction::Return, &st.span);
                },
            }
        }
    }

    #[verifier::spinoff_prover]
    #[verifier::rlimit(60)]
    fn compile_if(&mut self, st: &Spanned<Statement>)
        requires
            st.node is If || st.node is Unless,
            loops_ok(old(self).emitted()),
        ensures
            final(self).emitted() == lower_stmt(stmt_v(*st), old(self).emitted()),
            grows(old(self).emitted(), final(self).emitted()),
        decreases st, 1int,
    {
        proof {
            lemma_grows_refl(old(self).emitted());
        }
        let (condition, body, else_body, negate) = match &st.node {
            Statement::If { condition, body, else_body } => {
                proof {
                    crate::ast::lemma_stmt_if(*condition, *body, *else_body, st.span);
                }
                (condition, body, else_body, false)
            },
            Statement::Unless { condition, body, else_body } => {
                proof {
                    crate::ast::lemma_stmt_unless(*condition, *body, *else_body, st.span);
                }
                (condition, body, else_body, true)
            },
            _ => {
                proof {
                    assert(false);
                }
                return;
            },
        };
        {
            let ghost s0 = self.emitted();
            proof {
                crate::ast::lemma_expr_v(*condition);
            }
            let ct = self.compile_expr(condition);
            if negate {
                self.emit_op(Instruction::Not, &st.span);
            } else {
                self.check_types_x(&ResolvedType::Bool, &ct, &condition.span, "if condition type mismatch");
            }
            let jf = self.code_len();
            self.emit_op(Instruction::JumpIfFalse(0), &st.span);
            let ghost s1 = self.emitted();
            self.compile_branch(body);
            let jmp = self.code_len();
            self.emit_op(Instruction::Jump(0), &st.span);
            let start = self.code_len();
            let ghost s3 = self.emitted();
            match else_body {
                Some(b) => self.compile_branch(b),
                None => {},
            }
            let end = self.code_len();
            proof {
                lemma_grows_refl(s3);
            }
            self.set_op(jf, Instruction::JumpIfFalse(start));
            self.set_op(jmp, Instruction::Jump(end));
            proof {
                assert(self.emitted().scope.subrange(0, s0.scope.len() as int) =~= s0.scope);
            }
        }
    }

    fn compile_while(&mut self, st: &Spanned<Statement>)
        requires
            st.node is While,
            loops_ok(old(self).emitted()),
        ensures
            final(self).emitted() == lower_stmt(stmt_v(*st), old(self).emitted()),
            grows(old(self).emitted(), final(self).emitted()),
        decreases st, 1int,
    {
        proof {
            lemma_grows_refl(old(self).emitted());
        }
        if let Statement::While { condition, body } = &st.node {
            proof {
                crate::ast::lemma_stmt_while(*condition, *body, st.span);
            }
            let ghost s0 = self.emitted();
            let top = self.code_len();
            self.compile_expr(condition);
            let jf = self.code_len();
            self.emit_op(Instruction::JumpIfFalse(0), &st.span);
            let ghost s1 = self.emitted();
            self.loops.push((top, Vec::new()));
            proof {
                let e: Seq<int> = Seq::<usize>::empty().map_values(|x: usize| x as int);
                assert(e =~= seq![]);
                assert(self.emitted().loops =~= s1.loops.push((top as int, seq![])));
                assert(self.emitted() == (Emitted { loops: s1.loops.push((top as int, seq![])), ..s1 }));
            }
            self.compile_branch(body);
            self.emit_op(Instruction::Jump(top), &st.span);
            let end = self.code_len();
            let ghost s3 = self.emitted();
            self.set_op(jf, Instruction::JumpIfFalse(end));
            let entry = self.loops.pop().unwrap();
            let patches = entry.1;
            proof {
                assert(self.emitted().loops =~= s3.loops.drop_last());
                assert(patches@.map_values(|x: usize| x as int) == s3.loops.last().1);
            }
            let ghost base = self.emitted().code;
            let ghost ps = s3.loops.last().1;
            let mut i: usize = 0;
            proof {
                assert(ps.take(0) =~= Seq::<int>::empty());
            }
            while i < patches.len()
                invariant
                    i <= patches@.len(),
                    ps == patches@.map_values(|x: usize| x as int),
                    forall|j: int| 0 <= j < ps.len() ==> top <= #[trigger] ps[j] < base.len(),
                    self.emitted() == (Emitted { code: patch_all(base, ps.take(i as int), end as int), ..s3.drop_loop() }),
                    base.len() == s3.code.len(),
                decreases patches@.len() - i,
            {
                proof {
                    assert(ps.take(i + 1).drop_last() =~= ps.take(i as int));
                    lemma_patch_all_len(base, ps.take(i as int), end as int);
                    assert(ps[i as int] == patches@[i as int] as int);
                }
                self.set_op(patches[i], Instruction::Jump(end));
                i += 1;
            }
            proof {
                assert(ps.take(ps.len() as int) =~= ps);
                assert(self.emitted().scope.subrange(0, s0.scope.len() as int) =~= s0.scope);
                lemma_patch_all_len(base, ps, end as int);
                lemma_patch_all_keeps(base, ps, end as int, top as int);
            }
        }
    }

    fn compile_assert(&mut self, st: &Spanned<Statement>)
        requires
            st.node is Assert,
            loops_ok(old(self).emitted()),
        ensures
            final(self).emitted() == lower_stmt(stmt_v(*st), old(self).emitted()),
            grows(old(self).emitted(), final(self).emitted()),
    {
        proof {
            lemma_grows_refl(old(self).emitted());
        }
        if let Statement::Assert { condition } = &st.node {
            proof {
                crate::ast::lemma_stmt_assert(*condition, st.span);
                crate::ast::lemma_expr_v(*condition);
            }
            let t = self.compile_expr(condition);
            self.check_types_x(&ResolvedType::Bool, &t, &condition.span, "assert condition type mismatch");
            let m = String::from_str("this statement is not supported by the virtual machine");
            self.fail_with(&st.span, m);
        }
    }

    /// One `use` clause of an object type, applied to the layout being
    /// built.
    fn inherit_use(&mut self, layout: &mut Vec<(String, Option<String>)>, u: &Vec<String>, span: &Range<usize>)
        ensures
            current(final(layout)@, final(self).emitted()) == inherit_one(
                old(self).emitted().objs,
                current(old(layout)@, old(self).emitted()),
                strs_v(u@),
                span_v(*span),
            ),
            final(self).emitted() == (Emitted { errs: final(self).emitted().errs, ..old(self).emitted() }),
    {
        let ghost s = self.emitted();
        let ghost l1 = current(layout@, s);
        let ghost sp = span_v(*span);
        let mut shown = String::new();
        crate::text::push_joined(&mut shown, u, ".");
        let target = if u.len() == 1 {
            find_obj_x(&self.objs, u[0].as_str())
        } else {
            None
        };
        proof {
            assert(shown@ == join_with(strs_v(u@), "."@));
            if u@.len() == 1 {
                assert(strs_v(u@)[0] == u@[0]@);
            }
            assert(use_target(s.objs, strs_v(u@)) == match target {
                Some(k) => Some(k as int),
                None => None::<int>,
            });
        }
        match target {
            Some(k) => {
                let inh = copy_strs(&self.objs[k].1);
                let ghost iv = strs_v(inh@);
                let mut j: usize = 0;
                proof {
                    assert(iv.take(0) =~= Seq::<Seq<char>>::empty());
                    assert(s.objs[k as int].1 == iv);
                }
                while j < inh.len()
                    invariant
                        j <= inh@.len(),
                        iv == strs_v(inh@),
                        sp == span_v(*span),
                        s.objs == objs_v(self.objs@),
                        current(layout@, self.emitted()) == inherit_fields(l1, iv.take(j as int), shown@, sp),
                        self.emitted() == (Emitted { errs: self.emitted().errs, ..s }),
                    decreases inh@.len() - j,
                {
                    let f = &inh[j];
                    let ghost lj = inherit_fields(l1, iv.take(j as int), shown@, sp);
                    let slot = field_slot_x(&layout, f.as_str());
                    proof {
                        assert(iv.take(j + 1).drop_last() =~= iv.take(j as int));
                        assert(iv.take(j + 1).last() == f@);
                    }
                    if slot.is_some() {
                        let m = concat5("field `", f.as_str(), "` conflicts in `use ", shown.as_str(), "`");
                        self.fail_with(span, m);
                    } else {
                        layout.push((f.clone(), Some(shown.clone())));
                        proof {
                            assert(layout_v(layout@) =~= lj.fields.push((f@, Some(shown@))));
                        }
                    }
                    j += 1;
                }
                proof {
                    assert(iv.take(iv.len() as int) =~= iv);
                }
            },
            None => {
                let m = message_with("undefined type `", shown.as_str(), "` in use declaration");
                self.fail_with(span, m);
            },
        }
    }

    /// One field of an object type's own, applied to the layout being
    /// built.
    fn own_field(&mut self, layout: &mut Vec<(String, Option<String>)>, f: &ObjField)
        ensures
            current(final(layout)@, final(self).emitted()) == own_one(
                old(self).emitted().objs,
                current(old(layout)@, old(self).emitted()),
                crate::ast::field_v(*f),
            ),
            final(self).emitted() == (Emitted { errs: final(self).emitted().errs, ..old(self).emitted() }),
    {
        let ghost l1 = current(layout@, self.emitted());
        match field_slot_x(&layout, f.name.as_str()) {
            Some(k) => {
                match &layout[k].1 {
                    Some(source) => {
                        let m = concat5(
                            "field `",
                            f.name.as_str(),
                            "` conflicts with field inherited from `use ",
                            source.as_str(),
                            "`; fields cannot be overridden",
                        );
                        self.fail_with(&f.span, m);
                    },
                    None => {
                        let m = message_with("duplicate field `", f.name.as_str(), "`");
                        self.fail_with(&f.span, m);
                    },
                }
            },
            None => {
                layout.push((f.name.clone(), None));
                proof {
                    assert(layout_v(layout@) =~= l1.fields.push((f.name@, None)));
                }
                match resolve_annotation(&f.type_ann, &self.objs) {
                    Ok(_) => {},
                    Err(msg) => {
                        let mut m = message_with("field `", f.name.as_str(), "`: ");
                        push_str(&mut m, msg.as_str());
                        self.fail_with(&f.span, m);
                    },
                }
            },
        }
    }

    /// Each method with a body refused at its span.
    fn fail_methods_x(&mut self, methods: &Vec<ObjMethod>)
        ensures
            final(self).emitted() == fail_methods(old(self).emitted(), methods_v(methods@)),
    {
        let ghost s1 = self.emitted();
        let mut i: usize = 0;
        proof {
            assert(methods@.take(0) =~= Seq::<ObjMethod>::empty());
            reveal_with_fuel(methods_v, 1);
        }
        while i < methods.len()
            invariant
                i <= methods@.len(),
                self.emitted() == fail_methods(s1, methods_v(methods@.take(i as int))),
            decreases methods@.len() - i,
        {
            let m = &methods[i];
            proof {
                assert(methods@.take(i as int).push(*m) =~= methods@.take(i + 1));
                crate::ast::lemma_methods_push(methods@.take(i as int), *m);
                assert(methods_v(methods@.take(i + 1)).drop_last() =~= methods_v(methods@.take(i as int)));
            }
            if m.body.is_some() {
                let msg = String::from_str("this method is not supported by the virtual machine");
                self.fail_with(&m.span, msg);
            }
            i += 1;
        }
        proof {
            assert(methods@.take(methods@.len() as int) =~= methods@);
        }
    }

    /// An object type: its fields laid out, the type registered with them,
    /// and its methods.
    fn compile_obj_def(&mut self, st: &Spanned<Statement>)
        requires
            st.node is ObjDef,
            loops_ok(old(self).emitted()),
        ensures
            final(self).emitted() == lower_stmt(stmt_v(*st), old(self).emitted()),
            grows(old(self).emitted(), final(self).emitted()),
    {
        if let Statement::ObjDef { name, fields, methods, uses, is_pub } = &st.node {
            proof {
                crate::ast::lemma_stmt_obj_def(*name, *fields, *methods, *uses, *is_pub, st.span);
            }
            let ghost s = self.emitted();
            let ghost sp = span_v(st.span);
            let ghost uv = paths_v(uses@);
            let ghost l0 = Layout { fields: seq![], errs: s.errs };
            let mut layout: Vec<(String, Option<String>)> = Vec::new();
            let mut i: usize = 0;
            proof {
                assert(uv.take(0) =~= Seq::<Seq<Seq<char>>>::empty());
                assert(current(layout@, s) =~= l0);
            }
            while i < uses.len()
                invariant
                    i <= uses@.len(),
                    uv == paths_v(uses@),
                    sp == span_v(st.span),
                    current(layout@, self.emitted()) == inherit(s.objs, l0, uv.take(i as int), sp),
                    self.emitted() == (Emitted { errs: self.emitted().errs, ..s }),
                decreases uses@.len() - i,
            {
                let ghost before = current(layout@, self.emitted());
                self.inherit_use(&mut layout, &uses[i], &st.span);
                proof {
                    assert(uv.take(i + 1).drop_last() =~= uv.take(i as int));
                    assert(uv.take(i + 1).last() == strs_v(uses@[i as int]@));
                    assert(inherit(s.objs, l0, uv.take(i + 1), sp) == inherit_one(s.objs, before, strs_v(uses@[i as int]@), sp));
                    assert(current(layout@, self.emitted()) == inherit_one(s.objs, before, strs_v(uses@[i as int]@), sp));
                }
                i += 1;
            }
            proof {
                assert(uv.take(uv.len() as int) =~= uv);
            }
            let ghost li = inherit(s.objs, l0, uv, sp);
            let ghost fv = fields_v(fields@);
            let mut i: usize = 0;
            proof {
                assert(fv.take(0) =~= Seq::<FieldV>::empty());
            }
            while i < fields.len()
                invariant
                    i <= fields@.len(),
                    fv == fields_v(fields@),
                    current(layout@, self.emitted()) == own_fields(s.objs, li, fv.take(i as int)),
                    self.emitted() == (Emitted { errs: self.emitted().errs, ..s }),
                decreases fields@.len() - i,
            {
                self.own_field(&mut layout, &fields[i]);
                proof {
                    assert(fv.take(i + 1).drop_last() =~= fv.take(i as int));
                    assert(fv.take(i + 1).last() == crate::ast::field_v(fields@[i as int]));
                }
                i += 1;
            }
            proof {
                assert(fv.take(fv.len() as int) =~= fv);
            }
            let ghost l = own_fields(s.objs, li, fv);
            let mut names: Vec<String> = Vec::new();
            let mut j: usize = 0;
            while j < layout.len()
                invariant
                    j <= layout@.len(),
                    names@.len() == j,
                    forall|k: int| 0 <= k < j ==> (#[trigger] names@[k])@ == layout@[k].0@,
                decreases layout@.len() - j,
            {
                names.push(layout[j].0.clone());
                j += 1;
            }
            proof {
                assert(strs_v(names@) =~= layout_names(layout_v(layout@)));
            }
            self.objs.push((name.clone(), names));
            proof {
                assert(self.emitted().objs =~= s.objs.push((name@, layout_names(l.fields))));
                assert(self.emitted() == (Emitted {
                    errs: l.errs,
                    objs: s.objs.push((name@, layout_names(l.fields))),
                    ..s
                }));
            }
            let ghost s1 = self.emitted();
            self.fail_methods_x(methods);
            proof {
                lemma_fail_methods(s1, methods_v(methods@));
                lemma_grows_refl(s);
            }
        }
    }

    /// `break` and `continue`.
    fn compile_jump(&mut self, st: &Spanned<Statement>)
        requires
            st.node is Break || st.node is Continue,
            loops_ok(old(self).emitted()),
        ensures
            final(self).emitted() == lower_stmt(stmt_v(*st), old(self).emitted()),
            grows(old(self).emitted(), final(self).emitted()),
    {
        proof {
            lemma_grows_refl(old(self).emitted());
            if st.node is Break {
                crate::ast::lemma_stmt_break(st.span);
            } else {
                crate::ast::lemma_stmt_continue(st.span);
            }
            assert(self.emitted().loops.len() == self.loops@.len());
        }
        let ghost s0 = self.emitted();
        let n = self.loops.len();
        let is_break = matches!(st.node, Statement::Break);
        if n == 0 {
            let m = if is_break {
                String::from_str("break outside of loop")
            } else {
                String::from_str("continue outside of loop")
            };
            self.fail_with(&st.span, m);
        } else if is_break {
            let idx = self.code_len();
            self.emit_op(Instruction::Jump(0), &st.span);
            let ghost s1 = self.emitted();
            let ghost lv = self.loops@;
            assert(self.emitted().loops.len() == self.loops@.len());
            let mut entry = self.loops.pop().unwrap();
            let ghost before = entry.1@;
            entry.1.push(idx);
            self.loops.push(entry);
            proof {
                let last = s0.loops.last();
                assert(s0.loops == loops_v(lv));
                assert(last == loops_v(lv)[lv.len() - 1]);
                assert(before == lv[lv.len() - 1].1@);
                assert(before.push(idx).map_values(|x: usize| x as int) =~= before.map_values(
                    |x: usize| x as int,
                ).push(idx as int));
                assert(self.loops@ =~= lv.drop_last().push(self.loops@.last()));
                assert(self.emitted().loops =~= s0.loops.update(
                    s0.loops.len() - 1,
                    (last.0, last.1.push(idx as int)),
                ));
            }
        } else {
            let target = self.loops[n - 1].0;
            self.emit_op(Instruction::Jump(target), &st.span);
        }
    }

    fn restore_scope(&mut self, n: usize)
        requires
            n <= old(self).scope@.len(),
        ensures
            final(self).emitted() == (Emitted {
                scope: old(self).emitted().scope.subrange(0, n as int),
                ..old(self).emitted()
            }),
    {
        let ghost s = self.emitted();
        self.scope.truncate(n);
        proof {
            assert(self.emitted().scope =~= s.scope.subrange(0, n as int));
        }
    }

    fn compile_function(
        &mut self,
        name: &String,
        params: &Vec<Param>,
        body: &Spanned<Expression>,
        is_pub: bool,
        span: &Range<usize>,
    )
        requires
            loops_ok(old(self).emitted()),
        ensures
            final(self).emitted() == fn_finish(
                old(self).emitted(),
                lower_branch(
                    expr_v(*body),
                    store_params(
                        fn_start(old(self).emitted(), name@, params_v(params@), is_pub),
                        params@.len(),
                        span_v(*span),
                    ),
                ),
                name@,
                params_v(params@),
                is_pub,
            ),
            grows(old(self).emitted(), final(self).emitted()),
        decreases body, 1int,
    {
        let ghost s = self.emitted();
        proof {
            lemma_grows_refl(s);
        }
        let ghost ps = params_v(params@);
        let k = self.functions.len();
        let header = make_function(name, params, is_pub, Vec::new(), Vec::new());
        self.functions.push(header);
        let mut code: Vec<Instruction> = Vec::new();
        let mut spans: Vec<Range<usize>> = Vec::new();
        let mut scope = param_scope_x(params);
        let mut loops: Vec<(usize, Vec<usize>)> = Vec::new();
        std::mem::swap(&mut self.code, &mut code);
        std::mem::swap(&mut self.spans, &mut spans);
        std::mem::swap(&mut self.scope, &mut scope);
        std::mem::swap(&mut self.loops, &mut loops);
        proof {
            assert(loops_v(Seq::<(usize, Vec<usize>)>::empty()) =~= seq![]);
            assert(code_v(Seq::<Instruction>::empty()) =~= seq![]);
            assert(spans_v(Seq::<Range<usize>>::empty()) =~= seq![]);
            assert(self.emitted().funcs =~= s.funcs.push(fn_header(name@, ps, is_pub)));
            assert(self.emitted() == fn_start(s, name@, ps, is_pub));
        }
        let ghost start = self.emitted();
        let n = params.len();
        let mut m = n;
        while m > 0
            invariant
                m <= n,
                n == params@.len(),
                store_params(self.emitted(), m as nat, span_v(*span)) == store_params(
                    start,
                    n as nat,
                    span_v(*span),
                ),
                self.emitted().funcs == start.funcs,
                self.emitted().scope == start.scope,
                self.emitted().loops == start.loops,
                start.loops.len() == 0,
            decreases m,
        {
            self.emit_op(Instruction::SetLocal(m - 1), span);
            m -= 1;
        }
        let ghost before_body = self.emitted();
        self.compile_branch(body);
        let ghost inner = self.emitted();
        std::mem::swap(&mut self.code, &mut code);
        std::mem::swap(&mut self.spans, &mut spans);
        std::mem::swap(&mut self.scope, &mut scope);
        std::mem::swap(&mut self.loops, &mut loops);
        let f = make_function(name, params, is_pub, code, spans);
        self.functions.set(k, f);
        proof {
            assert(self.emitted().funcs =~= inner.funcs.update(
                s.funcs.len() as int,
                FuncV { code: inner.code, spans: inner.spans, ..fn_header(name@, ps, is_pub) },
            ));
            assert(self.emitted().scope.subrange(0, s.scope.len() as int) =~= s.scope);
            assert(self.emitted().loops == s.loops);
            assert(self.emitted().code == s.code);
        }
    }

    /// A branch or loop body, in a scope of its own.
    fn compile_branch(&mut self, b: &Spanned<Expression>)
        requires
            loops_ok(old(self).emitted()),
        ensures
            final(self).emitted() == lower_branch(expr_v(*b), old(self).emitted()),
            grows(old(self).emitted(), final(self).emitted()),
            final(self).emitted().scope == old(self).emitted().scope,
        decreases b, 0int,
    {
        proof {
            reveal(expr_v);
        }
        match &b.node {
            Expression::Block(ss) => {
                let n = self.scope.len();
                let ghost s0 = self.emitted();
                self.compile_stmts(ss);
                self.restore_scope(n);
                proof {
                    assert(self.emitted().scope =~= s0.scope);
                }
            },
            _ => {
                self.compile_expr(b);
                self.emit_op(Instruction::Pop, &b.span);
            },
        }
        proof {
            lemma_grows_refl(old(self).emitted());
        }
    }

    /// Emits the code of each statement in turn.
    pub fn compile_stmts(&mut self, ss: &Vec<Spanned<Statement>>)
        requires
            loops_ok(old(self).emitted()),
        ensures
            final(self).emitted() == lower_stmts(stmts_v(ss@), old(self).emitted()),
            grows(old(self).emitted(), final(self).emitted()),
        decreases ss, 0int,
    {
        let ghost s0 = self.emitted();
        let mut i: usize = 0;
        proof {
            assert(ss@.take(0) =~= Seq::<Spanned<Statement>>::empty());
            lemma_stmts_push(ss@.take(0), arbitrary());
            lemma_grows_refl(s0);
        }
        while i < ss.len()
            invariant
                i <= ss@.len(),
                self.emitted() == lower_stmts(stmts_v(ss@.take(i as int)), s0),
                grows(s0, self.emitted()),
                loops_ok(s0),
            decreases ss@.len() - i,
        {
            proof {
                lemma_stmts_push(ss@.take(i as int), ss@[i as int]);
                assert(ss@.take(i + 1) =~= ss@.take(i as int).push(ss@[i as int]));
                let xs = stmts_v(ss@.take(i as int)).push(stmt_v(ss@[i as int]));
                assert(xs.drop_last() =~= stmts_v(ss@.take(i as int)));
            }
            let ghost before = self.emitted();
            self.compile_stmt(&ss[i]);
            proof {
                lemma_grows_trans(s0, before, self.emitted());
            }
            i += 1;
        }
        proof {
            assert(ss@.take(ss@.len() as int) =~= ss@);
        }
    }
}

/// Compiles a program: its top-level code, its functions, and its compile
/// errors, as [`lower_program`] states them.
pub fn compile(statements: Vec<Spanned<Statement>>) -> (r: CompilerOutput)
    ensures
        code_v(r.instructions@) == lower_program(stmts_v(statements@)).code,
        spans_v(r.spans@) == lower_program(stmts_v(statements@)).spans,
        funcs_v(r.functions@) == lower_program(stmts_v(statements@)).funcs,
        errs_v(r.errors@) == lower_program(stmts_v(statements@)).errs,
        r.instructions@.len() == r.spans@.len(),
        forall|k: int| 0 <= k < r.errors@.len() ==> (#[trigger] r.errors@[k]) is Compiler,
{
    let mut c = Compiler::new();
    c.compile_stmts(&statements);
    let mut errors: Vec<OrynError> = Vec::new();
    let mut i: usize = 0;
    while i < c.errors.len()
        invariant
            i <= c.errors@.len(),
            errors@.len() == i,
            forall|j: int|
                0 <= j < i ==> (#[trigger] errors@[j]) is Compiler && err_v(errors@[j])
                    == pending_v(c.errors@)[j],
        decreases c.errors@.len() - i,
    {
        let span = range_of(&c.errors[i].0);
        errors.push(OrynError::Compiler { span, message: c.errors[i].1.clone() });
        i += 1;
    }
    proof {
        assert(errs_v(errors@) =~= pending_v(c.errors@));
    }
    CompilerOutput { instructions: c.code, spans: c.spans, functions: c.functions, errors }
}


/// What [`Chunk::compile`] gives for `source`: the errors of
/// [`Chunk::check`] when there are any; else the compile errors of the
/// program when there are any; else the chunk that [`lower_program`]
/// states.
pub open spec fn compile_matches(source: Seq<char>, r: Result<Chunk, Vec<OrynError>>) -> bool {
    let t = tokens_of(source, 0);
    let parsed = program(t, fuel_for(t));
    if lexemes(encode_utf8(source), 0).1.len() == 0 && parsed is Some {
        let l = lower_program(parsed->0);
        if l.errs.len() == 0 {
            &&& r matches Ok(c)
            &&& code_v(c.instructions@) == l.code
            &&& spans_v(c.spans@) == l.spans
            &&& funcs_v(c.functions@) == l.funcs
        } else {
            &&& r matches Err(es)
            &&& errs_v(es@) == l.errs
            &&& forall|k: int| 0 <= k < es@.len() ==> (#[trigger] es@[k]) is Compiler
        }
    } else {
        r matches Err(es) && check_errors_match(source, es@)
    }
}

impl Chunk {
    /// Compiles source code into a chunk, or returns its lexer and parser
    /// errors (in that order), or else its compile errors.
    pub fn compile(source: &str) -> (r: Result<Chunk, Vec<OrynError>>)
        ensures
            compile_matches(source@, r),
    {
        let (tokens, lex_errors) = lex(source);
        proof {
            lemma_tokens_of(source@, 0, tokens@, tokens@);
        }
        let ghost toks = tokens@;
        let (statements, parse_errors) = parse(tokens);
        proof {
            let t = toks_v(toks);
            if program(t, fuel_for(t)) is None {
                let stop = program_stop(t, fuel_for(t));
                lemma_tok_text(toks[stop].0);
            }
        }
        if lex_errors.len() > 0 || parse_errors.len() > 0 {
            let mut errors = lex_errors;
            let mut parse_errors = parse_errors;
            errors.append(&mut parse_errors);
            proof {
                assert(errors@.take(lex_errors@.len() as int) =~= lex_errors@);
            }
            return Err(errors);
        }
        let output = compile(statements);
        if output.errors.len() > 0 {
            return Err(output.errors);
        }
        Ok(Chunk { instructions: output.instructions, spans: output.spans, functions: output.functions })
    }
}


/// Negation is subtraction from zero: `-x` folds to what `0 - x` folds
/// to, and compiles to the same code (zero pushed first, then `x`, then
/// the subtraction), so at run time it leaves `0 - v` where `x` leaves
/// `v` (the machine's subtraction is stated by
/// [`folding_agrees_with_the_machine`] and [`crate::vm::step_spec`]).
pub proof fn negation_is_subtraction_from_zero(x: SExpr, span: (int, int), s: Emitted)
    ensures
        fold(SExpr { node: ExprV::Unary(UnaryOp::Negate, Box::new(x)), span }) == fold(
            SExpr {
                node: ExprV::Binary(BinOp::Sub, Box::new(SExpr { node: ExprV::Int(0), span }), Box::new(x)),
                span,
            },
        ),
        lower_expr(SExpr { node: ExprV::Unary(UnaryOp::Negate, Box::new(x)), span }, s) == lower_expr(
            SExpr {
                node: ExprV::Binary(BinOp::Sub, Box::new(SExpr { node: ExprV::Int(0), span }), Box::new(x)),
                span,
            },
            s,
        ),
{
    let zero = SExpr { node: ExprV::Int(0), span };
    let neg = SExpr { node: ExprV::Unary(UnaryOp::Negate, Box::new(x)), span };
    let sub = SExpr { node: ExprV::Binary(BinOp::Sub, Box::new(zero), Box::new(x)), span };
    assert(fold(zero) == Some(Folded::Int(0)));
    assert(lower_expr(zero, s) == emit(s, Op::PushInt(0), span));
    assert(lower_node(neg, s) == emit(lower_expr(x, emit(s, Op::PushInt(0), span)), Op::Sub, span));
    assert(lower_node(sub, s) == emit(lower_expr(x, lower_expr(zero, s)), binop(BinOp::Sub), span));
    match fold(x) {
        Some(Folded::Int(v)) => {
            assert(fold(neg) == int_const(-v));
            assert(fold(sub) == int_const(0 - v));
        },
        _ => {
            assert(fold(neg) is None);
            assert(fold(sub) is None);
        },
    }
}

/// What a comparison written with the token `k` says of two integers.
pub open spec fn comparison_holds(k: Tok, a: int, b: int) -> bool {
    if k == Tok::Fixed(Token::EqualsEquals) {
        a == b
    } else if k == Tok::Fixed(Token::NotEquals) {
        a != b
    } else if k == Tok::Fixed(Token::LessThan) {
        a < b
    } else if k == Tok::Fixed(Token::GreaterThan) {
        a > b
    } else if k == Tok::Fixed(Token::LessThanEquals) {
        a <= b
    } else {
        a >= b
    }
}

/// A comparison means what its token says: the operator that a
/// comparison token at `t[i]` parses to folds two integer constants to
/// the truth of `a == b`, `a != b`, `a < b`, `a > b`, `a <= b` or
/// `a >= b` as written, and the instruction it compiles to, run on those
/// integers at the top of the stack, pushes that truth.
pub proof fn comparisons_mean_what_they_say(
    t: Seq<TokV>,
    i: int,
    a: i32,
    b: i32,
    s: MachineState,
    chunk: &Chunk,
)
    requires
        relation_op(t, i) is Some,
        s.frames.len() > 0,
        s.frames.last().ip < frame_code(chunk, s.frames.last()).len(),
        op_v(frame_code(chunk, s.frames.last())[s.frames.last().ip as int]) == binop(
            relation_op(t, i)->0,
        ),
        s.stack.len() >= 2,
        s.stack[s.stack.len() - 2] == Value::Int(a),
        s.stack.last() == Value::Int(b),
    ensures
        fold_binary(relation_op(t, i)->0, Folded::Int(a), Folded::Int(b)) == Some(
            Folded::Bool(comparison_holds(t[i].0, a as int, b as int)),
        ),
        !step_panics(s, chunk),
        step_spec(s, chunk) == StepView::Continue(
            next(
                s,
                s.stack.take(s.stack.len() - 2).push(
                    Value::Bool(comparison_holds(t[i].0, a as int, b as int)),
                ),
            ),
        ),
{
    let st = s.stack;
    assert(st.last() == st[st.len() - 1]);
}

/// The integer that arithmetic written with the token `k` gives.
pub open spec fn arithmetic_value(k: Tok, a: int, b: int) -> int {
    if k == Tok::Fixed(Token::Plus) {
        a + b
    } else if k == Tok::Fixed(Token::Minus) {
        a - b
    } else if k == Tok::Fixed(Token::Multiply) {
        a * b
    } else {
        div_trunc(a, b)
    }
}

/// Arithmetic means what its token says: the operator that a `+`, `-`,
/// `*` or `/` token at `t[i]` parses to folds two integer constants to
/// their sum, difference, product or truncated quotient as written, when
/// that fits in an `i32` (and the divisor is not zero).
pub proof fn arithmetic_means_what_it_says(t: Seq<TokV>, i: int, a: i32, b: i32)
    requires
        sum_op(t, i) is Some || product_op(t, i) is Some,
        !(t[i].0 == Tok::Fixed(Token::Divide) && b == 0),
    ensures
        fold_binary(
            if sum_op(t, i) is Some {
                sum_op(t, i)->0
            } else {
                product_op(t, i)->0
            },
            Folded::Int(a),
            Folded::Int(b),
        ) == int_const(arithmetic_value(t[i].0, a as int, b as int)),
{
}

/// The machine value of a constant.
pub open spec fn folded_value(v: Folded) -> Value {
    match v {
        Folded::Int(n) => Value::Int(n),
        Folded::Bool(b) => Value::Bool(b),
    }
}

/// Folding a binary operator computes what the machine computes: where
/// [`fold_binary`] gives a value for two constants, the instruction the
/// operator compiles to, run on those constants at the top of the stack,
/// does not panic and replaces them by that value.
pub proof fn folding_agrees_with_the_machine(
    op: BinOp,
    l: Folded,
    r: Folded,
    s: MachineState,
    chunk: &Chunk,
)
    requires
        fold_binary(op, l, r) is Some,
        s.frames.len() > 0,
        s.frames.last().ip < frame_code(chunk, s.frames.last()).len(),
        op_v(frame_code(chunk, s.frames.last())[s.frames.last().ip as int]) == binop(op),
        s.stack.len() >= 2,
        s.stack[s.stack.len() - 2] == folded_value(l),
        s.stack.last() == folded_value(r),
    ensures
        !step_panics(s, chunk),
        step_spec(s, chunk) == StepView::Continue(
            next(
                s,
                s.stack.take(s.stack.len() - 2).push(folded_value(fold_binary(op, l, r)->0)),
            ),
        ),
{
    let st = s.stack;
    let i = frame_code(chunk, s.frames.last())[s.frames.last().ip as int];
    assert(st.last() == st[st.len() - 1]);
    match (l, r) {
        (Folded::Int(a), Folded::Int(b)) => {
            if op is Div {
                assert(b != 0);
                if a == i32::MIN && b == -1 {
                    assert(div_trunc(a as int, b as int) == 0x8000_0000);
                }
            }
        },
        _ => {},
    }
}

} // verus!
