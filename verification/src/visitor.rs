//! A visitor over the syntax tree, for tools that walk a program (symbol
//! collection, references, scopes). Implementors decide what happens at
//! each node and call the matching `walk_*` function to go on into its
//! children; the walks give the canonical order of the children.
//!
//! Each callback a visitor receives is recorded in its trace
//! ([`AstVisitor::calls`]); each walk is stated as the exact sequence of
//! callbacks it makes ([`stmt_calls`], [`expr_calls`]).
use vstd::prelude::*;

use crate::ast::{Expression, ObjMethod, Param, Span, Spanned, Statement, StringPart};

verus! {

/// One callback made on a visitor.
pub enum Callback {
    VisitStmt(Spanned<Statement>),
    VisitExpr(Spanned<Expression>),
    EnterScope,
    ExitScope,
    /// A name, its span, and the span of the enclosing statement.
    Define(Seq<char>, Span, Span),
    Reference(Seq<char>, Span),
}

/// What a walk does at each node.
pub trait AstVisitor: Sized {
    /// The callbacks received so far, in order; an implementation that is
    /// verified keeps it (for example in a `Ghost` field).
    open spec fn calls(&self) -> Seq<Callback> {
        Seq::empty()
    }

    /// Called for each statement; an implementation records what it
    /// needs and calls [`walk_stmt`] to go on.
    fn visit_stmt(&mut self, stmt: &Spanned<Statement>)
        ensures
            final(self).calls() == old(self).calls().push(Callback::VisitStmt(*stmt)),
    ;

    /// Called for each expression; an implementation calls [`walk_expr`]
    /// to go on.
    fn visit_expr(&mut self, expr: &Spanned<Expression>)
        ensures
            final(self).calls() == old(self).calls().push(Callback::VisitExpr(*expr)),
    ;

    /// Entering a new scope (a function body, a block, a method body).
    fn enter_scope(&mut self)
        ensures
            final(self).calls() == old(self).calls().push(Callback::EnterScope),
    ;

    /// Leaving the scope entered last.
    fn exit_scope(&mut self)
        ensures
            final(self).calls() == old(self).calls().push(Callback::ExitScope),
    ;

    /// A name is introduced (`let`, `val`, `fn`, a parameter, `obj`).
    fn on_define(&mut self, name: &str, name_span: &Span, stmt_span: &Span)
        ensures
            final(self).calls() == old(self).calls().push(
                Callback::Define(name@, *name_span, *stmt_span),
            ),
    ;

    /// A name is used (a variable, a call, an assignment target, a `use`).
    fn on_reference(&mut self, name: &str, span: &Span)
        ensures
            final(self).calls() == old(self).calls().push(Callback::Reference(name@, *span)),
    ;
}

// ---------------------------------------------------------------------------
// The callbacks of each walk
// ---------------------------------------------------------------------------

pub open spec fn stmt_visits(s: Seq<Spanned<Statement>>) -> Seq<Callback>
    decreases s.len(),
{
    if s.len() == 0 {
        seq![]
    } else {
        stmt_visits(s.drop_last()).push(Callback::VisitStmt(s.last()))
    }
}

pub open spec fn expr_visits(s: Seq<Spanned<Expression>>) -> Seq<Callback>
    decreases s.len(),
{
    if s.len() == 0 {
        seq![]
    } else {
        expr_visits(s.drop_last()).push(Callback::VisitExpr(s.last()))
    }
}

/// Each parameter defined, at `span`.
pub open spec fn param_defines(ps: Seq<Param>, span: Span) -> Seq<Callback>
    decreases ps.len(),
{
    if ps.len() == 0 {
        seq![]
    } else {
        param_defines(ps.drop_last(), span).push(Callback::Define(ps.last().name@, span, span))
    }
}

/// Each segment of each `use` path referenced, at `span`.
pub open spec fn use_references(us: Seq<Vec<String>>, span: Span) -> Seq<Callback>
    decreases us.len(),
{
    if us.len() == 0 {
        seq![]
    } else {
        use_references(us.drop_last(), span) + segment_references(us.last()@, span)
    }
}

pub open spec fn segment_references(p: Seq<String>, span: Span) -> Seq<Callback>
    decreases p.len(),
{
    if p.len() == 0 {
        seq![]
    } else {
        segment_references(p.drop_last(), span).push(Callback::Reference(p.last()@, span))
    }
}

/// A method: its name defined; with a body, the parameters defined in a
/// scope around the body.
pub open spec fn method_calls(m: ObjMethod, span: Span) -> Seq<Callback> {
    seq![Callback::Define(m.name@, span, span)] + match m.body {
        Some(b) => seq![Callback::EnterScope] + param_defines(m.params@, span) + seq![
            Callback::VisitExpr(b),
            Callback::ExitScope,
        ],
        None => seq![],
    }
}

pub open spec fn methods_calls(ms: Seq<ObjMethod>, span: Span) -> Seq<Callback>
    decreases ms.len(),
{
    if ms.len() == 0 {
        seq![]
    } else {
        methods_calls(ms.drop_last(), span) + method_calls(ms.last(), span)
    }
}

pub open spec fn opt_visit(e: Option<Spanned<Expression>>) -> Seq<Callback> {
    match e {
        Some(x) => seq![Callback::VisitExpr(x)],
        None => seq![],
    }
}

/// `body` in a scope of its own, with `name` defined in it first.
pub open spec fn scoped_calls(name: Seq<char>, span: Span, body: Spanned<Expression>) -> Seq<Callback> {
    seq![
        Callback::EnterScope,
        Callback::Define(name, span, span),
        Callback::VisitExpr(body),
        Callback::ExitScope,
    ]
}

/// The callbacks [`walk_stmt`] makes, in order.
pub open spec fn stmt_calls(st: Spanned<Statement>) -> Seq<Callback> {
    let span = st.span;
    match st.node {
        Statement::Let { name, value, .. } => seq![
            Callback::Define(name@, span, span),
            Callback::VisitExpr(value),
        ],
        Statement::Val { name, value, .. } => seq![
            Callback::Define(name@, span, span),
            Callback::VisitExpr(value),
        ],
        Statement::Assignment { name, value } => seq![
            Callback::Reference(name@, span),
            Callback::VisitExpr(value),
        ],
        Statement::FieldAssignment { object, value, .. } => seq![
            Callback::VisitExpr(object),
            Callback::VisitExpr(value),
        ],
        Statement::IndexAssignment { object, index, value } => seq![
            Callback::VisitExpr(object),
            Callback::VisitExpr(index),
            Callback::VisitExpr(value),
        ],
        Statement::Function { name, params, body, .. } => seq![
            Callback::Define(name@, span, span),
            Callback::EnterScope,
        ] + param_defines(params@, span) + seq![Callback::VisitExpr(body), Callback::ExitScope],
        Statement::Return(value) => opt_visit(value),
        Statement::ObjDef { name, methods, uses, .. } => seq![Callback::Define(name@, span, span)]
            + use_references(uses@, span) + methods_calls(methods@, span),
        Statement::If { condition, body, else_body } => seq![
            Callback::VisitExpr(condition),
            Callback::VisitExpr(body),
        ] + opt_visit(else_body),
        Statement::Unless { condition, body, else_body } => seq![
            Callback::VisitExpr(condition),
            Callback::VisitExpr(body),
        ] + opt_visit(else_body),
        Statement::IfLet { name, value, body, else_body } => seq![Callback::VisitExpr(value)]
            + scoped_calls(name@, span, body) + opt_visit(else_body),
        Statement::While { condition, body } => seq![
            Callback::VisitExpr(condition),
            Callback::VisitExpr(body),
        ],
        Statement::For { name, iterable, body } => seq![Callback::VisitExpr(iterable)]
            + scoped_calls(name@, span, body),
        Statement::Expression(e) => seq![Callback::VisitExpr(e)],
        Statement::Test { body, .. } => seq![
            Callback::EnterScope,
            Callback::VisitExpr(body),
            Callback::ExitScope,
        ],
        Statement::Assert { condition } => seq![Callback::VisitExpr(condition)],
        _ => seq![],
    }
}

pub open spec fn part_visits(ps: Seq<StringPart>) -> Seq<Callback>
    decreases ps.len(),
{
    if ps.len() == 0 {
        seq![]
    } else {
        part_visits(ps.drop_last()) + match ps.last() {
            StringPart::Interp(e) => seq![Callback::VisitExpr(e)],
            StringPart::Literal(_) => seq![],
        }
    }
}

pub open spec fn field_visits(fs: Seq<(String, Spanned<Expression>)>) -> Seq<Callback>
    decreases fs.len(),
{
    if fs.len() == 0 {
        seq![]
    } else {
        field_visits(fs.drop_last()).push(Callback::VisitExpr(fs.last().1))
    }
}

pub open spec fn entry_visits(es: Seq<(Spanned<Expression>, Spanned<Expression>)>) -> Seq<Callback>
    decreases es.len(),
{
    if es.len() == 0 {
        seq![]
    } else {
        entry_visits(es.drop_last()) + seq![
            Callback::VisitExpr(es.last().0),
            Callback::VisitExpr(es.last().1),
        ]
    }
}

/// The callbacks [`walk_expr`] makes, in order.
pub open spec fn expr_calls(e: Spanned<Expression>) -> Seq<Callback> {
    match e.node {
        Expression::StringInterp(parts) => part_visits(parts@),
        Expression::Ident(name) => seq![Callback::Reference(name@, e.span)],
        Expression::ObjLiteral { fields, .. } => field_visits(fields@),
        Expression::FieldAccess { object, .. } => seq![Callback::VisitExpr(*object)],
        Expression::MethodCall { object, args, .. } => seq![Callback::VisitExpr(*object)]
            + expr_visits(args@),
        Expression::BinaryOp { left, right, .. } => seq![
            Callback::VisitExpr(*left),
            Callback::VisitExpr(*right),
        ],
        Expression::Coalesce { left, right } => seq![
            Callback::VisitExpr(*left),
            Callback::VisitExpr(*right),
        ],
        Expression::Range { start, end, .. } => seq![
            Callback::VisitExpr(*start),
            Callback::VisitExpr(*end),
        ],
        Expression::UnaryOp { expr, .. } => seq![Callback::VisitExpr(*expr)],
        Expression::Call { name, args } => seq![Callback::Reference(name@, e.span)] + expr_visits(
            args@,
        ),
        Expression::Try(inner) => seq![Callback::VisitExpr(*inner)],
        Expression::UnwrapError(inner) => seq![Callback::VisitExpr(*inner)],
        Expression::ListLiteral(elements) => expr_visits(elements@),
        Expression::MapLiteral(entries) => entry_visits(entries@),
        Expression::Index { object, index } => seq![
            Callback::VisitExpr(*object),
            Callback::VisitExpr(*index),
        ],
        Expression::Block(stmts) => seq![Callback::EnterScope] + stmt_visits(stmts@) + seq![
            Callback::ExitScope,
        ],
        _ => seq![],
    }
}

// ---------------------------------------------------------------------------
// The walks
// ---------------------------------------------------------------------------

/// Visits each statement in order.
pub fn walk_stmts<V: AstVisitor>(visitor: &mut V, stmts: &Vec<Spanned<Statement>>)
    ensures
        final(visitor).calls() == old(visitor).calls() + stmt_visits(stmts@),
{
    let ghost c0 = visitor.calls();
    let mut i: usize = 0;
    proof {
        assert(c0 + stmt_visits(stmts@.take(0)) =~= c0);
    }
    while i < stmts.len()
        invariant
            i <= stmts@.len(),
            visitor.calls() == c0 + stmt_visits(stmts@.take(i as int)),
        decreases stmts@.len() - i,
    {
        visitor.visit_stmt(&stmts[i]);
        proof {
            assert(stmts@.take(i + 1).drop_last() =~= stmts@.take(i as int));
            assert(c0 + stmt_visits(stmts@.take(i + 1)) =~= (c0 + stmt_visits(stmts@.take(i as int))).push(
                Callback::VisitStmt(stmts@[i as int]),
            ));
        }
        i += 1;
    }
    proof {
        assert(stmts@.take(stmts@.len() as int) =~= stmts@);
    }
}

fn visit_all<V: AstVisitor>(visitor: &mut V, exprs: &Vec<Spanned<Expression>>)
    ensures
        final(visitor).calls() == old(visitor).calls() + expr_visits(exprs@),
{
    let ghost c0 = visitor.calls();
    let mut i: usize = 0;
    proof {
        assert(c0 + expr_visits(exprs@.take(0)) =~= c0);
    }
    while i < exprs.len()
        invariant
            i <= exprs@.len(),
            visitor.calls() == c0 + expr_visits(exprs@.take(i as int)),
        decreases exprs@.len() - i,
    {
        visitor.visit_expr(&exprs[i]);
        proof {
            assert(exprs@.take(i + 1).drop_last() =~= exprs@.take(i as int));
            assert(c0 + expr_visits(exprs@.take(i + 1)) =~= (c0 + expr_visits(exprs@.take(i as int))).push(
                Callback::VisitExpr(exprs@[i as int]),
            ));
        }
        i += 1;
    }
    proof {
        assert(exprs@.take(exprs@.len() as int) =~= exprs@);
    }
}

fn define_params<V: AstVisitor>(visitor: &mut V, params: &Vec<Param>, span: &Span)
    ensures
        final(visitor).calls() == old(visitor).calls() + param_defines(params@, *span),
{
    let ghost c0 = visitor.calls();
    let mut i: usize = 0;
    proof {
        assert(c0 + param_defines(params@.take(0), *span) =~= c0);
    }
    while i < params.len()
        invariant
            i <= params@.len(),
            visitor.calls() == c0 + param_defines(params@.take(i as int), *span),
        decreases params@.len() - i,
    {
        visitor.on_define(params[i].name.as_str(), span, span);
        proof {
            assert(params@.take(i + 1).drop_last() =~= params@.take(i as int));
            assert(c0 + param_defines(params@.take(i + 1), *span) =~= (c0 + param_defines(
                params@.take(i as int),
                *span,
            )).push(Callback::Define(params@[i as int].name@, *span, *span)));
        }
        i += 1;
    }
    proof {
        assert(params@.take(params@.len() as int) =~= params@);
    }
}

fn scoped<V: AstVisitor>(visitor: &mut V, name: &String, span: &Span, body: &Spanned<Expression>)
    ensures
        final(visitor).calls() == old(visitor).calls() + scoped_calls(name@, *span, *body),
{
    let ghost c0 = visitor.calls();
    visitor.enter_scope();
    visitor.on_define(name.as_str(), span, span);
    visitor.visit_expr(body);
    visitor.exit_scope();
    proof {
        assert(visitor.calls() =~= c0 + scoped_calls(name@, *span, *body));
    }
}

fn visit_opt<V: AstVisitor>(visitor: &mut V, e: &Option<Spanned<Expression>>)
    ensures
        final(visitor).calls() == old(visitor).calls() + opt_visit(*e),
{
    let ghost c0 = visitor.calls();
    match e {
        Some(x) => visitor.visit_expr(x),
        None => {},
    }
    proof {
        assert(visitor.calls() =~= c0 + opt_visit(*e));
    }
}

/// A method of an object: its name is defined; with a body, its
/// parameters are defined in a scope around the body.
fn walk_obj_method<V: AstVisitor>(visitor: &mut V, method: &ObjMethod, obj_span: &Span)
    ensures
        final(visitor).calls() == old(visitor).calls() + method_calls(*method, *obj_span),
{
    let ghost c0 = visitor.calls();
    visitor.on_define(method.name.as_str(), obj_span, obj_span);
    match &method.body {
        Some(body) => {
            visitor.enter_scope();
            let ghost c1 = visitor.calls();
            define_params(visitor, &method.params, obj_span);
            visitor.visit_expr(body);
            visitor.exit_scope();
            proof {
                assert(visitor.calls() =~= c0 + method_calls(*method, *obj_span));
            }
        },
        None => {
            proof {
                assert(visitor.calls() =~= c0 + method_calls(*method, *obj_span));
            }
        },
    }
}

fn walk_uses<V: AstVisitor>(visitor: &mut V, uses: &Vec<Vec<String>>, span: &Span)
    ensures
        final(visitor).calls() == old(visitor).calls() + use_references(uses@, *span),
{
    let ghost c0 = visitor.calls();
    let mut i: usize = 0;
    proof {
        assert(c0 + use_references(uses@.take(0), *span) =~= c0);
    }
    while i < uses.len()
        invariant
            i <= uses@.len(),
            visitor.calls() == c0 + use_references(uses@.take(i as int), *span),
        decreases uses@.len() - i,
    {
        let path = &uses[i];
        let ghost c1 = visitor.calls();
        let mut j: usize = 0;
        proof {
            assert(c1 + segment_references(path@.take(0), *span) =~= c1);
        }
        while j < path.len()
            invariant
                j <= path@.len(),
                visitor.calls() == c1 + segment_references(path@.take(j as int), *span),
            decreases path@.len() - j,
        {
            visitor.on_reference(path[j].as_str(), span);
            proof {
                assert(path@.take(j + 1).drop_last() =~= path@.take(j as int));
                assert(c1 + segment_references(path@.take(j + 1), *span) =~= (c1 + segment_references(
                    path@.take(j as int),
                    *span,
                )).push(Callback::Reference(path@[j as int]@, *span)));
            }
            j += 1;
        }
        proof {
            assert(path@.take(path@.len() as int) =~= path@);
            assert(uses@.take(i + 1).drop_last() =~= uses@.take(i as int));
            assert(c0 + use_references(uses@.take(i + 1), *span) =~= c1 + segment_references(
                path@,
                *span,
            ));
        }
        i += 1;
    }
    proof {
        assert(uses@.take(uses@.len() as int) =~= uses@);
    }
}

fn walk_methods<V: AstVisitor>(visitor: &mut V, methods: &Vec<ObjMethod>, span: &Span)
    ensures
        final(visitor).calls() == old(visitor).calls() + methods_calls(methods@, *span),
{
    let ghost c0 = visitor.calls();
    let mut k: usize = 0;
    proof {
        assert(c0 + methods_calls(methods@.take(0), *span) =~= c0);
    }
    while k < methods.len()
        invariant
            k <= methods@.len(),
            visitor.calls() == c0 + methods_calls(methods@.take(k as int), *span),
        decreases methods@.len() - k,
    {
        let ghost c1 = visitor.calls();
        walk_obj_method(visitor, &methods[k], span);
        proof {
            assert(methods@.take(k + 1).drop_last() =~= methods@.take(k as int));
            assert(c0 + methods_calls(methods@.take(k + 1), *span) =~= c1 + method_calls(
                methods@[k as int],
                *span,
            ));
        }
        k += 1;
    }
    proof {
        assert(methods@.take(methods@.len() as int) =~= methods@);
    }
}

/// The children of a statement, in source order.
pub fn walk_stmt<V: AstVisitor>(visitor: &mut V, stmt: &Spanned<Statement>)
    ensures
        final(visitor).calls() == old(visitor).calls() + stmt_calls(*stmt),
{
    let ghost c0 = visitor.calls();
    let span = &stmt.span;
    match &stmt.node {
        Statement::Let { name, value, .. } | Statement::Val { name, value, .. } => {
            visitor.on_define(name.as_str(), span, span);
            visitor.visit_expr(value);
        },
        Statement::Assignment { name, value } => {
            visitor.on_reference(name.as_str(), span);
            visitor.visit_expr(value);
        },
        Statement::FieldAssignment { object, value, .. } => {
            visitor.visit_expr(object);
            visitor.visit_expr(value);
        },
        Statement::IndexAssignment { object, index, value } => {
            visitor.visit_expr(object);
            visitor.visit_expr(index);
            visitor.visit_expr(value);
        },
        Statement::Function { name, params, body, .. } => {
            visitor.on_define(name.as_str(), span, span);
            visitor.enter_scope();
            define_params(visitor, params, span);
            visitor.visit_expr(body);
            visitor.exit_scope();
        },
        Statement::Return(value) => visit_opt(visitor, value),
        Statement::ObjDef { name, methods, uses, .. } => {
            visitor.on_define(name.as_str(), span, span);
            walk_uses(visitor, uses, span);
            walk_methods(visitor, methods, span);
        },
        Statement::If { condition, body, else_body } | Statement::Unless {
            condition,
            body,
            else_body,
        } => {
            visitor.visit_expr(condition);
            visitor.visit_expr(body);
            visit_opt(visitor, else_body);
        },
        Statement::IfLet { name, value, body, else_body } => {
            visitor.visit_expr(value);
            scoped(visitor, name, span, body);
            visit_opt(visitor, else_body);
        },
        Statement::While { condition, body } => {
            visitor.visit_expr(condition);
            visitor.visit_expr(body);
        },
        Statement::For { name, iterable, body } => {
            visitor.visit_expr(iterable);
            scoped(visitor, name, span, body);
        },
        Statement::Import { .. } | Statement::Break | Statement::Continue => {},
        Statement::Expression(e) => visitor.visit_expr(e),
        Statement::Test { body, .. } => {
            visitor.enter_scope();
            visitor.visit_expr(body);
            visitor.exit_scope();
        },
        Statement::Assert { condition } => visitor.visit_expr(condition),
    }
    proof {
        assert(visitor.calls() =~= c0 + stmt_calls(*stmt));
    }
}

/// The children of an expression, in source order; a block is a scope.
pub fn walk_expr<V: AstVisitor>(visitor: &mut V, expr: &Spanned<Expression>)
    ensures
        final(visitor).calls() == old(visitor).calls() + expr_calls(*expr),
{
    let ghost c0 = visitor.calls();
    match &expr.node {
        Expression::StringInterp(parts) => {
            let mut i: usize = 0;
            proof {
                assert(c0 + part_visits(parts@.take(0)) =~= c0);
            }
            while i < parts.len()
                invariant
                    i <= parts@.len(),
                    visitor.calls() == c0 + part_visits(parts@.take(i as int)),
                decreases parts@.len() - i,
            {
                let ghost c1 = visitor.calls();
                match &parts[i] {
                    StringPart::Interp(e) => visitor.visit_expr(e),
                    StringPart::Literal(_) => {},
                }
                proof {
                    assert(parts@.take(i + 1).drop_last() =~= parts@.take(i as int));
                    let extra = match parts@[i as int] {
                        StringPart::Interp(e) => seq![Callback::VisitExpr(e)],
                        StringPart::Literal(_) => Seq::<Callback>::empty(),
                    };
                    assert(visitor.calls() =~= c1 + extra);
                    assert(c0 + part_visits(parts@.take(i + 1)) =~= c1 + extra);
                }
                i += 1;
            }
            proof {
                assert(parts@.take(parts@.len() as int) =~= parts@);
            }
        },
        Expression::Ident(name) => visitor.on_reference(name.as_str(), &expr.span),
        Expression::ObjLiteral { fields, .. } => {
            let mut i: usize = 0;
            proof {
                assert(c0 + field_visits(fields@.take(0)) =~= c0);
            }
            while i < fields.len()
                invariant
                    i <= fields@.len(),
                    visitor.calls() == c0 + field_visits(fields@.take(i as int)),
                decreases fields@.len() - i,
            {
                visitor.visit_expr(&fields[i].1);
                proof {
                    assert(fields@.take(i + 1).drop_last() =~= fields@.take(i as int));
                    assert(c0 + field_visits(fields@.take(i + 1)) =~= (c0 + field_visits(
                        fields@.take(i as int),
                    )).push(Callback::VisitExpr(fields@[i as int].1)));
                }
                i += 1;
            }
            proof {
                assert(fields@.take(fields@.len() as int) =~= fields@);
            }
        },
        Expression::FieldAccess { object, .. } => visitor.visit_expr(object),
        Expression::MethodCall { object, args, .. } => {
            visitor.visit_expr(object);
            visit_all(visitor, args);
        },
        Expression::BinaryOp { left, right, .. } | Expression::Coalesce { left, right } => {
            visitor.visit_expr(left);
            visitor.visit_expr(right);
        },
        Expression::Range { start, end, .. } => {
            visitor.visit_expr(start);
            visitor.visit_expr(end);
        },
        Expression::UnaryOp { expr: operand, .. } => visitor.visit_expr(operand),
        Expression::Call { name, args } => {
            visitor.on_reference(name.as_str(), &expr.span);
            visit_all(visitor, args);
        },
        Expression::Try(inner) | Expression::UnwrapError(inner) => visitor.visit_expr(inner),
        Expression::ListLiteral(elements) => visit_all(visitor, elements),
        Expression::MapLiteral(entries) => {
            let mut i: usize = 0;
            proof {
                assert(c0 + entry_visits(entries@.take(0)) =~= c0);
            }
            while i < entries.len()
                invariant
                    i <= entries@.len(),
                    visitor.calls() == c0 + entry_visits(entries@.take(i as int)),
                decreases entries@.len() - i,
            {
                let ghost c1 = visitor.calls();
                visitor.visit_expr(&entries[i].0);
                visitor.visit_expr(&entries[i].1);
                proof {
                    assert(entries@.take(i + 1).drop_last() =~= entries@.take(i as int));
                    assert(c0 + entry_visits(entries@.take(i + 1)) =~= c1 + seq![
                        Callback::VisitExpr(entries@[i as int].0),
                        Callback::VisitExpr(entries@[i as int].1),
                    ]);
                    assert(visitor.calls() =~= c1 + seq![
                        Callback::VisitExpr(entries@[i as int].0),
                        Callback::VisitExpr(entries@[i as int].1),
                    ]);
                }
                i += 1;
            }
            proof {
                assert(entries@.take(entries@.len() as int) =~= entries@);
            }
        },
        Expression::Index { object, index } => {
            visitor.visit_expr(object);
            visitor.visit_expr(index);
        },
        Expression::Block(stmts) => {
            visitor.enter_scope();
            walk_stmts(visitor, stmts);
            visitor.exit_scope();
        },
        _ => {},
    }
    proof {
        assert(visitor.calls() =~= c0 + expr_calls(*expr));
    }
}


// ---------------------------------------------------------------------------
// Scopes are balanced
// ---------------------------------------------------------------------------

pub open spec fn scope_step(c: Callback) -> int {
    match c {
        Callback::EnterScope => 1,
        Callback::ExitScope => -1,
        _ => 0,
    }
}

/// Scopes entered minus scopes left along `cs`.
pub open spec fn open_scopes(cs: Seq<Callback>) -> int
    decreases cs.len(),
{
    if cs.len() == 0 {
        0
    } else {
        open_scopes(cs.drop_last()) + scope_step(cs.last())
    }
}

/// Every scope left was entered before, and every scope entered is left.
pub open spec fn balanced(cs: Seq<Callback>) -> bool {
    &&& open_scopes(cs) == 0
    &&& forall|k: int| 0 <= k <= cs.len() ==> open_scopes(#[trigger] cs.take(k)) >= 0
}

/// No scope callback at all.
pub open spec fn flat(cs: Seq<Callback>) -> bool {
    forall|k: int| 0 <= k < cs.len() ==> scope_step(#[trigger] cs[k]) == 0
}

proof fn lemma_flat_prefix(cs: Seq<Callback>, k: int)
    requires
        flat(cs),
        0 <= k <= cs.len(),
    ensures
        open_scopes(cs.take(k)) == 0,
    decreases k,
{
    if k > 0 {
        assert(cs.take(k).drop_last() =~= cs.take(k - 1));
        lemma_flat_prefix(cs, k - 1);
        assert(cs.take(k).last() == cs[k - 1]);
    }
}

proof fn lemma_flat_balanced(cs: Seq<Callback>)
    requires
        flat(cs),
    ensures
        balanced(cs),
{
    assert forall|k: int| 0 <= k <= cs.len() implies open_scopes(#[trigger] cs.take(k)) >= 0 by {
        lemma_flat_prefix(cs, k);
    }
    lemma_flat_prefix(cs, cs.len() as int);
    assert(cs.take(cs.len() as int) =~= cs);
}

proof fn lemma_open_concat(a: Seq<Callback>, b: Seq<Callback>)
    ensures
        open_scopes(a + b) == open_scopes(a) + open_scopes(b),
    decreases b.len(),
{
    if b.len() == 0 {
        assert(a + b =~= a);
    } else {
        assert((a + b).drop_last() =~= a + b.drop_last());
        lemma_open_concat(a, b.drop_last());
    }
}

proof fn lemma_concat_balanced(a: Seq<Callback>, b: Seq<Callback>)
    requires
        balanced(a),
        balanced(b),
    ensures
        balanced(a + b),
{
    lemma_open_concat(a, b);
    assert forall|k: int| 0 <= k <= (a + b).len() implies open_scopes(#[trigger] (a + b).take(k)) >= 0 by {
        if k <= a.len() {
            assert((a + b).take(k) =~= a.take(k));
        } else {
            assert((a + b).take(k) =~= a + b.take(k - a.len()));
            lemma_open_concat(a, b.take(k - a.len()));
            assert(open_scopes(b.take(k - a.len())) >= 0);
        }
    }
}

/// `[enter] + inner + [exit]` with `inner` flat is balanced.
proof fn lemma_bracket_balanced(inner: Seq<Callback>)
    requires
        flat(inner),
    ensures
        balanced(seq![Callback::EnterScope] + inner + seq![Callback::ExitScope]),
{
    let cs = seq![Callback::EnterScope] + inner + seq![Callback::ExitScope];
    lemma_flat_balanced(inner);
    lemma_open_concat(seq![Callback::EnterScope], inner);
    lemma_open_concat(seq![Callback::EnterScope] + inner, seq![Callback::ExitScope]);
    let enter = seq![Callback::EnterScope];
    let exit = seq![Callback::ExitScope];
    assert(open_scopes(Seq::<Callback>::empty()) == 0);
    assert(open_scopes(enter) == 1) by {
        assert(enter.drop_last() =~= Seq::<Callback>::empty());
        assert(enter.last() == Callback::EnterScope);
    }
    assert(open_scopes(exit) == -1) by {
        assert(exit.drop_last() =~= Seq::<Callback>::empty());
        assert(exit.last() == Callback::ExitScope);
    }
    assert forall|k: int| 0 <= k <= cs.len() implies open_scopes(#[trigger] cs.take(k)) >= 0 by {
        if k == 0 {
            assert(cs.take(0) =~= Seq::<Callback>::empty());
        } else if k <= inner.len() + 1 {
            assert(cs.take(k) =~= seq![Callback::EnterScope] + inner.take(k - 1));
            lemma_open_concat(seq![Callback::EnterScope], inner.take(k - 1));
            lemma_flat_prefix(inner, k - 1);
        } else {
            assert(cs.take(k) =~= cs);
        }
    }
}

proof fn lemma_visits_flat(s: Seq<Spanned<Expression>>)
    ensures
        flat(expr_visits(s)),
    decreases s.len(),
{
    if s.len() > 0 {
        lemma_visits_flat(s.drop_last());
    }
}

proof fn lemma_stmt_visits_flat(s: Seq<Spanned<Statement>>)
    ensures
        flat(stmt_visits(s)),
    decreases s.len(),
{
    if s.len() > 0 {
        lemma_stmt_visits_flat(s.drop_last());
    }
}

proof fn lemma_defines_flat(ps: Seq<Param>, span: Span)
    ensures
        flat(param_defines(ps, span)),
    decreases ps.len(),
{
    if ps.len() > 0 {
        lemma_defines_flat(ps.drop_last(), span);
    }
}

proof fn lemma_segments_flat(p: Seq<String>, span: Span)
    ensures
        flat(segment_references(p, span)),
    decreases p.len(),
{
    if p.len() > 0 {
        lemma_segments_flat(p.drop_last(), span);
    }
}

proof fn lemma_uses_flat(us: Seq<Vec<String>>, span: Span)
    ensures
        flat(use_references(us, span)),
    decreases us.len(),
{
    if us.len() > 0 {
        lemma_uses_flat(us.drop_last(), span);
        lemma_segments_flat(us.last()@, span);
        let a = use_references(us.drop_last(), span);
        let b = segment_references(us.last()@, span);
        assert forall|k: int| 0 <= k < (a + b).len() implies scope_step(#[trigger] (a + b)[k]) == 0 by {
            if k < a.len() {
                assert((a + b)[k] == a[k]);
            } else {
                assert((a + b)[k] == b[k - a.len()]);
            }
        }
    }
}

proof fn lemma_parts_flat(ps: Seq<StringPart>)
    ensures
        flat(part_visits(ps)),
    decreases ps.len(),
{
    if ps.len() > 0 {
        lemma_parts_flat(ps.drop_last());
        let a = part_visits(ps.drop_last());
        let b = match ps.last() {
            StringPart::Interp(e) => seq![Callback::VisitExpr(e)],
            StringPart::Literal(_) => Seq::<Callback>::empty(),
        };
        assert forall|k: int| 0 <= k < (a + b).len() implies scope_step(#[trigger] (a + b)[k]) == 0 by {
            if k < a.len() {
                assert((a + b)[k] == a[k]);
            } else {
                assert((a + b)[k] == b[k - a.len()]);
            }
        }
    }
}

proof fn lemma_fields_flat(fs: Seq<(String, Spanned<Expression>)>)
    ensures
        flat(field_visits(fs)),
    decreases fs.len(),
{
    if fs.len() > 0 {
        lemma_fields_flat(fs.drop_last());
    }
}

proof fn lemma_entries_flat(es: Seq<(Spanned<Expression>, Spanned<Expression>)>)
    ensures
        flat(entry_visits(es)),
    decreases es.len(),
{
    if es.len() > 0 {
        lemma_entries_flat(es.drop_last());
        let a = entry_visits(es.drop_last());
        let b = seq![Callback::VisitExpr(es.last().0), Callback::VisitExpr(es.last().1)];
        assert forall|k: int| 0 <= k < (a + b).len() implies scope_step(#[trigger] (a + b)[k]) == 0 by {
            if k < a.len() {
                assert((a + b)[k] == a[k]);
            } else {
                assert((a + b)[k] == b[k - a.len()]);
            }
        }
    }
}

proof fn lemma_flat_concat(a: Seq<Callback>, b: Seq<Callback>)
    requires
        flat(a),
        flat(b),
    ensures
        flat(a + b),
{
    assert forall|k: int| 0 <= k < (a + b).len() implies scope_step(#[trigger] (a + b)[k]) == 0 by {
        if k < a.len() {
            assert((a + b)[k] == a[k]);
        } else {
            assert((a + b)[k] == b[k - a.len()]);
        }
    }
}

proof fn lemma_methods_balanced(ms: Seq<ObjMethod>, span: Span)
    ensures
        balanced(methods_calls(ms, span)),
    decreases ms.len(),
{
    if ms.len() == 0 {
        lemma_flat_balanced(Seq::<Callback>::empty());
    } else {
        lemma_methods_balanced(ms.drop_last(), span);
        let m = ms.last();
        let head = seq![Callback::Define(m.name@, span, span)];
        lemma_flat_balanced(head);
        match m.body {
            Some(b) => {
                lemma_defines_flat(m.params@, span);
                let inner = param_defines(m.params@, span) + seq![Callback::VisitExpr(b)];
                lemma_flat_concat(param_defines(m.params@, span), seq![Callback::VisitExpr(b)]);
                lemma_bracket_balanced(inner);
                assert(seq![Callback::EnterScope] + param_defines(m.params@, span) + seq![
                    Callback::VisitExpr(b),
                    Callback::ExitScope,
                ] =~= seq![Callback::EnterScope] + inner + seq![Callback::ExitScope]);
                lemma_concat_balanced(head, seq![Callback::EnterScope] + inner + seq![Callback::ExitScope]);
            },
            None => {
                assert(head + Seq::<Callback>::empty() =~= head);
            },
        }
        lemma_concat_balanced(methods_calls(ms.drop_last(), span), method_calls(m, span));
    }
}

/// The scope callbacks of every walk are balanced: along the callbacks a
/// walk makes, no scope is left before it is entered, and every scope
/// entered is left by the end.
pub proof fn walks_balance_scopes(st: Spanned<Statement>, e: Spanned<Expression>)
    ensures
        balanced(stmt_calls(st)),
        balanced(expr_calls(e)),
{
    let span = st.span;
    match st.node {
        Statement::Function { name, params, body, .. } => {
            lemma_defines_flat(params@, span);
            let inner = param_defines(params@, span) + seq![Callback::VisitExpr(body)];
            lemma_flat_concat(param_defines(params@, span), seq![Callback::VisitExpr(body)]);
            lemma_bracket_balanced(inner);
            let head = seq![Callback::Define(name@, span, span)];
            lemma_flat_balanced(head);
            lemma_concat_balanced(head, seq![Callback::EnterScope] + inner + seq![Callback::ExitScope]);
            assert(stmt_calls(st) =~= head + (seq![Callback::EnterScope] + inner + seq![Callback::ExitScope]));
        },
        Statement::ObjDef { name, methods, uses, .. } => {
            let head = seq![Callback::Define(name@, span, span)];
            lemma_uses_flat(uses@, span);
            lemma_flat_concat(head, use_references(uses@, span));
            lemma_flat_balanced(head + use_references(uses@, span));
            lemma_methods_balanced(methods@, span);
            lemma_concat_balanced(head + use_references(uses@, span), methods_calls(methods@, span));
        },
        Statement::IfLet { name, value, body, else_body } => {
            let head = seq![Callback::VisitExpr(value)];
            let inner = seq![Callback::Define(name@, span, span), Callback::VisitExpr(body)];
            lemma_bracket_balanced(inner);
            assert(scoped_calls(name@, span, body) =~= seq![Callback::EnterScope] + inner + seq![Callback::ExitScope]);
            lemma_flat_balanced(head);
            lemma_flat_balanced(opt_visit(else_body));
            lemma_concat_balanced(head, scoped_calls(name@, span, body));
            lemma_concat_balanced(head + scoped_calls(name@, span, body), opt_visit(else_body));
        },
        Statement::For { name, iterable, body } => {
            let head = seq![Callback::VisitExpr(iterable)];
            let inner = seq![Callback::Define(name@, span, span), Callback::VisitExpr(body)];
            lemma_bracket_balanced(inner);
            assert(scoped_calls(name@, span, body) =~= seq![Callback::EnterScope] + inner + seq![Callback::ExitScope]);
            lemma_flat_balanced(head);
            lemma_concat_balanced(head, scoped_calls(name@, span, body));
        },
        Statement::Test { body, .. } => {
            lemma_bracket_balanced(seq![Callback::VisitExpr(body)]);
            assert(stmt_calls(st) =~= seq![Callback::EnterScope] + seq![Callback::VisitExpr(body)] + seq![Callback::ExitScope]);
        },
        _ => {
            lemma_flat_balanced(stmt_calls(st));
        },
    }
    match e.node {
        Expression::StringInterp(parts) => {
            lemma_parts_flat(parts@);
            lemma_flat_balanced(expr_calls(e));
        },
        Expression::ObjLiteral { fields, .. } => {
            lemma_fields_flat(fields@);
            lemma_flat_balanced(expr_calls(e));
        },
        Expression::MethodCall { object, args, .. } => {
            lemma_visits_flat(args@);
            lemma_flat_concat(seq![Callback::VisitExpr(*object)], expr_visits(args@));
            lemma_flat_balanced(expr_calls(e));
        },
        Expression::Call { name, args } => {
            lemma_visits_flat(args@);
            lemma_flat_concat(seq![Callback::Reference(name@, e.span)], expr_visits(args@));
            lemma_flat_balanced(expr_calls(e));
        },
        Expression::ListLiteral(xs) => {
            lemma_visits_flat(xs@);
            lemma_flat_balanced(expr_calls(e));
        },
        Expression::MapLiteral(entries) => {
            lemma_entries_flat(entries@);
            lemma_flat_balanced(expr_calls(e));
        },
        Expression::Block(stmts) => {
            lemma_stmt_visits_flat(stmts@);
            lemma_bracket_balanced(stmt_visits(stmts@));
        },
        _ => {
            lemma_flat_balanced(expr_calls(e));
        },
    }
}

} // verus!

verus! {

/// A walk of a statement visits every expression in it: of a conditional
/// or a loop, the condition (or the unwrapped value or iterable) first,
/// then the body, and the `else` branch whenever there is one; of a
/// binding, the name defined before its value is visited; of an
/// assignment, the name referenced before its value is visited.
pub proof fn walks_visit_every_branch(st: Spanned<Statement>)
    ensures
        st.node matches Statement::If { condition, body, else_body } ==> {
            &&& stmt_calls(st)[0] == Callback::VisitExpr(condition)
            &&& stmt_calls(st)[1] == Callback::VisitExpr(body)
            &&& (else_body matches Some(x) ==> stmt_calls(st).contains(Callback::VisitExpr(x)))
        },
        st.node matches Statement::Unless { condition, body, else_body } ==> {
            &&& stmt_calls(st)[0] == Callback::VisitExpr(condition)
            &&& stmt_calls(st)[1] == Callback::VisitExpr(body)
            &&& (else_body matches Some(x) ==> stmt_calls(st).contains(Callback::VisitExpr(x)))
        },
        st.node matches Statement::IfLet { value, body, else_body, .. } ==> {
            &&& stmt_calls(st)[0] == Callback::VisitExpr(value)
            &&& stmt_calls(st).contains(Callback::VisitExpr(body))
            &&& (else_body matches Some(x) ==> stmt_calls(st).contains(Callback::VisitExpr(x)))
        },
        st.node matches Statement::While { condition, body } ==> {
            &&& stmt_calls(st)[0] == Callback::VisitExpr(condition)
            &&& stmt_calls(st)[1] == Callback::VisitExpr(body)
        },
        st.node matches Statement::For { iterable, body, .. } ==> {
            &&& stmt_calls(st)[0] == Callback::VisitExpr(iterable)
            &&& stmt_calls(st).contains(Callback::VisitExpr(body))
        },
        st.node matches Statement::Let { name, value, .. } ==> {
            &&& stmt_calls(st)[0] == Callback::Define(name@, st.span, st.span)
            &&& stmt_calls(st)[1] == Callback::VisitExpr(value)
        },
        st.node matches Statement::Val { name, value, .. } ==> {
            &&& stmt_calls(st)[0] == Callback::Define(name@, st.span, st.span)
            &&& stmt_calls(st)[1] == Callback::VisitExpr(value)
        },
        st.node matches Statement::Assignment { name, value } ==> {
            &&& stmt_calls(st)[0] == Callback::Reference(name@, st.span)
            &&& stmt_calls(st)[1] == Callback::VisitExpr(value)
        },
        st.node matches Statement::Return(Some(x)) ==> stmt_calls(st)[0] == Callback::VisitExpr(x),
        st.node matches Statement::Expression(x) ==> stmt_calls(st)[0] == Callback::VisitExpr(x),
        st.node matches Statement::Assert { condition } ==> stmt_calls(st)[0] == Callback::VisitExpr(
            condition,
        ),
{
    match st.node {
        Statement::If { condition, body, else_body } => {
            if let Some(x) = else_body {
                assert(stmt_calls(st)[2] == Callback::VisitExpr(x));
            }
        },
        Statement::Unless { condition, body, else_body } => {
            if let Some(x) = else_body {
                assert(stmt_calls(st)[2] == Callback::VisitExpr(x));
            }
        },
        Statement::For { body, .. } => {
            assert(stmt_calls(st)[3] == Callback::VisitExpr(body));
        },
        Statement::IfLet { value, body, else_body, .. } => {
            assert(stmt_calls(st)[3] == Callback::VisitExpr(body));
            if let Some(x) = else_body {
                assert(stmt_calls(st)[5] == Callback::VisitExpr(x));
            }
        },
        _ => {},
    }
}

} // verus!
