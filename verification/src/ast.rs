//! The syntax tree produced by the parser, and its mathematical view.
//!
//! Every node carries the byte span of the source it was parsed from.
//! The view (`*_v` functions) turns strings into `Seq<char>`, vectors
//! into `Seq`, and spans into pairs of integers, so that the parser's
//! specification can build trees in spec code.

use std::ops::Range;
use vstd::prelude::*;

verus! {

/// Byte-offset span in the source.
pub type Span = Range<usize>;

/// An AST node paired with its source span.
#[derive(Debug)]
pub struct Spanned<T> {
    pub node: T,
    pub span: Span,
}

impl<T> Spanned<T> {
    /// Pairs a node with its span.
    pub fn new(node: T, span: Span) -> (r: Self)
        ensures
            r.node == node,
            r.span.start == span.start,
            r.span.end == span.end,
    {
        Spanned { node, span: Range { start: span.start, end: span.end } }
    }
}

/// A statement.
#[derive(Debug)]
pub enum Statement {
    Let {
        name: String,
        value: Spanned<Expression>,
        type_ann: Option<TypeAnnotation>,
        is_pub: bool,
    },
    Val {
        name: String,
        value: Spanned<Expression>,
        type_ann: Option<TypeAnnotation>,
        is_pub: bool,
    },
    Function {
        name: String,
        params: Vec<Param>,
        body: Spanned<Expression>,
        return_type: Option<TypeAnnotation>,
        is_pub: bool,
    },
    Return(Option<Spanned<Expression>>),
    /// `obj Name { fields, methods, use clauses }`. Each `use` clause is
    /// a dotted path: `use Health` is `["Health"]`, `use combat.Health`
    /// is `["combat", "Health"]`.
    ObjDef {
        name: String,
        fields: Vec<ObjField>,
        methods: Vec<ObjMethod>,
        uses: Vec<Vec<String>>,
        is_pub: bool,
    },
    /// `object.field = value`.
    FieldAssignment {
        object: Spanned<Expression>,
        field: String,
        value: Spanned<Expression>,
    },
    /// `object[index] = value`.
    IndexAssignment {
        object: Spanned<Expression>,
        index: Spanned<Expression>,
        value: Spanned<Expression>,
    },
    Assignment {
        name: String,
        value: Spanned<Expression>,
    },
    /// `if cond { .. }`, with an `else` block or an `elif` chain (an
    /// `elif` is a block holding the next `if`).
    If {
        condition: Spanned<Expression>,
        body: Spanned<Expression>,
        else_body: Option<Spanned<Expression>>,
    },
    /// `if let name = value { .. } else { .. }`: unwraps a nillable.
    IfLet {
        name: String,
        value: Spanned<Expression>,
        body: Spanned<Expression>,
        else_body: Option<Spanned<Expression>>,
    },
    /// `unless cond { .. } else { .. }`.
    Unless {
        condition: Spanned<Expression>,
        body: Spanned<Expression>,
        else_body: Option<Spanned<Expression>>,
    },
    While {
        condition: Spanned<Expression>,
        body: Spanned<Expression>,
    },
    For {
        name: String,
        iterable: Spanned<Expression>,
        body: Spanned<Expression>,
    },
    /// `import foo.bar.baz`.
    Import {
        path: Vec<String>,
    },
    Break,
    Continue,
    Expression(Spanned<Expression>),
    /// `test "name" { .. }`.
    Test {
        name: String,
        body: Spanned<Expression>,
    },
    /// `assert(expr)`.
    Assert {
        condition: Spanned<Expression>,
    },
}

/// An expression.
#[derive(Debug)]
pub enum Expression {
    Nil,
    True,
    False,
    /// A float literal, as written in the source.
    Float(String),
    Int(i32),
    String(String),
    StringInterp(Vec<StringPart>),
    Ident(String),
    /// `Type { field: value, .. }`; the type is a dotted path.
    ObjLiteral {
        type_path: Vec<String>,
        fields: Vec<(String, Spanned<Expression>)>,
    },
    FieldAccess {
        object: Box<Spanned<Expression>>,
        field: String,
    },
    MethodCall {
        object: Box<Spanned<Expression>>,
        method: String,
        args: Vec<Spanned<Expression>>,
    },
    BinaryOp {
        op: BinOp,
        left: Box<Spanned<Expression>>,
        right: Box<Spanned<Expression>>,
    },
    Range {
        start: Box<Spanned<Expression>>,
        end: Box<Spanned<Expression>>,
        inclusive: bool,
    },
    UnaryOp {
        op: UnaryOp,
        expr: Box<Spanned<Expression>>,
    },
    Call {
        name: String,
        args: Vec<Spanned<Expression>>,
    },
    /// `try expr`.
    Try(Box<Spanned<Expression>>),
    /// `!expr`.
    UnwrapError(Box<Spanned<Expression>>),
    /// `a orelse b`.
    Coalesce {
        left: Box<Spanned<Expression>>,
        right: Box<Spanned<Expression>>,
    },
    /// `[a, b, c]`.
    ListLiteral(Vec<Spanned<Expression>>),
    /// `{ key: value, .. }`.
    MapLiteral(Vec<(Spanned<Expression>, Spanned<Expression>)>),
    /// `object[index]`.
    Index {
        object: Box<Spanned<Expression>>,
        index: Box<Spanned<Expression>>,
    },
    Block(Vec<Spanned<Statement>>),
}

/// A binary operator.
#[derive(Debug, Clone, Copy, PartialEq, Eq, Structural)]
pub enum BinOp {
    Equals,
    NotEquals,
    LessThan,
    GreaterThan,
    LessThanEquals,
    GreaterThanEquals,
    And,
    Or,
    Add,
    Sub,
    Mul,
    Div,
}

/// A unary operator.
#[derive(Debug, Clone, Copy, PartialEq, Eq, Structural)]
pub enum UnaryOp {
    Not,
    Negate,
}

/// A type annotation.
#[derive(Debug)]
pub enum TypeAnnotation {
    /// A dotted type name: `Vec2` is `["Vec2"]`, `math.Vec2` is
    /// `["math", "Vec2"]`.
    Named(Vec<String>),
    /// `T?`.
    Nillable(Box<TypeAnnotation>),
    /// `!T`.
    ErrorUnion(Box<TypeAnnotation>),
    /// `[T]`.
    List(Box<TypeAnnotation>),
    /// `{K: V}`.
    MapOf(Box<TypeAnnotation>, Box<TypeAnnotation>),
}

/// A field declared inside an `obj` body.
#[derive(Debug)]
pub struct ObjField {
    pub name: String,
    pub type_ann: TypeAnnotation,
    pub span: Span,
    pub is_pub: bool,
}

/// A method declared inside an `obj` body; `body` is `None` for a
/// signature without a body.
#[derive(Debug)]
pub struct ObjMethod {
    pub name: String,
    pub params: Vec<Param>,
    pub body: Option<Spanned<Expression>>,
    pub return_type: Option<TypeAnnotation>,
    pub is_pub: bool,
    pub span: Span,
}

/// A parameter; `is_mut` when declared `mut x`.
#[derive(Debug, Clone)]
pub struct Param {
    pub name: String,
    pub type_ann: Option<TypeAnnotation>,
    pub is_mut: bool,
}

/// A variant of an enum declaration: nullary (no fields) or with named
/// payload fields.
#[derive(Debug)]
pub struct EnumVariant {
    pub name: String,
    pub fields: Vec<ObjField>,
    pub span: Span,
}

/// A pattern on the left of `=>` in a match arm.
#[derive(Debug)]
pub enum Pattern {
    /// `Enum.Variant`, optionally with `{ field, field: name }` bindings.
    Variant {
        enum_name: String,
        variant_name: String,
        bindings: Option<Vec<PatternBinding>>,
    },
    /// `_`.
    Wildcard,
    /// `ok name`.
    OkBinding {
        name: String,
    },
}

/// A payload field binding inside a variant pattern.
#[derive(Debug, Clone)]
pub struct PatternBinding {
    pub field: String,
    pub name: String,
    pub span: Span,
}

/// A piece of an interpolated string.
#[derive(Debug)]
pub enum StringPart {
    Literal(String),
    Interp(Spanned<Expression>),
}

impl TypeAnnotation {
    /// A copy with the same value.
    pub fn duplicate(&self) -> (r: TypeAnnotation)
        ensures
            type_v(r) == type_v(*self),
        decreases self,
    {
        match self {
            TypeAnnotation::Named(p) => TypeAnnotation::Named(crate::types::copy_strings(p)),
            TypeAnnotation::Nillable(b) => TypeAnnotation::Nillable(Box::new(b.duplicate())),
            TypeAnnotation::ErrorUnion(b) => TypeAnnotation::ErrorUnion(Box::new(b.duplicate())),
            TypeAnnotation::List(b) => TypeAnnotation::List(Box::new(b.duplicate())),
            TypeAnnotation::MapOf(k, v) => TypeAnnotation::MapOf(
                Box::new(k.duplicate()),
                Box::new(v.duplicate()),
            ),
        }
    }
}

impl Clone for TypeAnnotation {
    fn clone(&self) -> (r: TypeAnnotation)
        ensures
            type_v(r) == type_v(*self),
    {
        self.duplicate()
    }
}

impl Param {
    /// A parameter declared without `mut`.
    pub fn new(name: String, type_ann: Option<TypeAnnotation>) -> (r: Self)
        ensures
            r.name == name,
            r.type_ann == type_ann,
            !r.is_mut,
    {
        Param { name, type_ann, is_mut: false }
    }
}

impl ObjMethod {
    /// Whether the method mutates `self`: the first parameter named
    /// `self` is declared `mut`. A method without a `self` parameter
    /// never does.
    pub fn is_mut(&self) -> (r: bool)
        ensures
            r == method_is_mut(self.params@),
    {
        let mut k: usize = 0;
        while k < self.params.len()
            invariant
                k <= self.params@.len(),
                forall|j: int| 0 <= j < k ==> self.params@[j].name@ != "self"@,
            decreases self.params@.len() - k,
        {
            if crate::text::str_eq(self.params[k].name.as_str(), "self") {
                return self.params[k].is_mut;
            }
            k += 1;
        }
        false
    }
}

/// The first parameter named `self` is declared `mut`.
pub open spec fn method_is_mut(params: Seq<Param>) -> bool {
    exists|k: int|
        0 <= k < params.len() && params[k].name@ == "self"@ && params[k].is_mut && forall|j: int|
            0 <= j < k ==> params[j].name@ != "self"@
}

// ---------------------------------------------------------------------------
// The mathematical view of the tree.
// ---------------------------------------------------------------------------

pub enum TypeV {
    Named(Seq<Seq<char>>),
    Nillable(Box<TypeV>),
    ErrorUnion(Box<TypeV>),
    List(Box<TypeV>),
    MapOf(Box<TypeV>, Box<TypeV>),
}

pub struct ParamV {
    pub name: Seq<char>,
    pub type_ann: Option<TypeV>,
    pub is_mut: bool,
}

pub struct FieldV {
    pub name: Seq<char>,
    pub type_ann: TypeV,
    pub span: (int, int),
    pub is_pub: bool,
}

pub struct MethodV {
    pub name: Seq<char>,
    pub params: Seq<ParamV>,
    pub body: Option<SExpr>,
    pub return_type: Option<TypeV>,
    pub is_pub: bool,
    pub span: (int, int),
}

/// An expression with its span.
pub struct SExpr {
    pub node: ExprV,
    pub span: (int, int),
}

/// A statement with its span.
pub struct SStmt {
    pub node: StmtV,
    pub span: (int, int),
}

pub enum PartV {
    Literal(Seq<char>),
    Interp(SExpr),
}

pub enum ExprV {
    Nil,
    True,
    False,
    Float(Seq<char>),
    Int(i32),
    Str(Seq<char>),
    Interp(Seq<PartV>),
    Ident(Seq<char>),
    ObjLiteral(Seq<Seq<char>>, Seq<(Seq<char>, SExpr)>),
    FieldAccess(Box<SExpr>, Seq<char>),
    MethodCall(Box<SExpr>, Seq<char>, Seq<SExpr>),
    Binary(BinOp, Box<SExpr>, Box<SExpr>),
    Range(Box<SExpr>, Box<SExpr>, bool),
    Unary(UnaryOp, Box<SExpr>),
    Call(Seq<char>, Seq<SExpr>),
    Try(Box<SExpr>),
    UnwrapError(Box<SExpr>),
    Coalesce(Box<SExpr>, Box<SExpr>),
    List(Seq<SExpr>),
    MapLit(Seq<(SExpr, SExpr)>),
    Index(Box<SExpr>, Box<SExpr>),
    Block(Seq<SStmt>),
}

pub enum StmtV {
    Let(Seq<char>, SExpr, Option<TypeV>, bool),
    Val(Seq<char>, SExpr, Option<TypeV>, bool),
    Function(Seq<char>, Seq<ParamV>, SExpr, Option<TypeV>, bool),
    Return(Option<SExpr>),
    ObjDef(Seq<char>, Seq<FieldV>, Seq<MethodV>, Seq<Seq<Seq<char>>>, bool),
    FieldAssignment(SExpr, Seq<char>, SExpr),
    IndexAssignment(SExpr, SExpr, SExpr),
    Assignment(Seq<char>, SExpr),
    If(SExpr, SExpr, Option<SExpr>),
    IfLet(Seq<char>, SExpr, SExpr, Option<SExpr>),
    Unless(SExpr, SExpr, Option<SExpr>),
    While(SExpr, SExpr),
    For(Seq<char>, SExpr, SExpr),
    Import(Seq<Seq<char>>),
    Break,
    Continue,
    Expression(SExpr),
    Test(Seq<char>, SExpr),
    Assert(SExpr),
}

pub open spec fn span_v(s: Span) -> (int, int) {
    (s.start as int, s.end as int)
}

pub open spec fn strs_v(s: Seq<String>) -> Seq<Seq<char>> {
    s.map_values(|x: String| x@)
}

pub open spec fn paths_v(s: Seq<Vec<String>>) -> Seq<Seq<Seq<char>>> {
    s.map_values(|x: Vec<String>| strs_v(x@))
}

pub open spec fn type_v(t: TypeAnnotation) -> TypeV
    decreases t,
{
    match t {
        TypeAnnotation::Named(p) => TypeV::Named(strs_v(p@)),
        TypeAnnotation::Nillable(b) => TypeV::Nillable(Box::new(type_v(*b))),
        TypeAnnotation::ErrorUnion(b) => TypeV::ErrorUnion(Box::new(type_v(*b))),
        TypeAnnotation::List(b) => TypeV::List(Box::new(type_v(*b))),
        TypeAnnotation::MapOf(k, v) => TypeV::MapOf(Box::new(type_v(*k)), Box::new(type_v(*v))),
    }
}

pub open spec fn opt_type_v(t: Option<TypeAnnotation>) -> Option<TypeV> {
    match t {
        Some(t) => Some(type_v(t)),
        None => None,
    }
}

pub open spec fn param_v(p: Param) -> ParamV {
    ParamV { name: p.name@, type_ann: opt_type_v(p.type_ann), is_mut: p.is_mut }
}

pub open spec fn params_v(s: Seq<Param>) -> Seq<ParamV> {
    s.map_values(|p: Param| param_v(p))
}

pub open spec fn field_v(f: ObjField) -> FieldV {
    FieldV { name: f.name@, type_ann: type_v(f.type_ann), span: span_v(f.span), is_pub: f.is_pub }
}

pub open spec fn fields_v(s: Seq<ObjField>) -> Seq<FieldV> {
    s.map_values(|f: ObjField| field_v(f))
}

#[verifier::opaque]
pub open spec fn expr_v(e: Spanned<Expression>) -> SExpr
    decreases e,
{
    SExpr {
        node: match e.node {
            Expression::Nil => ExprV::Nil,
            Expression::True => ExprV::True,
            Expression::False => ExprV::False,
            Expression::Float(t) => ExprV::Float(t@),
            Expression::Int(n) => ExprV::Int(n),
            Expression::String(s) => ExprV::Str(s@),
            Expression::StringInterp(parts) => ExprV::Interp(parts_v(parts@)),
            Expression::Ident(n) => ExprV::Ident(n@),
            Expression::ObjLiteral { type_path, fields } => ExprV::ObjLiteral(
                strs_v(type_path@),
                named_v(fields@),
            ),
            Expression::FieldAccess { object, field } => ExprV::FieldAccess(
                Box::new(expr_v(*object)),
                field@,
            ),
            Expression::MethodCall { object, method, args } => ExprV::MethodCall(
                Box::new(expr_v(*object)),
                method@,
                exprs_v(args@),
            ),
            Expression::BinaryOp { op, left, right } => ExprV::Binary(
                op,
                Box::new(expr_v(*left)),
                Box::new(expr_v(*right)),
            ),
            Expression::Range { start, end, inclusive } => ExprV::Range(
                Box::new(expr_v(*start)),
                Box::new(expr_v(*end)),
                inclusive,
            ),
            Expression::UnaryOp { op, expr } => ExprV::Unary(op, Box::new(expr_v(*expr))),
            Expression::Call { name, args } => ExprV::Call(name@, exprs_v(args@)),
            Expression::Try(x) => ExprV::Try(Box::new(expr_v(*x))),
            Expression::UnwrapError(x) => ExprV::UnwrapError(Box::new(expr_v(*x))),
            Expression::Coalesce { left, right } => ExprV::Coalesce(
                Box::new(expr_v(*left)),
                Box::new(expr_v(*right)),
            ),
            Expression::ListLiteral(xs) => ExprV::List(exprs_v(xs@)),
            Expression::MapLiteral(xs) => ExprV::MapLit(pairs_v(xs@)),
            Expression::Index { object, index } => ExprV::Index(
                Box::new(expr_v(*object)),
                Box::new(expr_v(*index)),
            ),
            Expression::Block(ss) => ExprV::Block(stmts_v(ss@)),
        },
        span: span_v(e.span),
    }
}

/// The view of an expression node, whatever its span.
pub open spec fn node_v(e: Expression) -> ExprV {
    expr_v(Spanned { node: e, span: Range { start: 0, end: 0 } }).node
}

pub open spec fn opt_expr_v(e: Option<Spanned<Expression>>) -> Option<SExpr>
    decreases e,
{
    match e {
        Some(x) => Some(expr_v(x)),
        None => None,
    }
}

pub proof fn lemma_opt_expr_v(e: Option<Spanned<Expression>>)
    ensures
        opt_expr_v(e) == match e {
            Some(x) => Some(expr_v(x)),
            None => None,
        },
{
    reveal(expr_v);
    reveal(stmt_v);
}

pub open spec fn exprs_v(s: Seq<Spanned<Expression>>) -> Seq<SExpr>
    decreases s,
{
    if s.len() == 0 {
        seq![]
    } else {
        exprs_v(s.drop_last()).push(expr_v(s[s.len() - 1]))
    }
}

pub proof fn lemma_exprs_push(s: Seq<Spanned<Expression>>, e: Spanned<Expression>)
    ensures
        exprs_v(s.push(e)) == exprs_v(s).push(expr_v(e)),
        exprs_v(Seq::<Spanned<Expression>>::empty()) == Seq::<SExpr>::empty(),
{
    reveal(expr_v);
    reveal(stmt_v);
    assert(s.push(e).drop_last() =~= s);
}

pub proof fn lemma_exprs_v_len(s: Seq<Spanned<Expression>>)
    ensures
        exprs_v(s).len() == s.len(),
    decreases s.len(),
{
    if s.len() > 0 {
        lemma_exprs_v_len(s.drop_last());
    }
}

pub open spec fn named_v(s: Seq<(String, Spanned<Expression>)>) -> Seq<(Seq<char>, SExpr)>
    decreases s,
{
    if s.len() == 0 {
        seq![]
    } else {
        named_v(s.drop_last()).push((s[s.len() - 1].0@, expr_v(s[s.len() - 1].1)))
    }
}

pub proof fn lemma_named_push(s: Seq<(String, Spanned<Expression>)>, e: (String, Spanned<Expression>))
    ensures
        named_v(s.push(e)) == named_v(s).push((e.0@, expr_v(e.1))),
        named_v(Seq::<(String, Spanned<Expression>)>::empty()) == Seq::<(Seq<char>, SExpr)>::empty(),
{
    reveal(expr_v);
    reveal(stmt_v);
    assert(s.push(e).drop_last() =~= s);
}

pub open spec fn pairs_v(s: Seq<(Spanned<Expression>, Spanned<Expression>)>) -> Seq<(SExpr, SExpr)>
    decreases s,
{
    if s.len() == 0 {
        seq![]
    } else {
        pairs_v(s.drop_last()).push((expr_v(s[s.len() - 1].0), expr_v(s[s.len() - 1].1)))
    }
}

pub proof fn lemma_pairs_push(
    s: Seq<(Spanned<Expression>, Spanned<Expression>)>,
    e: (Spanned<Expression>, Spanned<Expression>),
)
    ensures
        pairs_v(s.push(e)) == pairs_v(s).push((expr_v(e.0), expr_v(e.1))),
        pairs_v(Seq::<(Spanned<Expression>, Spanned<Expression>)>::empty()) == Seq::<
            (SExpr, SExpr),
        >::empty(),
{
    reveal(expr_v);
    reveal(stmt_v);
    assert(s.push(e).drop_last() =~= s);
}

pub open spec fn part_v(p: StringPart) -> PartV
    decreases p,
{
    match p {
        StringPart::Literal(t) => PartV::Literal(t@),
        StringPart::Interp(x) => PartV::Interp(expr_v(x)),
    }
}

pub open spec fn parts_v(s: Seq<StringPart>) -> Seq<PartV>
    decreases s,
{
    if s.len() == 0 {
        seq![]
    } else {
        parts_v(s.drop_last()).push(part_v(s[s.len() - 1]))
    }
}

pub open spec fn method_v(m: ObjMethod) -> MethodV
    decreases m,
{
    MethodV {
        name: m.name@,
        params: params_v(m.params@),
        body: opt_expr_v(m.body),
        return_type: opt_type_v(m.return_type),
        is_pub: m.is_pub,
        span: span_v(m.span),
    }
}

pub open spec fn methods_v(s: Seq<ObjMethod>) -> Seq<MethodV>
    decreases s,
{
    if s.len() == 0 {
        seq![]
    } else {
        methods_v(s.drop_last()).push(method_v(s[s.len() - 1]))
    }
}

pub proof fn lemma_methods_push(s: Seq<ObjMethod>, e: ObjMethod)
    ensures
        methods_v(s.push(e)) == methods_v(s).push(method_v(e)),
        methods_v(Seq::<ObjMethod>::empty()) == Seq::<MethodV>::empty(),
{
    reveal(expr_v);
    reveal(stmt_v);
    assert(s.push(e).drop_last() =~= s);
}

#[verifier::opaque]
pub open spec fn stmt_v(st: Spanned<Statement>) -> SStmt
    decreases st,
{
    SStmt {
        node: match st.node {
            Statement::Let { name, value, type_ann, is_pub } => StmtV::Let(
                name@,
                expr_v(value),
                opt_type_v(type_ann),
                is_pub,
            ),
            Statement::Val { name, value, type_ann, is_pub } => StmtV::Val(
                name@,
                expr_v(value),
                opt_type_v(type_ann),
                is_pub,
            ),
            Statement::Function { name, params, body, return_type, is_pub } => StmtV::Function(
                name@,
                params_v(params@),
                expr_v(body),
                opt_type_v(return_type),
                is_pub,
            ),
            Statement::Return(x) => StmtV::Return(opt_expr_v(x)),
            Statement::ObjDef { name, fields, methods, uses, is_pub } => StmtV::ObjDef(
                name@,
                fields_v(fields@),
                methods_v(methods@),
                paths_v(uses@),
                is_pub,
            ),
            Statement::FieldAssignment { object, field, value } => StmtV::FieldAssignment(
                expr_v(object),
                field@,
                expr_v(value),
            ),
            Statement::IndexAssignment { object, index, value } => StmtV::IndexAssignment(
                expr_v(object),
                expr_v(index),
                expr_v(value),
            ),
            Statement::Assignment { name, value } => StmtV::Assignment(name@, expr_v(value)),
            Statement::If { condition, body, else_body } => StmtV::If(
                expr_v(condition),
                expr_v(body),
                opt_expr_v(else_body),
            ),
            Statement::IfLet { name, value, body, else_body } => StmtV::IfLet(
                name@,
                expr_v(value),
                expr_v(body),
                opt_expr_v(else_body),
            ),
            Statement::Unless { condition, body, else_body } => StmtV::Unless(
                expr_v(condition),
                expr_v(body),
                opt_expr_v(else_body),
            ),
            Statement::While { condition, body } => StmtV::While(expr_v(condition), expr_v(body)),
            Statement::For { name, iterable, body } => StmtV::For(
                name@,
                expr_v(iterable),
                expr_v(body),
            ),
            Statement::Import { path } => StmtV::Import(strs_v(path@)),
            Statement::Break => StmtV::Break,
            Statement::Continue => StmtV::Continue,
            Statement::Expression(x) => StmtV::Expression(expr_v(x)),
            Statement::Test { name, body } => StmtV::Test(name@, expr_v(body)),
            Statement::Assert { condition } => StmtV::Assert(expr_v(condition)),
        },
        span: span_v(st.span),
    }
}

pub open spec fn stmts_v(s: Seq<Spanned<Statement>>) -> Seq<SStmt>
    decreases s,
{
    if s.len() == 0 {
        seq![]
    } else {
        stmts_v(s.drop_last()).push(stmt_v(s[s.len() - 1]))
    }
}

pub proof fn lemma_stmts_push(s: Seq<Spanned<Statement>>, e: Spanned<Statement>)
    ensures
        stmts_v(s.push(e)) == stmts_v(s).push(stmt_v(e)),
        stmts_v(Seq::<Spanned<Statement>>::empty()) == Seq::<SStmt>::empty(),
{
    reveal(stmt_v);
    reveal(expr_v);
    assert(s.push(e).drop_last() =~= s);
}

pub proof fn lemma_parts_push(s: Seq<StringPart>, e: StringPart)
    ensures
        parts_v(s.push(e)) == parts_v(s).push(part_v(e)),
        parts_v(Seq::<StringPart>::empty()) == Seq::<PartV>::empty(),
{
    reveal(expr_v);
    reveal(stmt_v);
    assert(s.push(e).drop_last() =~= s);
}

/// The view of a sequence of pieces has one view per piece.
pub proof fn lemma_parts_v(s: Seq<StringPart>)
    ensures
        parts_v(s).len() == s.len(),
        forall|k: int| 0 <= k < s.len() ==> #[trigger] parts_v(s)[k] == part_v(s[k]),
    decreases s.len(),
{
    reveal(expr_v);
    reveal(stmt_v);
    if s.len() > 0 {
        lemma_parts_v(s.drop_last());
    }
}

/// The view of a sequence of statements has one view per statement.
pub proof fn lemma_stmts_v(s: Seq<Spanned<Statement>>)
    ensures
        stmts_v(s).len() == s.len(),
        forall|k: int| 0 <= k < s.len() ==> #[trigger] stmts_v(s)[k] == stmt_v(s[k]),
    decreases s.len(),
{
    reveal(stmt_v);
    reveal(expr_v);
    if s.len() > 0 {
        lemma_stmts_v(s.drop_last());
    }
}

/// The view of a spanned expression is the view of its node with its
/// span.
pub proof fn lemma_expr_v(e: Spanned<Expression>)
    ensures
        expr_v(e) == (SExpr { node: node_v(e.node), span: span_v(e.span) }),
        node_v(e.node) == (match e.node {
            Expression::Nil => ExprV::Nil,
            Expression::True => ExprV::True,
            Expression::False => ExprV::False,
            Expression::Float(t) => ExprV::Float(t@),
            Expression::Int(n) => ExprV::Int(n),
            Expression::String(s) => ExprV::Str(s@),
            Expression::StringInterp(parts) => ExprV::Interp(parts_v(parts@)),
            Expression::Ident(n) => ExprV::Ident(n@),
            Expression::ObjLiteral { type_path, fields } => ExprV::ObjLiteral(
                strs_v(type_path@),
                named_v(fields@),
            ),
            Expression::FieldAccess { object, field } => ExprV::FieldAccess(
                Box::new(expr_v(*object)),
                field@,
            ),
            Expression::MethodCall { object, method, args } => ExprV::MethodCall(
                Box::new(expr_v(*object)),
                method@,
                exprs_v(args@),
            ),
            Expression::BinaryOp { op, left, right } => ExprV::Binary(
                op,
                Box::new(expr_v(*left)),
                Box::new(expr_v(*right)),
            ),
            Expression::Range { start, end, inclusive } => ExprV::Range(
                Box::new(expr_v(*start)),
                Box::new(expr_v(*end)),
                inclusive,
            ),
            Expression::UnaryOp { op, expr } => ExprV::Unary(op, Box::new(expr_v(*expr))),
            Expression::Call { name, args } => ExprV::Call(name@, exprs_v(args@)),
            Expression::Try(x) => ExprV::Try(Box::new(expr_v(*x))),
            Expression::UnwrapError(x) => ExprV::UnwrapError(Box::new(expr_v(*x))),
            Expression::Coalesce { left, right } => ExprV::Coalesce(
                Box::new(expr_v(*left)),
                Box::new(expr_v(*right)),
            ),
            Expression::ListLiteral(xs) => ExprV::List(exprs_v(xs@)),
            Expression::MapLiteral(xs) => ExprV::MapLit(pairs_v(xs@)),
            Expression::Index { object, index } => ExprV::Index(
                Box::new(expr_v(*object)),
                Box::new(expr_v(*index)),
            ),
            Expression::Block(ss) => ExprV::Block(stmts_v(ss@)),
        }),
{
    reveal(expr_v);
}

pub proof fn lemma_node_call(name: String, args: Vec<Spanned<Expression>>)
    ensures
        node_v(Expression::Call { name, args }) == ExprV::Call(name@, exprs_v(args@)),
{
    reveal(expr_v);
}

pub proof fn lemma_node_ident(name: String)
    ensures
        node_v(Expression::Ident(name)) == ExprV::Ident(name@),
{
    reveal(expr_v);
}

pub proof fn lemma_node_obj(type_path: Vec<String>, fields: Vec<(String, Spanned<Expression>)>)
    ensures
        node_v(Expression::ObjLiteral { type_path, fields }) == ExprV::ObjLiteral(
            strs_v(type_path@),
            named_v(fields@),
        ),
{
    reveal(expr_v);
}

pub proof fn lemma_node_block(ss: Vec<Spanned<Statement>>)
    ensures
        node_v(Expression::Block(ss)) == ExprV::Block(stmts_v(ss@)),
{
    reveal(expr_v);
}

pub proof fn lemma_node_str(text: String)
    ensures
        node_v(Expression::String(text)) == ExprV::Str(text@),
{
    reveal(expr_v);
}

pub proof fn lemma_node_interp(parts: Vec<StringPart>)
    ensures
        node_v(Expression::StringInterp(parts)) == ExprV::Interp(parts_v(parts@)),
{
    reveal(expr_v);
}

#[verifier::spinoff_prover]
#[verifier::rlimit(100)]
pub proof fn lemma_stmt_let(name: String, value: Spanned<Expression>, type_ann: Option<TypeAnnotation>, is_pub: bool, span: Span)
    ensures
        stmt_v(Spanned { node: Statement::Let { name, value, type_ann, is_pub }, span }) == (SStmt { node: StmtV::Let(name@, expr_v(value), opt_type_v(type_ann), is_pub), span: span_v(span) }),
{
    reveal(stmt_v);
}

#[verifier::spinoff_prover]
#[verifier::rlimit(100)]
pub proof fn lemma_stmt_val(name: String, value: Spanned<Expression>, type_ann: Option<TypeAnnotation>, is_pub: bool, span: Span)
    ensures
        stmt_v(Spanned { node: Statement::Val { name, value, type_ann, is_pub }, span }) == (SStmt { node: StmtV::Val(name@, expr_v(value), opt_type_v(type_ann), is_pub), span: span_v(span) }),
{
    reveal(stmt_v);
}

#[verifier::spinoff_prover]
#[verifier::rlimit(100)]
pub proof fn lemma_stmt_function(name: String, params: Vec<Param>, body: Spanned<Expression>, return_type: Option<TypeAnnotation>, is_pub: bool, span: Span)
    ensures
        stmt_v(Spanned { node: Statement::Function { name, params, body, return_type, is_pub }, span }) == (SStmt { node: StmtV::Function(name@, params_v(params@), expr_v(body), opt_type_v(return_type), is_pub), span: span_v(span) }),
{
    reveal(stmt_v);
}

#[verifier::spinoff_prover]
#[verifier::rlimit(100)]
pub proof fn lemma_stmt_return(value: Option<Spanned<Expression>>, span: Span)
    ensures
        stmt_v(Spanned { node: Statement::Return(value), span }) == (SStmt { node: StmtV::Return(opt_expr_v(value)), span: span_v(span) }),
{
    reveal(stmt_v);
}

#[verifier::spinoff_prover]
#[verifier::rlimit(100)]
pub proof fn lemma_stmt_obj_def(name: String, fields: Vec<ObjField>, methods: Vec<ObjMethod>, uses: Vec<Vec<String>>, is_pub: bool, span: Span)
    ensures
        stmt_v(Spanned { node: Statement::ObjDef { name, fields, methods, uses, is_pub }, span }) == (SStmt { node: StmtV::ObjDef(name@, fields_v(fields@), methods_v(methods@), paths_v(uses@), is_pub), span: span_v(span) }),
{
    reveal(stmt_v);
}

#[verifier::spinoff_prover]
#[verifier::rlimit(100)]
pub proof fn lemma_stmt_field_assignment(object: Spanned<Expression>, field: String, value: Spanned<Expression>, span: Span)
    ensures
        stmt_v(Spanned { node: Statement::FieldAssignment { object, field, value }, span }) == (SStmt { node: StmtV::FieldAssignment(expr_v(object), field@, expr_v(value)), span: span_v(span) }),
{
    reveal(stmt_v);
}

#[verifier::spinoff_prover]
#[verifier::rlimit(100)]
pub proof fn lemma_stmt_index_assignment(object: Spanned<Expression>, index: Spanned<Expression>, value: Spanned<Expression>, span: Span)
    ensures
        stmt_v(Spanned { node: Statement::IndexAssignment { object, index, value }, span }) == (SStmt { node: StmtV::IndexAssignment(expr_v(object), expr_v(index), expr_v(value)), span: span_v(span) }),
{
    reveal(stmt_v);
}

#[verifier::spinoff_prover]
#[verifier::rlimit(100)]
pub proof fn lemma_stmt_assignment(name: String, value: Spanned<Expression>, span: Span)
    ensures
        stmt_v(Spanned { node: Statement::Assignment { name, value }, span }) == (SStmt { node: StmtV::Assignment(name@, expr_v(value)), span: span_v(span) }),
{
    reveal(stmt_v);
}

#[verifier::spinoff_prover]
#[verifier::rlimit(100)]
pub proof fn lemma_stmt_if(condition: Spanned<Expression>, body: Spanned<Expression>, else_body: Option<Spanned<Expression>>, span: Span)
    ensures
        stmt_v(Spanned { node: Statement::If { condition, body, else_body }, span }) == (SStmt { node: StmtV::If(expr_v(condition), expr_v(body), opt_expr_v(else_body)), span: span_v(span) }),
{
    reveal(stmt_v);
}

#[verifier::spinoff_prover]
#[verifier::rlimit(100)]
pub proof fn lemma_stmt_if_let(name: String, value: Spanned<Expression>, body: Spanned<Expression>, else_body: Option<Spanned<Expression>>, span: Span)
    ensures
        stmt_v(Spanned { node: Statement::IfLet { name, value, body, else_body }, span }) == (SStmt { node: StmtV::IfLet(name@, expr_v(value), expr_v(body), opt_expr_v(else_body)), span: span_v(span) }),
{
    reveal(stmt_v);
}

#[verifier::spinoff_prover]
#[verifier::rlimit(100)]
pub proof fn lemma_stmt_unless(condition: Spanned<Expression>, body: Spanned<Expression>, else_body: Option<Spanned<Expression>>, span: Span)
    ensures
        stmt_v(Spanned { node: Statement::Unless { condition, body, else_body }, span }) == (SStmt { node: StmtV::Unless(expr_v(condition), expr_v(body), opt_expr_v(else_body)), span: span_v(span) }),
{
    reveal(stmt_v);
}

#[verifier::spinoff_prover]
#[verifier::rlimit(100)]
pub proof fn lemma_stmt_while(condition: Spanned<Expression>, body: Spanned<Expression>, span: Span)
    ensures
        stmt_v(Spanned { node: Statement::While { condition, body }, span }) == (SStmt { node: StmtV::While(expr_v(condition), expr_v(body)), span: span_v(span) }),
{
    reveal(stmt_v);
}

#[verifier::spinoff_prover]
#[verifier::rlimit(100)]
pub proof fn lemma_stmt_for(name: String, iterable: Spanned<Expression>, body: Spanned<Expression>, span: Span)
    ensures
        stmt_v(Spanned { node: Statement::For { name, iterable, body }, span }) == (SStmt { node: StmtV::For(name@, expr_v(iterable), expr_v(body)), span: span_v(span) }),
{
    reveal(stmt_v);
}

#[verifier::spinoff_prover]
#[verifier::rlimit(100)]
pub proof fn lemma_stmt_import(path: Vec<String>, span: Span)
    ensures
        stmt_v(Spanned { node: Statement::Import { path }, span }) == (SStmt { node: StmtV::Import(strs_v(path@)), span: span_v(span) }),
{
    reveal(stmt_v);
}

#[verifier::spinoff_prover]
#[verifier::rlimit(100)]
pub proof fn lemma_stmt_break(span: Span)
    ensures
        stmt_v(Spanned { node: Statement::Break, span }) == (SStmt { node: StmtV::Break, span: span_v(span) }),
{
    reveal(stmt_v);
}

#[verifier::spinoff_prover]
#[verifier::rlimit(100)]
pub proof fn lemma_stmt_continue(span: Span)
    ensures
        stmt_v(Spanned { node: Statement::Continue, span }) == (SStmt { node: StmtV::Continue, span: span_v(span) }),
{
    reveal(stmt_v);
}

#[verifier::spinoff_prover]
#[verifier::rlimit(100)]
pub proof fn lemma_stmt_expression(x: Spanned<Expression>, span: Span)
    ensures
        stmt_v(Spanned { node: Statement::Expression(x), span }) == (SStmt { node: StmtV::Expression(expr_v(x)), span: span_v(span) }),
{
    reveal(stmt_v);
}

#[verifier::spinoff_prover]
#[verifier::rlimit(100)]
pub proof fn lemma_stmt_test(name: String, body: Spanned<Expression>, span: Span)
    ensures
        stmt_v(Spanned { node: Statement::Test { name, body }, span }) == (SStmt { node: StmtV::Test(name@, expr_v(body)), span: span_v(span) }),
{
    reveal(stmt_v);
}

#[verifier::spinoff_prover]
#[verifier::rlimit(100)]
pub proof fn lemma_stmt_assert(condition: Spanned<Expression>, span: Span)
    ensures
        stmt_v(Spanned { node: Statement::Assert { condition }, span }) == (SStmt { node: StmtV::Assert(expr_v(condition)), span: span_v(span) }),
{
    reveal(stmt_v);
}

/// The view of a statement is an expression statement exactly when the
/// statement is one, and then it holds the view of the expression.
#[verifier::spinoff_prover]
#[verifier::rlimit(100)]
pub proof fn lemma_stmt_expression_view(st: Spanned<Statement>)
    ensures
        (stmt_v(st).node is Expression) == (st.node is Expression),
        st.node is Expression ==> stmt_v(st).node->Expression_0 == expr_v(st.node->Expression_0),
{
    reveal(stmt_v);
}

/// The views of the nodes an assignment can target.
pub proof fn lemma_node_target(e: Expression)
    ensures
        (node_v(e) is Ident) == (e is Ident),
        e is Ident ==> node_v(e)->Ident_0 == e->Ident_0@,
        (node_v(e) is FieldAccess) == (e is FieldAccess),
        e is FieldAccess ==> node_v(e) == ExprV::FieldAccess(
            Box::new(expr_v(*e->FieldAccess_object)),
            e->FieldAccess_field@,
        ),
        (node_v(e) is Index) == (e is Index),
        e is Index ==> node_v(e) == ExprV::Index(
            Box::new(expr_v(*e->Index_object)),
            Box::new(expr_v(*e->Index_index)),
        ),
{
    reveal(expr_v);
}

} // verus!
