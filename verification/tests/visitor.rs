use oryn::ast::{Expression, Span, Spanned, Statement};
use oryn::lexer::lex;
use oryn::parser::parse;
use oryn::visitor::{walk_expr, walk_stmt, walk_stmts, AstVisitor};

/// Records what a walk reports.
struct TestVisitor {
    events: Vec<String>,
    depth: i64,
}

impl AstVisitor for TestVisitor {
    fn visit_stmt(&mut self, stmt: &Spanned<Statement>) {
        let kind = match &stmt.node {
            Statement::Let { .. } => "let",
            Statement::Val { .. } => "val",
            Statement::Function { .. } => "fn",
            Statement::Assignment { .. } => "assign",
            Statement::ObjDef { .. } => "obj",
            Statement::While { .. } => "while",
            Statement::For { .. } => "for",
            Statement::Return(_) => "return",
            Statement::Expression(_) => "expr_stmt",
            _ => "other",
        };
        self.events.push(format!("stmt:{kind}"));
        walk_stmt(self, stmt);
    }

    fn visit_expr(&mut self, expr: &Spanned<Expression>) {
        let kind = match &expr.node {
            Expression::Int(_) => "int",
            Expression::Ident(_) => "ident",
            Expression::Call { .. } => "call",
            Expression::Block(_) => "block",
            Expression::BinaryOp { .. } => "binop",
            _ => "other",
        };
        self.events.push(format!("expr:{kind}"));
        walk_expr(self, expr);
    }

    fn enter_scope(&mut self) {
        self.depth += 1;
        self.events.push("scope:enter".to_string());
    }

    fn exit_scope(&mut self) {
        self.depth -= 1;
        self.events.push("scope:exit".to_string());
    }

    fn on_define(&mut self, name: &str, _span: &Span, _stmt_span: &Span) {
        self.events.push(format!("define:{name}"));
    }

    fn on_reference(&mut self, name: &str, _span: &Span) {
        self.events.push(format!("ref:{name}"));
    }
}

fn visit(source: &str) -> Vec<String> {
    let (tokens, _) = lex(source);
    let (stmts, _) = parse(tokens);
    let mut visitor = TestVisitor { events: Vec::new(), depth: 0 };
    walk_stmts(&mut visitor, &stmts);
    assert_eq!(visitor.depth, 0);
    visitor.events
}

#[test]
fn let_binding_visits_define_and_value() {
    let events = visit("let x = 5");
    assert!(events.contains(&"stmt:let".to_string()));
    assert!(events.contains(&"define:x".to_string()));
    assert!(events.contains(&"expr:int".to_string()));
}

#[test]
fn function_enters_scope_for_body() {
    let events = visit("fn foo(a) {\nrn a\n}");
    assert!(events.contains(&"define:foo".to_string()));
    assert!(events.contains(&"scope:enter".to_string()));
    assert!(events.contains(&"define:a".to_string()));
    assert!(events.contains(&"scope:exit".to_string()));
}

#[test]
fn ident_reference_fires() {
    let events = visit("let x = 1\nlet y = x");
    let refs: Vec<_> = events.iter().filter(|e| e.starts_with("ref:")).collect();
    assert!(refs.contains(&&"ref:x".to_string()));
}

#[test]
fn block_scoping() {
    let events = visit("fn foo() {\nlet x = 1\n}");
    let scope_enters = events.iter().filter(|e| *e == "scope:enter").count();
    let scope_exits = events.iter().filter(|e| *e == "scope:exit").count();
    assert_eq!(scope_enters, scope_exits);
    assert!(scope_enters >= 1);
}

#[test]
fn obj_def_visits_name_and_methods() {
    let events = visit("obj Foo {\nfn bar(self) {\nprint(1)\n}\n}");
    assert!(events.contains(&"define:Foo".to_string()));
    assert!(events.contains(&"define:bar".to_string()));
    assert!(events.contains(&"define:self".to_string()));
}

#[test]
fn obj_use_fires_reference() {
    let events = visit("obj Base {\nfn hello(self) {\nprint(1)\n}\n}\nobj Child {\nuse Base\n}");
    assert!(events.contains(&"ref:Base".to_string()));
}

#[test]
fn call_fires_reference() {
    let events = visit("fn foo() {\nprint(1)\n}\nfoo()");
    let foo_refs: Vec<_> = events.iter().filter(|e| *e == "ref:foo").collect();
    assert_eq!(foo_refs.len(), 1);
}

#[test]
fn assignment_fires_reference() {
    let events = visit("let x = 1\nx = 2");
    assert!(events.contains(&"ref:x".to_string()));
}

#[test]
fn nested_scopes_open_and_close_in_order() {
    let events = visit("while true {\nfor i in 0..3 {\nprint(i)\n}\n}");
    let scopes: Vec<_> = events.iter().filter(|e| e.starts_with("scope:")).cloned().collect();
    assert_eq!(scopes, vec!["scope:enter", "scope:enter", "scope:enter", "scope:exit", "scope:exit", "scope:exit"]);
}
