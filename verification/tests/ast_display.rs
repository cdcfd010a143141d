use lib::common::span::Span;
use lib::frontend::ast::{
    BinOp, Expr, ExprKind, ExternDecl, FunctionDecl, ImplBlock, MatchCaseExpr, Pattern, Stmt, TraitDecl, TraitMethod,
    TypeSyntax, WhereClause,
};
use lib::frontend::ast_display::format_program;

fn mk_fn(name: &str, body: Vec<Stmt>) -> FunctionDecl {
    FunctionDecl {
        name: name.into(),
        params: vec![],
        return_type: None,
        body,
        is_extern: false,
        ffi_info: None,
        type_params: vec![],
        where_clauses: vec![],
    }
}

#[test]
fn simple_function() {
    let f = mk_fn(
        "main",
        vec![Stmt::Print { expr: Expr::new(ExprKind::String("hello".into(), Span::default())), span: Span::default() }],
    );
    let out = format_program(&[f], &[], &[]);
    assert!(out.contains("function main()"), "got:\n{}", out);
    assert!(out.contains("print(\"hello\")"), "got:\n{}", out);
}

#[test]
fn var_decl_and_assign() {
    let f = mk_fn(
        "f",
        vec![
            Stmt::VarDecl {
                name: "y".into(),
                value: Expr::new(ExprKind::Int(5, Span::default())),
                type_annotation: None,
                mutable: true,
                span: Span::default(),
            },
            Stmt::Assign { name: "y".into(), value: Expr::new(ExprKind::Int(6, Span::default())), span: Span::default() },
        ],
    );
    let out = format_program(&[f], &[], &[]);
    assert!(out.contains("var y := 5"), "got:\n{}", out);
    assert!(out.contains("y := 6"), "got:\n{}", out);
}

#[test]
fn if_else() {
    let then_block = Expr::new(ExprKind::Block {
        statements: vec![Stmt::Print {
            expr: Expr::new(ExprKind::String("a".into(), Span::default())),
            span: Span::default(),
        }],
        trailing_expr: None,
        span: Span::default(),
    });
    let else_block = Expr::new(ExprKind::Block {
        statements: vec![Stmt::Print {
            expr: Expr::new(ExprKind::String("b".into(), Span::default())),
            span: Span::default(),
        }],
        trailing_expr: None,
        span: Span::default(),
    });
    let f = mk_fn(
        "main",
        vec![Stmt::Expression(Expr::new(ExprKind::If {
            condition: Expr::boxed(ExprKind::Bool(true, Span::default())),
            then_branch: Box::new(then_block),
            else_branch: Some(Box::new(else_block)),
            span: Span::default(),
        }))],
    );
    let out = format_program(&[f], &[], &[]);
    assert!(out.contains("if true"), "got:\n{}", out);
    assert!(out.contains("else"), "got:\n{}", out);
}

#[test]
fn trait_and_impl() {
    let tr = TraitDecl {
        name: "Display".into(),
        methods: vec![TraitMethod { name: "show".into(), params: vec![], return_type: Some(TypeSyntax::Named("String".into())) }],
    };
    let im = ImplBlock { trait_name: "Display".into(), target_type: "Int".into(), methods: vec![] };
    let out = format_program(&[], &[tr], &[im]);
    assert!(out.contains("trait Display"), "got:\n{}", out);
    assert!(out.contains("function show() -> String"), "got:\n{}", out);
    assert!(out.contains("impl Display for Int"), "got:\n{}", out);
}

#[test]
fn whole_text_of_nested_program() {
    let d = Span::default();
    let cond = Expr::new(ExprKind::Binary {
        left: Expr::boxed(ExprKind::Var("x".into(), d)),
        op: BinOp::Less,
        right: Expr::boxed(ExprKind::Int(-2, d)),
        span: d,
    });
    let body = Expr::new(ExprKind::Match {
        value: Expr::boxed(ExprKind::Var("o".into(), d)),
        cases: vec![
            MatchCaseExpr {
                pattern: Pattern::SomeValue("v".into()),
                body: Expr::new(ExprKind::FunctionCall {
                    name: "f".into(),
                    args: vec![Expr::new(ExprKind::Var("v".into(), d)), Expr::new(ExprKind::Bool(false, d))],
                    span: d,
                }),
            },
            MatchCaseExpr { pattern: Pattern::Wildcard, body: Expr::new(ExprKind::NoneValue(d)) },
        ],
        span: d,
    });
    let mut g = mk_fn(
        "g",
        vec![
            Stmt::Expression(Expr::new(ExprKind::While { condition: Box::new(cond), body: vec![Stmt::Break(d)], trailing_expr: None, span: d })),
            Stmt::Return { value: Some(body), span: d },
            Stmt::Parallel { blocks: vec![vec![Stmt::Continue(d)], vec![Stmt::Import { path: "m".into(), span: d }]], span: d },
        ],
    );
    g.params = vec![("a".into(), Some(TypeSyntax::Generic { name: "List".into(), args: vec![TypeSyntax::Named("T".into())] })), ("b".into(), None)];
    g.type_params = vec!["T".into()];
    g.where_clauses = vec![WhereClause { type_param: "T".into(), trait_name: "Show".into() }];
    g.return_type = Some(TypeSyntax::Unknown);
    let mut e = mk_fn("puts", vec![Stmt::Break(d)]);
    e.is_extern = true;
    e.ffi_info = Some(ExternDecl { abi: Some("C".into()), library: None, symbol_name: None, variadic: false });
    assert_eq!(
        format_program(&[g, e], &[], &[]),
        "function g<T>(a: List<T>, b) -> _ where T: Show\n  while x < -2\n    break\n  return match o\n  case Some(v)\n    f(v, false)\n  case _\n    None\n  parallel\n    continue\n  and\n    import m\n\nextern \"C\" function puts()\n"
    );
}
