use lib::ast::{AssignOp, BinOp, Literal, Param, Pattern, Span, TypeExpr, UnaryOp};
use lib::error::{GustError, TypeErrorCode};
use lib::syntax::{AssignTarget, BindDecl, Block, Decl, Expr, Program, Stmt};
use lib::typechecker::rules::FunGeneralization;
use lib::typechecker::walk::{infer_expr, infer_program, infer_stmt};
use lib::typeinference::{InferContext, InferType, TypeRegistry, TypeVar, TypeVarGenerator};
use lib::types::Type;

fn sp(at: usize) -> Span {
    Span::new(at, at + 1, "main.mln".to_string())
}

fn ctx() -> InferContext {
    InferContext::new(TypeRegistry::new(), TypeVarGenerator::new())
}

fn int_lit(n: i64) -> Expr {
    Expr::Literal(Literal::Int(n), sp(0))
}

fn boolean(b: bool) -> Expr {
    Expr::Literal(Literal::Bool(b), sp(0))
}

fn ident(name: &str) -> Expr {
    Expr::Ident(name.to_string(), sp(0))
}

fn block(stmts: Vec<Decl>, tail: Option<Expr>) -> Block {
    Block { stmts, tail: tail.map(Box::new), span: sp(9) }
}

fn let_decl(name: &str, value: Expr) -> Decl {
    Decl::Let(BindDecl { name: name.to_string(), type_ann: None, value, span: sp(3) })
}

fn resolved(ctx: &InferContext, t: &InferType) -> InferType {
    ctx.solve().unwrap().apply(t)
}

#[test]
fn walk_addition_of_integers_is_int() {
    let mut c = ctx();
    let mut gens: Vec<FunGeneralization> = Vec::new();
    let e = Expr::BinOp(Box::new(int_lit(1)), BinOp::Add, Box::new(int_lit(2)), sp(1));
    let t = infer_expr(&e, &mut c, &mut gens).unwrap();
    assert_eq!(resolved(&c, &t), InferType::Concrete(Type::Int));
    assert!(gens.is_empty());
}

#[test]
fn walk_undefined_name_is_t0003() {
    let mut c = ctx();
    let mut gens: Vec<FunGeneralization> = Vec::new();
    let r = infer_expr(&ident("nowhere"), &mut c, &mut gens);
    match r {
        Err(GustError::TypeError { code, message, .. }) => {
            assert_eq!(code, TypeErrorCode::T0003);
            assert_eq!(message, "undefined name `nowhere`");
        },
        other => panic!("unexpected {:?}", other),
    }
}

#[test]
fn walk_condition_must_be_bool() {
    let mut c = ctx();
    let mut gens: Vec<FunGeneralization> = Vec::new();
    let e = Expr::If {
        condition: Box::new(int_lit(1)),
        then_branch: block(vec![], Some(int_lit(2))),
        else_branch: Some(block(vec![], Some(int_lit(3)))),
        span: sp(4),
    };
    let t = infer_expr(&e, &mut c, &mut gens).unwrap();
    assert_eq!(t, InferType::Concrete(Type::Int));
    assert!(c.solve().is_err());
}

#[test]
fn walk_if_branches_agree() {
    let mut c = ctx();
    let mut gens: Vec<FunGeneralization> = Vec::new();
    let e = Expr::If {
        condition: Box::new(boolean(true)),
        then_branch: block(vec![], Some(int_lit(2))),
        else_branch: Some(block(vec![], Some(boolean(false)))),
        span: sp(4),
    };
    assert!(infer_expr(&e, &mut c, &mut gens).is_ok());
    assert!(c.solve().is_err());
}

#[test]
fn walk_block_scopes_its_bindings() {
    let mut c = ctx();
    let mut gens: Vec<FunGeneralization> = Vec::new();
    let inner = Expr::If {
        condition: Box::new(boolean(true)),
        then_branch: block(vec![let_decl("x", int_lit(1))], Some(ident("x"))),
        else_branch: Some(block(vec![], Some(int_lit(0)))),
        span: sp(4),
    };
    let t = infer_expr(&inner, &mut c, &mut gens).unwrap();
    assert_eq!(resolved(&c, &t), InferType::Concrete(Type::Int));
    assert_eq!(c.lookup("x"), None);
}

#[test]
fn walk_closure_let_is_generalized() {
    let mut c = ctx();
    let mut gens: Vec<FunGeneralization> = Vec::new();
    let id = Expr::Closure {
        params: vec![Param { mutable: false, name: "a".to_string(), type_ann: None, span: sp(5) }],
        return_type: None,
        body: block(vec![], Some(ident("a"))),
        span: sp(5),
    };
    let prog = Program {
        decls: vec![
            let_decl("id", id),
            let_decl("n", Expr::Call { callee: Box::new(ident("id")), args: vec![int_lit(1)], span: sp(6) }),
            let_decl("b", Expr::Call { callee: Box::new(ident("id")), args: vec![boolean(true)], span: sp(7) }),
        ],
    };
    assert!(infer_program(&prog, &mut c, &mut gens).is_ok());
    assert_eq!(gens.len(), 1);
    assert_eq!(gens[0].name, "id");
    assert!(c.solve().is_ok());
}

#[test]
fn walk_assign_to_immutable_is_t0006() {
    let mut c = ctx();
    let mut gens: Vec<FunGeneralization> = Vec::new();
    let prog = Program {
        decls: vec![
            let_decl("x", int_lit(1)),
            Decl::Stmt(Stmt::Expr(Expr::Assign {
                target: AssignTarget::Ident("x".to_string(), sp(8)),
                op: AssignOp::Assign,
                value: Box::new(int_lit(2)),
                span: sp(8),
            })),
        ],
    };
    match infer_program(&prog, &mut c, &mut gens) {
        Err(GustError::TypeError { code, .. }) => assert_eq!(code, TypeErrorCode::T0006),
        other => panic!("unexpected {:?}", other),
    }
}

#[test]
fn walk_mutable_binding_accepts_compound_assignment() {
    let mut c = ctx();
    let mut gens: Vec<FunGeneralization> = Vec::new();
    let prog = Program {
        decls: vec![
            Decl::Mut(BindDecl { name: "n".to_string(), type_ann: Some(TypeExpr::Named("Int".to_string(), vec![])), value: int_lit(1), span: sp(3) }),
            Decl::Stmt(Stmt::While {
                condition: Expr::BinOp(Box::new(ident("n")), BinOp::Lt, Box::new(int_lit(10)), sp(2)),
                body: block(
                    vec![Decl::Stmt(Stmt::Expr(Expr::Assign {
                        target: AssignTarget::Ident("n".to_string(), sp(8)),
                        op: AssignOp::AddAssign,
                        value: Box::new(int_lit(1)),
                        span: sp(8),
                    }))],
                    None,
                ),
                span: sp(2),
            }),
        ],
    };
    assert!(infer_program(&prog, &mut c, &mut gens).is_ok());
    assert!(c.solve().is_ok());
}

#[test]
fn walk_return_outside_function_is_never() {
    let mut c = ctx();
    let mut gens: Vec<FunGeneralization> = Vec::new();
    let t = infer_stmt(&Stmt::Return { value: Some(int_lit(1)), span: sp(1) }, &mut c, &mut gens).unwrap();
    assert_eq!(t, InferType::Never);
    assert_eq!(infer_stmt(&Stmt::Continue(sp(2)), &mut c, &mut gens).unwrap(), InferType::Never);
}

#[test]
fn walk_loop_takes_its_break_type() {
    let mut c = ctx();
    let mut gens: Vec<FunGeneralization> = Vec::new();
    let e = Expr::Loop {
        body: block(vec![Decl::Stmt(Stmt::Break { value: Some(int_lit(7)), span: sp(1) })], None),
        span: sp(1),
    };
    let t = infer_expr(&e, &mut c, &mut gens).unwrap();
    assert_eq!(resolved(&c, &t), InferType::Concrete(Type::Int));
}

#[test]
fn walk_not_of_int_fails_to_solve() {
    let mut c = ctx();
    let mut gens: Vec<FunGeneralization> = Vec::new();
    let e = Expr::UnaryOp(UnaryOp::Not, Box::new(int_lit(1)), sp(1));
    assert_eq!(infer_expr(&e, &mut c, &mut gens).unwrap(), InferType::Concrete(Type::Bool));
    assert!(c.solve().is_err());
}

#[test]
fn walk_tuple_and_array_types() {
    let mut c = ctx();
    let mut gens: Vec<FunGeneralization> = Vec::new();
    let t = infer_expr(&Expr::Tuple(vec![int_lit(1), boolean(true)], sp(1)), &mut c, &mut gens).unwrap();
    assert_eq!(t, InferType::Tuple(vec![InferType::Concrete(Type::Int), InferType::Concrete(Type::Bool)]));
    let a = infer_expr(&Expr::Array(vec![], sp(1)), &mut c, &mut gens).unwrap();
    assert_eq!(a, InferType::Array(Box::new(InferType::Var(TypeVar(0)))));
    let mixed = Expr::Array(vec![int_lit(1), boolean(true)], sp(1));
    assert!(infer_expr(&mixed, &mut c, &mut gens).is_ok());
    assert!(c.solve().is_err());
}

fn fun_decl(name: &str, params: Vec<Param>, ret: Option<TypeExpr>, body: Block) -> Decl {
    Decl::Fun(lib::syntax::FunDecl { name: name.to_string(), generics: vec![], params, return_type: ret, body, span: sp(11) })
}

fn param(name: &str, ann: Option<TypeExpr>) -> Param {
    Param { mutable: false, name: name.to_string(), type_ann: ann, span: sp(12) }
}

#[test]
fn walk_function_is_generalized_and_callable() {
    let mut c = ctx();
    let mut gens: Vec<FunGeneralization> = Vec::new();
    let prog = Program {
        decls: vec![
            fun_decl("first", vec![param("a", None), param("b", None)], None, block(vec![], Some(ident("a")))),
            let_decl("n", Expr::Call { callee: Box::new(ident("first")), args: vec![int_lit(1), boolean(true)], span: sp(6) }),
            let_decl("b", Expr::Call { callee: Box::new(ident("first")), args: vec![boolean(true), int_lit(1)], span: sp(7) }),
        ],
    };
    assert!(infer_program(&prog, &mut c, &mut gens).is_ok());
    assert_eq!(gens.len(), 1);
    assert_eq!(gens[0].name, "first");
    assert!(c.solve().is_ok());
}

#[test]
fn walk_function_return_annotation_is_checked() {
    let mut c = ctx();
    let mut gens: Vec<FunGeneralization> = Vec::new();
    let int_ann = TypeExpr::Named("Int".to_string(), vec![]);
    let prog = Program {
        decls: vec![fun_decl("f", vec![], Some(int_ann), block(vec![], Some(boolean(true))))],
    };
    assert!(infer_program(&prog, &mut c, &mut gens).is_err());
}

#[test]
fn walk_call_with_wrong_arity_is_t0004() {
    let mut c = ctx();
    let mut gens: Vec<FunGeneralization> = Vec::new();
    let prog = Program {
        decls: vec![
            fun_decl("one", vec![param("a", None)], None, block(vec![], Some(ident("a")))),
            let_decl("x", Expr::Call { callee: Box::new(ident("one")), args: vec![], span: sp(6) }),
        ],
    };
    match infer_program(&prog, &mut c, &mut gens) {
        Err(GustError::TypeError { code, message, .. }) => {
            assert_eq!(code, TypeErrorCode::T0004);
            assert_eq!(message, "expected 1 argument(s), got 0");
        },
        other => panic!("unexpected {:?}", other),
    }
}

#[test]
fn walk_match_arms_share_a_type() {
    let mut c = ctx();
    let mut gens: Vec<FunGeneralization> = Vec::new();
    let arm = |pattern: Pattern, body: Expr| lib::syntax::MatchArm { pattern, guard: None, body: block(vec![], Some(body)), span: sp(13) };
    let good = Expr::Match {
        scrutinee: Box::new(int_lit(3)),
        arms: vec![arm(Pattern::Literal(Literal::Int(1), sp(14)), boolean(true)), arm(Pattern::Binding("n".to_string(), sp(15)), boolean(false))],
        span: sp(13),
    };
    let t = infer_expr(&good, &mut c, &mut gens).unwrap();
    assert_eq!(resolved(&c, &t), InferType::Concrete(Type::Bool));
    let bad = Expr::Match {
        scrutinee: Box::new(int_lit(3)),
        arms: vec![arm(Pattern::Wildcard(sp(14)), boolean(true)), arm(Pattern::Wildcard(sp(15)), int_lit(0))],
        span: sp(13),
    };
    assert!(infer_expr(&bad, &mut c, &mut gens).is_ok());
    assert!(c.solve().is_err());
}

fn point_block(tail: Expr) -> Expr {
    let point = lib::ast::StructDecl {
        name: "Point".to_string(),
        generics: vec![],
        fields: vec![
            lib::ast::FieldDef { name: "x".to_string(), type_ann: TypeExpr::Named("Int".to_string(), vec![]), span: sp(20) },
            lib::ast::FieldDef { name: "y".to_string(), type_ann: TypeExpr::Named("Int".to_string(), vec![]), span: sp(21) },
        ],
        span: sp(20),
    };
    Expr::Loop { body: block(vec![Decl::Struct(point)], Some(tail)), span: sp(22) }
}

#[test]
fn walk_struct_literal_of_local_struct() {
    let mut c = ctx();
    let mut gens: Vec<FunGeneralization> = Vec::new();
    let lit = Expr::StructLiteral {
        path: vec!["Point".to_string()],
        fields: vec![("x".to_string(), int_lit(1)), ("y".to_string(), int_lit(2))],
        span: sp(23),
    };
    assert!(infer_expr(&point_block(lit), &mut c, &mut gens).is_ok());
    assert!(c.solve().is_ok());
    assert!(c.get_struct_fields("Point").is_none());
}

#[test]
fn walk_struct_literal_missing_field_is_t0003() {
    let mut c = ctx();
    let mut gens: Vec<FunGeneralization> = Vec::new();
    let lit = Expr::StructLiteral { path: vec!["Point".to_string()], fields: vec![("x".to_string(), int_lit(1))], span: sp(23) };
    match infer_expr(&point_block(lit), &mut c, &mut gens) {
        Err(GustError::TypeError { code, message, .. }) => {
            assert_eq!(code, TypeErrorCode::T0003);
            assert_eq!(message, "missing field `y` in `Point`");
        },
        other => panic!("unexpected {:?}", other),
    }
}

#[test]
fn walk_struct_literal_unknown_struct_is_t0003() {
    let mut c = ctx();
    let mut gens: Vec<FunGeneralization> = Vec::new();
    let lit = Expr::StructLiteral { path: vec!["Nowhere".to_string()], fields: vec![], span: sp(23) };
    match infer_expr(&lit, &mut c, &mut gens) {
        Err(GustError::TypeError { message, .. }) => assert_eq!(message, "unknown struct `Nowhere`"),
        other => panic!("unexpected {:?}", other),
    }
}

#[test]
fn walk_impl_registers_resolved_method() {
    let mut c = ctx();
    let mut gens: Vec<FunGeneralization> = Vec::new();
    let get = lib::syntax::FunDecl {
        name: "get".to_string(),
        generics: vec![],
        params: vec![param("self", None)],
        return_type: Some(TypeExpr::Named("Int".to_string(), vec![])),
        body: block(vec![], Some(int_lit(1))),
        span: sp(30),
    };
    let header = lib::ast::ImplBlock {
        aspect_name: None,
        aspect_type_args: vec![],
        target_type: TypeExpr::Named("Counter".to_string(), vec![]),
        methods: vec![],
        span: sp(31),
    };
    let prog = Program { decls: vec![Decl::Impl(lib::syntax::ImplDecl { header, methods: vec![get] })] };
    assert!(infer_program(&prog, &mut c, &mut gens).is_ok());
    assert_eq!(
        c.get_method_type("Counter", "get"),
        Some(&InferType::Fun(vec![InferType::Named("Counter".to_string(), vec![])], Box::new(InferType::Concrete(Type::Int))))
    );
}

#[test]
fn walk_aspect_impl_is_not_supported() {
    let mut c = ctx();
    let mut gens: Vec<FunGeneralization> = Vec::new();
    let header = lib::ast::ImplBlock {
        aspect_name: Some("Show".to_string()),
        aspect_type_args: vec![],
        target_type: TypeExpr::Named("Counter".to_string(), vec![]),
        methods: vec![],
        span: sp(31),
    };
    let prog = Program { decls: vec![Decl::Impl(lib::syntax::ImplDecl { header, methods: vec![] })] };
    match infer_program(&prog, &mut c, &mut gens) {
        Err(GustError::Internal { message, .. }) => assert_eq!(message, "trait impl blocks not yet supported"),
        other => panic!("unexpected {:?}", other),
    }
}
