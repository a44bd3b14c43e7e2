use lib::ast::{Literal, Param, Pattern, Span, TypeExpr};
use lib::error::{GustError, TypeErrorCode};
use lib::strmap::StrMap;
use lib::syntax::{BindDecl, Block, Decl, Expr, FunDecl, MatchArm, Program};
use lib::typechecker::construction::ConstructCtx;
use lib::typechecker::typing::{construct_expr, construct_program};
use lib::typeinference::{EnumInfo, InferType, Substitution, TypeScheme, TypeVar, TypeVarGenerator, VariantInfo};
use lib::types::Type;

fn sp() -> Span {
    Span::new(7, 9, "t.mtl".to_string())
}

fn int_lit(n: i64) -> Expr {
    Expr::Literal(Literal::Int(n), sp())
}

fn block(tail: Expr) -> Block {
    Block { stmts: vec![], tail: Some(Box::new(tail)), span: sp() }
}

fn enums() -> StrMap<EnumInfo> {
    let mut envs: StrMap<EnumInfo> = StrMap::new();
    envs.insert(
        "Perhaps".to_string(),
        EnumInfo {
            type_params: vec![TypeVar(0)],
            variants: vec![
                VariantInfo { name: "Some".into(), fields: vec![("value".into(), InferType::Var(TypeVar(0)))] },
                VariantInfo { name: "Nope".into(), fields: vec![] },
            ],
        },
    );
    envs
}

fn struct_raw() -> StrMap<Vec<(String, InferType)>> {
    let mut raw: StrMap<Vec<(String, InferType)>> = StrMap::new();
    raw.insert("Holder".to_string(), vec![("item".to_string(), InferType::Var(TypeVar(3)))]);
    raw
}

fn struct_params() -> StrMap<Vec<TypeVar>> {
    let mut params: StrMap<Vec<TypeVar>> = StrMap::new();
    params.insert("Holder".to_string(), vec![TypeVar(3)]);
    params
}

fn type_error_parts(e: GustError) -> (TypeErrorCode, String) {
    match e {
        GustError::TypeError { code, message, .. } => (code, message),
        other => panic!("expected a type error, got {other:?}"),
    }
}

fn lit(path: &[&str], fields: Vec<(&str, Expr)>) -> Expr {
    Expr::StructLiteral {
        path: path.iter().map(|s| s.to_string()).collect(),
        fields: fields.into_iter().map(|(n, e)| (n.to_string(), e)).collect(),
        span: sp(),
    }
}

#[test]
fn typed_literals_and_names() {
    let subst = Substitution::new();
    let schemes: StrMap<TypeScheme> = StrMap::new();
    let raw = struct_raw();
    let params = struct_params();
    let envs = enums();
    let mut ctx = ConstructCtx::new(&subst, &schemes, StrMap::new(), &raw, &params, StrMap::new(), &envs, TypeVarGenerator::with_counter(10));
    let e = int_lit(4);
    let t = construct_expr(&e, None, &mut ctx).unwrap();
    assert_eq!(t.ty, Type::Int);
    assert!(t.parts.is_empty());
    let e = Expr::Ident("clock".to_string(), sp());
    let t = construct_expr(&e, None, &mut ctx).unwrap();
    assert_eq!(t.ty, Type::Fun(vec![], Box::new(Type::Int)));
    let e = Expr::Ident("missing".to_string(), sp());
    let (code, msg) = type_error_parts(construct_expr(&e, None, &mut ctx).unwrap_err());
    assert_eq!(code, TypeErrorCode::T0003);
    assert_eq!(msg, "undefined name `missing`");
    let e = Expr::Tuple(vec![int_lit(1), Expr::Literal(Literal::Bool(true), sp())], sp());
    let t = construct_expr(&e, None, &mut ctx).unwrap();
    assert_eq!(t.ty, Type::Tuple(vec![Type::Int, Type::Bool]));
    assert_eq!(t.parts.len(), 2);
    assert_eq!(t.parts[1].ty, Type::Bool);
}

#[test]
fn typed_if_and_match() {
    let subst = Substitution::new();
    let schemes: StrMap<TypeScheme> = StrMap::new();
    let raw = struct_raw();
    let params = struct_params();
    let envs = enums();
    let mut ctx = ConstructCtx::new(&subst, &schemes, StrMap::new(), &raw, &params, StrMap::new(), &envs, TypeVarGenerator::with_counter(10));
    let e = Expr::If {
        condition: Box::new(Expr::Literal(Literal::Bool(true), sp())),
        then_branch: block(int_lit(1)),
        else_branch: Some(block(int_lit(2))),
        span: sp(),
    };
    let t = construct_expr(&e, None, &mut ctx).unwrap();
    assert_eq!(t.ty, Type::Int);
    assert_eq!(t.blocks.len(), 2);
    let only_one = Expr::Match {
        scrutinee: Box::new(int_lit(1)),
        arms: vec![MatchArm { pattern: Pattern::Literal(Literal::Int(1), sp()), guard: None, body: block(int_lit(5)), span: sp() }],
        span: sp(),
    };
    let (code, msg) = type_error_parts(construct_expr(&only_one, None, &mut ctx).unwrap_err());
    assert_eq!(code, TypeErrorCode::T0008);
    assert_eq!(msg, "non-exhaustive match: not all cases are covered");
    let with_default = Expr::Match {
        scrutinee: Box::new(int_lit(1)),
        arms: vec![
            MatchArm { pattern: Pattern::Literal(Literal::Int(1), sp()), guard: None, body: block(int_lit(5)), span: sp() },
            MatchArm { pattern: Pattern::Wildcard(sp()), guard: None, body: block(int_lit(6)), span: sp() },
        ],
        span: sp(),
    };
    let t = construct_expr(&with_default, None, &mut ctx).unwrap();
    assert_eq!(t.ty, Type::Int);
}

#[test]
fn typed_closure_needs_parameter_annotations() {
    let subst = Substitution::new();
    let schemes: StrMap<TypeScheme> = StrMap::new();
    let raw = struct_raw();
    let params = struct_params();
    let envs = enums();
    let mut ctx = ConstructCtx::new(&subst, &schemes, StrMap::new(), &raw, &params, StrMap::new(), &envs, TypeVarGenerator::with_counter(10));
    let e = Expr::Closure {
        params: vec![Param { mutable: false, name: "x".to_string(), type_ann: None, span: sp() }],
        return_type: None,
        body: block(Expr::Ident("x".to_string(), sp())),
        span: sp(),
    };
    let (code, msg) = type_error_parts(construct_expr(&e, None, &mut ctx).unwrap_err());
    assert_eq!(code, TypeErrorCode::T0002);
    assert_eq!(msg, "closure parameter `x` needs a type annotation");
    let e = Expr::Closure {
        params: vec![Param { mutable: false, name: "x".to_string(), type_ann: Some(TypeExpr::Named("Int".to_string(), vec![])), span: sp() }],
        return_type: Some(TypeExpr::Named("Int".to_string(), vec![])),
        body: block(Expr::Ident("x".to_string(), sp())),
        span: sp(),
    };
    let t = construct_expr(&e, None, &mut ctx).unwrap();
    assert_eq!(t.ty, Type::Fun(vec![Type::Int], Box::new(Type::Int)));
    // The parameter's scope is gone afterwards.
    assert_eq!(ctx.lookup("x"), None);
}

#[test]
fn typed_variant_literals_draw_fresh_variables() {
    let subst = Substitution::new();
    let schemes: StrMap<TypeScheme> = StrMap::new();
    let raw = struct_raw();
    let params = struct_params();
    let envs = enums();
    let mut ctx = ConstructCtx::new(&subst, &schemes, StrMap::new(), &raw, &params, StrMap::new(), &envs, TypeVarGenerator::with_counter(10));
    let e = lit(&["Perhaps", "Some"], vec![("value", Expr::Literal(Literal::Str("hi".to_string()), sp()))]);
    let t = construct_expr(&e, None, &mut ctx).unwrap();
    assert_eq!(t.ty, Type::Named("Perhaps".to_string(), vec![Type::Str]));
    assert_eq!(t.parts.len(), 1);
    assert_eq!(ctx.next_id_now(), 11);
    // A fieldless variant takes its argument from the expected type.
    let e = lit(&["Perhaps", "Nope"], vec![]);
    let expected = Type::Named("Perhaps".to_string(), vec![Type::Int]);
    let t = construct_expr(&e, Some(&expected), &mut ctx).unwrap();
    assert_eq!(t.ty, Type::Named("Perhaps".to_string(), vec![Type::Int]));
    assert_eq!(ctx.next_id_now(), 12);
    let (code, msg) = type_error_parts(construct_expr(&e, None, &mut ctx).unwrap_err());
    assert_eq!(code, TypeErrorCode::T0002);
    assert_eq!(msg, "cannot infer type; add a type annotation");
    let e = lit(&["Maybe", "Some"], vec![]);
    let (code, msg) = type_error_parts(construct_expr(&e, None, &mut ctx).unwrap_err());
    assert_eq!(code, TypeErrorCode::T0003);
    assert_eq!(msg, "unknown enum `Maybe`");
    let e = lit(&["Perhaps", "Other"], vec![]);
    let (_, msg) = type_error_parts(construct_expr(&e, None, &mut ctx).unwrap_err());
    assert_eq!(msg, "no variant `Other` on enum `Perhaps`");
}

#[test]
fn typed_struct_literals() {
    let subst = Substitution::new();
    let schemes: StrMap<TypeScheme> = StrMap::new();
    let raw = struct_raw();
    let params = struct_params();
    let envs = enums();
    let mut ctx = ConstructCtx::new(&subst, &schemes, StrMap::new(), &raw, &params, StrMap::new(), &envs, TypeVarGenerator::with_counter(10));
    let e = lit(&["Point"], vec![("x", int_lit(1))]);
    let t = construct_expr(&e, None, &mut ctx).unwrap();
    assert_eq!(t.ty, Type::Named("Point".to_string(), vec![]));
    let e = lit(&["Holder"], vec![("item", Expr::Literal(Literal::Bool(false), sp()))]);
    let t = construct_expr(&e, None, &mut ctx).unwrap();
    assert_eq!(t.ty, Type::Named("Holder".to_string(), vec![Type::Bool]));
    let e = lit(&["Holder"], vec![]);
    let (code, _) = type_error_parts(construct_expr(&e, None, &mut ctx).unwrap_err());
    assert_eq!(code, TypeErrorCode::T0002);
    assert_eq!(ctx.next_id_now(), 10);
}

#[test]
fn typed_program_hoists_functions() {
    let subst = Substitution::new();
    let mut schemes: StrMap<TypeScheme> = StrMap::new();
    schemes.insert("g".to_string(), TypeScheme::mono(InferType::Fun(vec![], Box::new(InferType::integer()))));
    let raw = struct_raw();
    let params = struct_params();
    let envs = enums();
    let mut ctx = ConstructCtx::new(&subst, &schemes, StrMap::new(), &raw, &params, StrMap::new(), &envs, TypeVarGenerator::with_counter(10));
    let program = Program {
        decls: vec![
            Decl::Let(BindDecl { name: "y".to_string(), type_ann: None, value: Expr::Ident("g".to_string(), sp()), span: sp() }),
            Decl::Fun(FunDecl {
                name: "g".to_string(),
                generics: vec![],
                params: vec![],
                return_type: Some(TypeExpr::Named("Int".to_string(), vec![])),
                body: block(int_lit(1)),
                span: sp(),
            }),
        ],
    };
    let ds = construct_program(&program, &mut ctx).unwrap();
    assert_eq!(ds.len(), 2);
    assert_eq!(ds[0].parts[0].ty, Type::Fun(vec![], Box::new(Type::Int)));
    assert_eq!(ctx.lookup("y"), Some(&Type::Fun(vec![], Box::new(Type::Int))));
}
