use lib::ast::{AssignOp, FunSignature, Literal, Param, Pattern, Span, TypeExpr};
use lib::error::{GustError, InternalErrorCode, TypeErrorCode};
use lib::strmap::StrMap;
use lib::typechecker::rules::{
    infer_assign_op, infer_call, infer_cast, infer_for_in, infer_index, infer_method_call, infer_method_target, infer_path,
    infer_closure_enter, infer_closure_exit, infer_fun_generalize, infer_let_binding, infer_propagate, infer_return, infer_tuple_access, FunGeneralization,
};
use lib::typechecker::construction::{
    bind_enum_variant_fields, construct_pattern_bindings, extract_type_args_from_type, instantiate_scheme_for_call,
    ConstructCtx,
};
use lib::typechecker::conversions::{
    infer_type_to_type, resolved_to_type, type_expr_to_infer, type_expr_to_infer_with_generics, type_to_infer,
};
use lib::typechecker::exports::{GlobalExports, ModuleExports};
use lib::typechecker::inference::{infer_enum_variant_pattern, named_type_name};
use lib::typechecker::registry::{
    array_len_scheme, dbg_scheme, populate_std_schemes, register_builtins, register_impl_methods, StdPrelude,
};
use lib::typeinference::{
    EnumInfo, InferContext, InferType, Substitution, TypeRegistry, TypeScheme, TypeVar, TypeVarGenerator, VariantInfo,
};
use lib::types::Type;

fn sp() -> Span {
    Span::new(3, 4, "m.mln".to_string())
}

fn var(n: u32) -> InferType {
    InferType::Var(TypeVar(n))
}

fn te(n: &str) -> TypeExpr {
    TypeExpr::Named(n.to_string(), vec![])
}

fn type_error_parts(e: GustError) -> (TypeErrorCode, String) {
    match e {
        GustError::TypeError { code, message, .. } => (code, message),
        other => panic!("expected a type error, got {other:?}"),
    }
}

// ── Inference context ────────────────────────────────────────────────────────

#[test]
fn context_scopes_shadow_and_unwind() {
    let mut ctx = InferContext::new(TypeRegistry::new(), TypeVarGenerator::new());
    ctx.bind_mono("x".to_string(), InferType::integer(), false);
    ctx.push_scope();
    ctx.bind_mono("x".to_string(), InferType::bool(), true);
    assert_eq!(ctx.lookup("x"), Some(InferType::bool()));
    ctx.pop_scope();
    assert_eq!(ctx.lookup("x"), Some(InferType::integer()));
    assert_eq!(ctx.lookup("y"), None);
}

#[test]
fn context_lookup_instantiates_polymorphic_bindings() {
    let mut ctx = InferContext::new(TypeRegistry::new(), TypeVarGenerator::with_counter(5));
    let scheme = TypeScheme { quantified_vars: vec![TypeVar(0)], ty: InferType::Fun(vec![var(0)], Box::new(var(0))) };
    ctx.bind_poly("id".to_string(), scheme);
    assert_eq!(ctx.lookup("id"), Some(InferType::Fun(vec![var(5)], Box::new(var(5)))));
    assert_eq!(ctx.lookup("id"), Some(InferType::Fun(vec![var(6)], Box::new(var(6)))));
}

#[test]
fn context_lookup_inner_mono_shadows_outer_poly() {
    let mut ctx = InferContext::new(TypeRegistry::new(), TypeVarGenerator::new());
    ctx.bind_poly("f".to_string(), TypeScheme::mono(InferType::integer()));
    ctx.push_scope();
    ctx.bind_mono("f".to_string(), InferType::bool(), false);
    assert_eq!(ctx.lookup("f"), Some(InferType::bool()));
    ctx.bind_poly("f".to_string(), TypeScheme::mono(InferType::str()));
    assert_eq!(ctx.lookup("f"), Some(InferType::str()));
    ctx.pop_scope();
    assert_eq!(ctx.lookup("f"), Some(InferType::integer()));
}

#[test]
fn context_scope_round_trip_keeps_counter_and_constraints() {
    let mut ctx = InferContext::new(TypeRegistry::new(), TypeVarGenerator::new());
    ctx.bind_mono("x".to_string(), InferType::integer(), false);
    ctx.push_scope();
    ctx.bind_mono("x".to_string(), InferType::bool(), true);
    ctx.bind_poly("y".to_string(), TypeScheme::mono(InferType::str()));
    let v = ctx.fresh_var();
    ctx.add_constraint(v.clone(), InferType::integer(), Span::new(0, 1, "t.mln".to_string()));
    ctx.pop_scope();
    assert_eq!(ctx.lookup("x"), Some(InferType::integer()));
    assert_eq!(ctx.lookup("y"), None);
    assert_eq!(ctx.fresh_var(), var(1));
    let s = ctx.solve().unwrap();
    assert_eq!(s.apply(&v), InferType::integer());
}

#[test]
fn scoped_structs_are_all_forgotten() {
    let mut ctx = InferContext::new(TypeRegistry::new(), TypeVarGenerator::new());
    ctx.register_struct_fields("Outer".to_string(), vec![]);
    ctx.push_struct_scope();
    ctx.register_struct_fields("A".to_string(), vec![("x".to_string(), InferType::integer())]);
    ctx.register_struct_fields("B".to_string(), vec![]);
    ctx.pop_struct_scope();
    assert!(ctx.get_struct_fields("A").is_none());
    assert!(ctx.get_struct_fields("B").is_none());
    assert!(ctx.get_struct_fields("Outer").is_some());
}

#[test]
fn applying_a_chain_twice_is_applying_it_once() {
    let mut s = Substitution::new();
    s.bind(TypeVar(0), var(1));
    s.bind(TypeVar(1), InferType::Array(Box::new(var(2))));
    let once = s.apply(&InferType::Tuple(vec![var(0), var(3)]));
    assert_eq!(once, InferType::Tuple(vec![InferType::Array(Box::new(var(2))), var(3)]));
    assert_eq!(s.apply(&once), once);
}

#[test]
fn lookup_for_write_errors() {
    let mut ctx = InferContext::default();
    ctx.bind_mono("a".to_string(), InferType::integer(), false);
    ctx.bind_mono("b".to_string(), InferType::str(), true);
    assert_eq!(ctx.lookup_for_write("b", &sp()).unwrap(), InferType::str());
    let (code, msg) = type_error_parts(ctx.lookup_for_write("a", &sp()).unwrap_err());
    assert_eq!(code, TypeErrorCode::T0006);
    assert_eq!(msg, "cannot assign to immutable binding `a`");
    let (code, msg) = type_error_parts(ctx.lookup_for_write("zzz", &sp()).unwrap_err());
    assert_eq!(code, TypeErrorCode::T0003);
    assert_eq!(msg, "use of undeclared variable `zzz`");
}

#[test]
fn context_fresh_vars_and_env_free_vars() {
    let mut ctx = InferContext::default();
    let a = ctx.fresh_var();
    let b = ctx.fresh_var();
    assert_eq!(a, var(0));
    assert_eq!(b, var(1));
    ctx.bind_mono("p".to_string(), InferType::Array(Box::new(b.clone())), false);
    let fv = ctx.env_free_vars();
    assert!(fv.contains(&1));
    assert!(!fv.contains(&0));
}

#[test]
fn context_solve_uses_recorded_constraints() {
    let mut ctx = InferContext::default();
    let a = ctx.fresh_var();
    ctx.add_constraint(a.clone(), InferType::float(), sp());
    let s = ctx.solve().unwrap();
    assert_eq!(s.apply(&a), InferType::float());
    ctx.add_constraint(a.clone(), InferType::bool(), sp());
    let (code, msg) = type_error_parts(ctx.solve().unwrap_err());
    assert_eq!(code, TypeErrorCode::T0001);
    assert_eq!(msg, "cannot unify Float with Bool");
}

#[test]
fn context_return_and_break_types_nest() {
    let mut ctx = InferContext::default();
    assert!(ctx.current_return_type().is_none());
    let prev = ctx.push_return_type(InferType::integer());
    assert!(prev.is_none());
    let prev2 = ctx.push_return_type(InferType::bool());
    assert_eq!(ctx.current_return_type(), Some(&InferType::bool()));
    ctx.pop_return_type(prev2);
    assert_eq!(ctx.current_return_type(), Some(&InferType::integer()));
    ctx.pop_return_type(prev);
    assert!(ctx.current_return_type().is_none());
    let pb = ctx.push_break_type(InferType::str());
    assert_eq!(ctx.current_break_type(), Some(&InferType::str()));
    ctx.pop_break_type(pb);
    assert!(ctx.current_break_type().is_none());
}

// ── Registry ─────────────────────────────────────────────────────────────────

#[test]
fn registry_scoped_structs_are_forgotten_on_pop() {
    let mut r = TypeRegistry::new();
    r.register_struct_fields("G".to_string(), vec![("a".to_string(), InferType::integer())]);
    r.push_struct_scope();
    r.register_struct_fields("L".to_string(), vec![]);
    assert!(r.struct_fields("L").is_some());
    r.pop_struct_scope();
    assert!(r.struct_fields("L").is_none());
    assert_eq!(r.struct_fields("G").unwrap().len(), 1);
}

#[test]
fn registry_methods_and_enums() {
    let mut r = TypeRegistry::new();
    r.register_method("Point".to_string(), "norm".to_string(), InferType::integer());
    assert_eq!(r.method_type("Point", "norm"), Some(&InferType::integer()));
    assert_eq!(r.method_type("Point", "other"), None);
    r.register_enum(
        "Opt".to_string(),
        EnumInfo { type_params: vec![TypeVar(0)], variants: vec![VariantInfo { name: "Some".into(), fields: vec![] }] },
    );
    assert_eq!(r.enum_info("Opt").unwrap().variants.len(), 1);
    assert!(r.enum_info("Nope").is_none());
}

// ── Conversions ──────────────────────────────────────────────────────────────

#[test]
fn type_expressions_convert_to_inference_types() {
    assert_eq!(type_expr_to_infer(&te("Int")), InferType::integer());
    assert_eq!(type_expr_to_infer(&te("String")), InferType::str());
    assert_eq!(type_expr_to_infer(&te("Never")), InferType::Never);
    assert_eq!(type_expr_to_infer(&TypeExpr::Unit), InferType::unit());
    assert_eq!(
        type_expr_to_infer(&TypeExpr::Named("List".into(), vec![te("Int")])),
        InferType::Named("List".into(), vec![InferType::integer()])
    );
    assert_eq!(
        type_expr_to_infer(&TypeExpr::Fun(vec![te("Bool")], None)),
        InferType::Fun(vec![InferType::bool()], Box::new(InferType::unit()))
    );
    let mut g: StrMap<TypeVar> = StrMap::new();
    g.insert("T".to_string(), TypeVar(4));
    assert_eq!(
        type_expr_to_infer_with_generics(&TypeExpr::Array(Box::new(te("T"))), &g),
        InferType::Array(Box::new(var(4)))
    );
}

#[test]
fn inference_types_resolve_or_report_t0002() {
    let t = InferType::Named("Perhaps".into(), vec![InferType::integer()]);
    assert_eq!(infer_type_to_type(&t, &sp()).unwrap(), Type::Named("Perhaps".into(), vec![Type::Int]));
    let (code, msg) = type_error_parts(infer_type_to_type(&var(0), &sp()).unwrap_err());
    assert_eq!(code, TypeErrorCode::T0002);
    assert_eq!(msg, "cannot infer type; add a type annotation");
    let mut s = Substitution::new();
    s.bind(TypeVar(0), InferType::bool());
    assert_eq!(resolved_to_type(&InferType::Array(Box::new(var(0))), &s, &sp()).unwrap(), Type::Array(Box::new(Type::Bool)));
}

#[test]
fn resolved_types_round_trip_through_inference_types() {
    let ts = vec![
        Type::Int,
        Type::Tuple(vec![Type::Str, Type::Unit]),
        Type::Fun(vec![Type::Float], Box::new(Type::Never)),
        Type::Named("P".into(), vec![Type::Bool]),
    ];
    for t in ts {
        let back = infer_type_to_type(&type_to_infer(&t), &sp()).unwrap();
        assert_eq!(back, t);
    }
}

// ── Built-in schemes ─────────────────────────────────────────────────────────

#[test]
fn builtin_schemes_shapes() {
    let s = dbg_scheme(TypeVar(2));
    assert_eq!(s.quantified_vars, vec![TypeVar(2)]);
    assert_eq!(s.ty, InferType::Fun(vec![var(2)], Box::new(var(2))));
    let s = array_len_scheme(TypeVar(1));
    assert_eq!(s.ty, InferType::Fun(vec![InferType::Array(Box::new(var(1)))], Box::new(InferType::integer())));
}

#[test]
fn std_schemes_take_five_fresh_variables() {
    let mut map: StrMap<TypeScheme> = StrMap::new();
    let mut g = TypeVarGenerator::with_counter(3);
    populate_std_schemes(&mut map, &mut g);
    assert_eq!(g.counter(), 8);
    for n in ["print", "println", "array_push", "array_len", "dbg"] {
        assert!(map.contains_key(n), "{n} should have a scheme");
    }
    assert_eq!(map.get("dbg").unwrap().quantified_vars, vec![TypeVar(7)]);
}

#[test]
fn prelude_is_empty_and_builtins_register_methods() {
    assert_eq!(StdPrelude::empty().schemes().len(), 0);
    let prelude = StdPrelude::default();
    assert_eq!(prelude.schemes().len(), 10);
    for n in ["print", "println", "array_push", "array_len", "dbg"] {
        assert!(!prelude.schemes().get(n).unwrap().quantified_vars.is_empty(), "{n} is polymorphic");
    }
    for n in ["string_len", "string_concat", "clock", "assert", "assert_msg"] {
        assert!(prelude.schemes().get(n).unwrap().quantified_vars.is_empty(), "{n} is monomorphic");
    }
    assert_eq!(prelude.schemes().get("print").unwrap().quantified_vars, vec![TypeVar(0)]);
    assert_eq!(prelude.schemes().get("dbg").unwrap().quantified_vars, vec![TypeVar(4)]);
    let mut ctx = InferContext::default();
    register_builtins(&mut ctx, &prelude);
    assert_eq!(
        ctx.get_method_type("Int", "to_string"),
        Some(&InferType::Fun(vec![InferType::integer()], Box::new(InferType::str())))
    );
}

// ── Second-pass pieces ───────────────────────────────────────────────────────

#[test]
fn type_args_of_resolved_types() {
    assert_eq!(extract_type_args_from_type(&Type::Perhaps(Box::new(Type::Int))), vec![Type::Int]);
    assert_eq!(
        extract_type_args_from_type(&Type::Result(Box::new(Type::Int), Box::new(Type::Str))),
        vec![Type::Int, Type::Str]
    );
    assert_eq!(extract_type_args_from_type(&Type::Named("P".into(), vec![Type::Bool])), vec![Type::Bool]);
    assert!(extract_type_args_from_type(&Type::Int).is_empty());
}

#[test]
fn generic_call_resolves_against_argument_types() {
    let scheme = TypeScheme { quantified_vars: vec![TypeVar(0)], ty: InferType::Fun(vec![var(0)], Box::new(var(0))) };
    let mut g = TypeVarGenerator::with_counter(100);
    let t = instantiate_scheme_for_call(&scheme, &vec![Type::Str], &sp(), &mut g).unwrap();
    assert_eq!(t, Type::Fun(vec![Type::Str], Box::new(Type::Str)));
    assert_eq!(g.counter(), 101);
}

#[test]
fn generic_call_errors() {
    let scheme = TypeScheme {
        quantified_vars: vec![TypeVar(0)],
        ty: InferType::Fun(vec![var(0), var(0)], Box::new(InferType::unit())),
    };
    // The generator is ahead of every variable already in use.
    let mut g = TypeVarGenerator::with_counter(50);
    let (code, msg) =
        type_error_parts(instantiate_scheme_for_call(&scheme, &vec![Type::Int, Type::Bool], &sp(), &mut g).unwrap_err());
    assert_eq!(code, TypeErrorCode::T0001);
    assert_eq!(msg, "argument type mismatch");
    // No argument pins the variable down.
    let (code, _) = type_error_parts(instantiate_scheme_for_call(&scheme, &vec![], &sp(), &mut g).unwrap_err());
    assert_eq!(code, TypeErrorCode::T0002);
    let not_fun = TypeScheme::mono(InferType::integer());
    match instantiate_scheme_for_call(&not_fun, &vec![], &sp(), &mut g).unwrap_err() {
        GustError::Internal { code, message } => {
            assert_eq!(code, InternalErrorCode::I0001);
            assert_eq!(message, "scheme type is not a function");
        }
        other => panic!("unexpected {other:?}"),
    }
}

#[test]
fn method_lookup_names() {
    assert_eq!(named_type_name(&InferType::Named("Point".into(), vec![])), Some("Point".to_string()));
    assert_eq!(named_type_name(&InferType::str()), Some("String".to_string()));
    assert_eq!(named_type_name(&InferType::integer()), Some("Int".to_string()));
    assert_eq!(named_type_name(&InferType::float()), Some("Float".to_string()));
    assert_eq!(named_type_name(&InferType::bool()), Some("Bool".to_string()));
    assert_eq!(named_type_name(&InferType::unit()), None);
    assert_eq!(named_type_name(&var(0)), None);
}

fn perhaps_registry() -> TypeRegistry {
    let mut r = TypeRegistry::new();
    r.register_enum(
        "Perhaps".to_string(),
        EnumInfo {
            type_params: vec![TypeVar(0)],
            variants: vec![
                VariantInfo { name: "Some".into(), fields: vec![("value".into(), var(0))] },
                VariantInfo { name: "Nope".into(), fields: vec![] },
            ],
        },
    );
    r
}

#[test]
fn enum_pattern_binds_fields_and_constrains_scrutinee() {
    let mut ctx = InferContext::new(perhaps_registry(), TypeVarGenerator::with_counter(10));
    let scrut = var(3);
    infer_enum_variant_pattern("Perhaps", "Some", &vec!["value".to_string()], &scrut, &sp(), &mut ctx).unwrap();
    assert_eq!(ctx.lookup("value"), Some(var(10)));
    ctx.add_constraint(scrut.clone(), InferType::Named("Perhaps".into(), vec![InferType::integer()]), sp());
    let s = ctx.solve().unwrap();
    assert_eq!(s.apply(&var(10)), InferType::integer());
}

#[test]
fn enum_pattern_errors() {
    let mut ctx = InferContext::new(perhaps_registry(), TypeVarGenerator::new());
    let (code, msg) = type_error_parts(
        infer_enum_variant_pattern("Maybe", "Some", &vec![], &var(0), &sp(), &mut ctx).unwrap_err(),
    );
    assert_eq!(code, TypeErrorCode::T0003);
    assert_eq!(msg, "unknown enum `Maybe` in pattern");
    let (_, msg) = type_error_parts(
        infer_enum_variant_pattern("Perhaps", "Other", &vec![], &var(0), &sp(), &mut ctx).unwrap_err(),
    );
    assert_eq!(msg, "no variant `Other` on `Perhaps`");
    let (_, msg) = type_error_parts(
        infer_enum_variant_pattern("Perhaps", "Some", &vec!["nope".to_string()], &var(0), &sp(), &mut ctx)
            .unwrap_err(),
    );
    assert_eq!(msg, "no field `nope` on `Perhaps::Some`");
}

fn construct_env() -> StrMap<EnumInfo> {
    let mut envs: StrMap<EnumInfo> = StrMap::new();
    envs.insert(
        "Perhaps".to_string(),
        EnumInfo {
            type_params: vec![TypeVar(0)],
            variants: vec![
                VariantInfo { name: "Some".into(), fields: vec![("value".into(), var(0))] },
                VariantInfo { name: "Pair".into(), fields: vec![("x".into(), var(0)), ("y".into(), var(1))] },
            ],
        },
    );
    envs
}

#[test]
fn construct_ctx_scopes_and_builtins() {
    let subst = Substitution::new();
    let schemes: StrMap<TypeScheme> = StrMap::new();
    let raw: StrMap<Vec<(String, InferType)>> = StrMap::new();
    let params: StrMap<Vec<TypeVar>> = StrMap::new();
    let enums = construct_env();
    let mut ctx = ConstructCtx::new(&subst, &schemes, StrMap::new(), &raw, &params, StrMap::new(), &enums, TypeVarGenerator::new());
    assert_eq!(ctx.lookup("string_concat"), Some(&Type::Fun(vec![Type::Str, Type::Str], Box::new(Type::Str))));
    assert_eq!(ctx.lookup("clock"), Some(&Type::Fun(vec![], Box::new(Type::Int))));
    ctx.push_scope();
    ctx.bind("print".to_string(), Type::Int);
    assert_eq!(ctx.lookup("print"), Some(&Type::Int));
    ctx.pop_scope();
    assert_eq!(ctx.lookup("print"), Some(&Type::Fun(vec![Type::Str], Box::new(Type::Unit))));
    ctx.push_struct_scope();
    ctx.register_local_struct("Local".to_string(), vec![("f".to_string(), Type::Bool)]);
    assert!(ctx.get_struct_fields("Local").is_some());
    ctx.pop_struct_scope();
    assert!(ctx.get_struct_fields("Local").is_none());
    let prev = ctx.push_return_type(Some(Type::Int));
    assert!(prev.is_none());
    ctx.pop_return_type(prev);
    let prev = ctx.push_break_type(Some(Type::Bool));
    assert!(prev.is_none());
    ctx.pop_break_type(prev);
}

#[test]
fn enum_fields_bind_to_scrutinee_type_arguments() {
    let subst = Substitution::new();
    let schemes: StrMap<TypeScheme> = StrMap::new();
    let raw: StrMap<Vec<(String, InferType)>> = StrMap::new();
    let params: StrMap<Vec<TypeVar>> = StrMap::new();
    let enums = construct_env();
    let mut ctx = ConstructCtx::new(&subst, &schemes, StrMap::new(), &raw, &params, StrMap::new(), &enums, TypeVarGenerator::new());
    let scrut = Type::Perhaps(Box::new(Type::Str));
    bind_enum_variant_fields("Perhaps", "Some", &vec!["value".to_string()], &scrut, &mut ctx).unwrap();
    assert_eq!(ctx.lookup("value"), Some(&Type::Str));
    // `y` has a type parameter the scrutinee does not fix.
    let e = bind_enum_variant_fields("Perhaps", "Pair", &vec!["x".to_string(), "y".to_string()], &scrut, &mut ctx)
        .unwrap_err();
    assert_eq!(ctx.lookup("x"), Some(&Type::Str));
    let (code, _) = type_error_parts(e);
    assert_eq!(code, TypeErrorCode::T0002);
    match bind_enum_variant_fields("Nope", "Some", &vec![], &scrut, &mut ctx).unwrap_err() {
        GustError::Internal { message, .. } => assert_eq!(message, "unknown enum `Nope`"),
        other => panic!("unexpected {other:?}"),
    }
    match bind_enum_variant_fields("Perhaps", "Some", &vec!["q".to_string()], &scrut, &mut ctx).unwrap_err() {
        GustError::Internal { message, .. } => assert_eq!(message, "no field `q` on variant `Some`"),
        other => panic!("unexpected {other:?}"),
    }
}

#[test]
fn global_exports_by_module_path() {
    let mut g = GlobalExports::new();
    let mut schemes: StrMap<TypeScheme> = StrMap::new();
    schemes.insert("f".to_string(), TypeScheme::mono(InferType::integer()));
    g.insert(vec!["util".to_string()], ModuleExports { pub_schemes: schemes });
    assert!(g.get_scheme(&vec!["util".to_string()], "f").is_some());
    assert!(g.get_scheme(&vec!["util".to_string()], "g").is_none());
    assert!(g.get_scheme(&vec!["other".to_string()], "f").is_none());
    assert_eq!(g.all_pub_schemes(&vec!["util".to_string()]).unwrap().len(), 1);
    assert!(g.all_pub_schemes(&vec![]).is_none());
}

fn param(name: &str, ann: Option<TypeExpr>) -> Param {
    Param { mutable: false, name: name.to_string(), type_ann: ann, span: sp() }
}

#[test]
fn impl_methods_register_with_fresh_variables() {
    let methods = vec![
        FunSignature { name: "get".into(), params: vec![param("self", None), param("i", Some(te("Int")))], return_type: Some(te("Bool")) },
        FunSignature { name: "set".into(), params: vec![param("self", None), param("v", None), param("w", None)], return_type: None },
    ];
    let mut g = TypeVarGenerator::with_counter(40);
    let mut r = TypeRegistry::new();
    register_impl_methods(&methods, "Vec2", &mut g, &mut r);
    assert_eq!(g.counter(), 42);
    let self_ty = InferType::Named("Vec2".into(), vec![]);
    assert_eq!(
        r.method_type("Vec2", "get"),
        Some(&InferType::Fun(vec![self_ty.clone(), InferType::integer()], Box::new(InferType::bool())))
    );
    assert_eq!(
        r.method_type("Vec2", "set"),
        Some(&InferType::Fun(vec![self_ty, var(40), var(41)], Box::new(InferType::unit())))
    );
}

#[test]
fn match_arm_patterns_bind_resolved_types() {
    let subst = Substitution::new();
    let schemes: StrMap<TypeScheme> = StrMap::new();
    let raw: StrMap<Vec<(String, InferType)>> = StrMap::new();
    let params: StrMap<Vec<TypeVar>> = StrMap::new();
    let enums = construct_env();
    let mut ctx = ConstructCtx::new(&subst, &schemes, StrMap::new(), &raw, &params, StrMap::new(), &enums, TypeVarGenerator::new());
    let some = Pattern::EnumVariant { path: vec!["Perhaps".into(), "Some".into()], fields: vec!["v2".into()], span: sp() };
    let pat = Pattern::Tuple(
        vec![
            Pattern::Binding("a".into(), sp()),
            Pattern::Literal(Literal::Int(1), sp()),
            Pattern::Tuple(vec![Pattern::Binding("b".into(), sp())], sp()),
        ],
        sp(),
    );
    let ty = Type::Tuple(vec![Type::Bool, Type::Int, Type::Tuple(vec![Type::Str])]);
    construct_pattern_bindings(&pat, &ty, &mut ctx).unwrap();
    assert_eq!(ctx.lookup("a"), Some(&Type::Bool));
    assert_eq!(ctx.lookup("b"), Some(&Type::Str));
    // Elements are paired as far as both the patterns and the types go.
    let short = Pattern::Tuple(vec![Pattern::Binding("c".into(), sp()), Pattern::Binding("d".into(), sp())], sp());
    construct_pattern_bindings(&short, &Type::Tuple(vec![Type::Int]), &mut ctx).unwrap();
    assert_eq!(ctx.lookup("c"), Some(&Type::Int));
    assert_eq!(ctx.lookup("d"), None);
    let some_fields = Pattern::EnumVariant { path: vec!["Perhaps".into(), "Some".into()], fields: vec!["value".into()], span: sp() };
    construct_pattern_bindings(&some_fields, &Type::Perhaps(Box::new(Type::Float)), &mut ctx).unwrap();
    assert_eq!(ctx.lookup("value"), Some(&Type::Float));
    match construct_pattern_bindings(&some, &Type::Perhaps(Box::new(Type::Int)), &mut ctx).unwrap_err() {
        GustError::Internal { message, .. } => assert_eq!(message, "no field `v2` on variant `Some`"),
        other => panic!("unexpected {other:?}"),
    }
    match construct_pattern_bindings(&pat, &Type::Int, &mut ctx).unwrap_err() {
        GustError::Internal { message, .. } => assert_eq!(message, "tuple pattern on non-tuple"),
        other => panic!("unexpected {other:?}"),
    }
    let bad = Pattern::EnumVariant { path: vec!["Some".into()], fields: vec![], span: sp() };
    match construct_pattern_bindings(&bad, &Type::Int, &mut ctx).unwrap_err() {
        GustError::Internal { message, .. } => assert_eq!(message, "invalid pattern path"),
        other => panic!("unexpected {other:?}"),
    }
    // Names bound before the failing element stay bound.
    let partial = Pattern::Tuple(vec![Pattern::Binding("early".into(), sp()), bad], sp());
    assert!(construct_pattern_bindings(&partial, &Type::Tuple(vec![Type::Str, Type::Int]), &mut ctx).is_err());
    assert_eq!(ctx.lookup("early"), Some(&Type::Str));
}

// ── Rules for single forms ───────────────────────────────────────────────────

fn type_error_of(e: GustError) -> (TypeErrorCode, String) {
    match e {
        GustError::TypeError { code, message, .. } => (code, message),
        other => panic!("expected a type error, got {other:?}"),
    }
}

#[test]
fn call_rule_checks_arity_and_links_result() {
    let mut ctx = InferContext::new(TypeRegistry::new(), TypeVarGenerator::with_counter(4));
    let f = InferType::Fun(vec![InferType::integer()], Box::new(InferType::bool()));
    let (code, msg) = type_error_of(infer_call(f.clone(), vec![], &sp(), &mut ctx).unwrap_err());
    assert_eq!(code, TypeErrorCode::T0004);
    assert_eq!(msg, "expected 1 argument(s), got 0");
    let r = infer_call(f, vec![InferType::integer()], &sp(), &mut ctx).unwrap();
    assert_eq!(r, var(4));
    assert_eq!(ctx.solve().unwrap().apply(&r), InferType::bool());
}

#[test]
fn index_assign_return_and_propagate_rules() {
    let mut ctx = InferContext::new(TypeRegistry::new(), TypeVarGenerator::with_counter(0));
    let arr = InferType::Array(Box::new(InferType::str()));
    let e = infer_index(arr, InferType::integer(), &sp(), &mut ctx);
    assert_eq!(e, var(0));
    let u = infer_assign_op(var(0), &AssignOp::Assign, InferType::str(), &sp(), &mut ctx);
    assert_eq!(u, InferType::unit());
    assert_eq!(ctx.solve().unwrap().apply(&e), InferType::str());
    let _ = infer_assign_op(InferType::integer(), &AssignOp::AddAssign, var(7), &sp(), &mut ctx);
    assert_eq!(ctx.solve().unwrap().apply(&var(7)), InferType::integer());
    assert_eq!(infer_return(InferType::bool(), &sp(), &mut ctx), InferType::never());
    let res = InferType::Named("Result".to_string(), vec![InferType::integer(), InferType::str()]);
    let ok = infer_propagate(res, &sp(), &mut ctx);
    assert_eq!(ctx.solve().unwrap().apply(&ok), InferType::integer());
}

#[test]
fn tuple_access_cast_and_for_in_rules() {
    let mut ctx = InferContext::new(TypeRegistry::new(), TypeVarGenerator::with_counter(0));
    let tup = InferType::Tuple(vec![InferType::integer(), InferType::bool()]);
    assert_eq!(infer_tuple_access(&tup, 1, &sp(), &ctx).unwrap(), InferType::bool());
    let (code, msg) = type_error_of(infer_tuple_access(&tup, 2, &sp(), &ctx).unwrap_err());
    assert_eq!(code, TypeErrorCode::T0003);
    assert_eq!(msg, "tuple index 2 out of bounds (tuple has 2 elements)");
    let (code, _) = type_error_of(infer_tuple_access(&InferType::integer(), 0, &sp(), &ctx).unwrap_err());
    assert_eq!(code, TypeErrorCode::T0002);
    assert_eq!(infer_cast(&InferType::integer(), InferType::float(), &sp(), &ctx).unwrap(), InferType::float());
    let (code, msg) = type_error_of(infer_cast(&InferType::bool(), InferType::integer(), &sp(), &ctx).unwrap_err());
    assert_eq!(code, TypeErrorCode::T0007);
    assert_eq!(msg, "cannot cast `Bool` to `Int` — only `Int as Float` and identity casts are supported");
    let elem = infer_for_in(InferType::Array(Box::new(InferType::str())), &sp(), &mut ctx).unwrap();
    assert_eq!(elem, var(0));
    assert_eq!(ctx.solve().unwrap().apply(&elem), InferType::str());
    let range = InferType::Named("Range".to_string(), vec![InferType::integer()]);
    let elem = infer_for_in(range, &sp(), &mut ctx).unwrap();
    assert_eq!(ctx.solve().unwrap().apply(&elem), InferType::integer());
    let (code, msg) = type_error_of(infer_for_in(InferType::bool(), &sp(), &mut ctx).unwrap_err());
    assert_eq!(code, TypeErrorCode::T0001);
    assert_eq!(msg, "expected array or range in for-in, got `Bool`");
}

#[test]
fn path_rule_names_methods_and_unit_variants() {
    let mut ctx = InferContext::new(TypeRegistry::new(), TypeVarGenerator::with_counter(9));
    ctx.register_enum(
        "Maybe".to_string(),
        EnumInfo {
            type_params: vec![TypeVar(0)],
            variants: vec![
                VariantInfo { name: "Nothing".to_string(), fields: vec![] },
                VariantInfo { name: "Just".to_string(), fields: vec![("value".to_string(), var(0))] },
            ],
        },
    );
    let new_ty = InferType::Fun(vec![], Box::new(InferType::Named("Point".to_string(), vec![])));
    ctx.register_method("Point".to_string(), "new".to_string(), new_ty.clone());
    let p = |a: &str, b: &str| vec![a.to_string(), b.to_string()];
    assert_eq!(infer_path(&p("Point", "new"), &sp(), &mut ctx).unwrap(), new_ty);
    assert_eq!(infer_path(&p("Maybe", "Nothing"), &sp(), &mut ctx).unwrap(), InferType::Named("Maybe".to_string(), vec![var(9)]));
    let (code, msg) = type_error_of(infer_path(&p("Maybe", "Just"), &sp(), &mut ctx).unwrap_err());
    assert_eq!(code, TypeErrorCode::T0003);
    assert_eq!(msg, "no member `Just` on type `Maybe`");
    let (_, msg) = type_error_of(infer_path(&vec!["a".to_string(), "b".to_string(), "c".to_string()], &sp(), &mut ctx).unwrap_err());
    assert_eq!(msg, "unresolved path `a::b::c`");
}

#[test]
fn method_call_rules() {
    let mut ctx = InferContext::new(TypeRegistry::new(), TypeVarGenerator::with_counter(3));
    let len_ty = InferType::Fun(vec![InferType::str()], Box::new(InferType::integer()));
    ctx.register_method("String".to_string(), "len".to_string(), len_ty.clone());
    ctx.add_constraint(var(0), InferType::str(), sp());
    let (recv, mt) = infer_method_target(&var(0), "len", &sp(), &ctx).unwrap();
    assert_eq!(recv, InferType::str());
    assert_eq!(mt, len_ty);
    let r = infer_method_call(mt, recv, vec![], &sp(), &mut ctx);
    assert_eq!(r, var(3));
    assert_eq!(ctx.solve().unwrap().apply(&r), InferType::integer());
    let (code, msg) = type_error_of(infer_method_target(&InferType::integer(), "len", &sp(), &ctx).unwrap_err());
    assert_eq!(code, TypeErrorCode::T0003);
    assert_eq!(msg, "no method `len` on `Int`");
    let (code, _) = type_error_of(infer_method_target(&var(9), "len", &sp(), &ctx).unwrap_err());
    assert_eq!(code, TypeErrorCode::T0002);
}

#[test]
fn let_bindings_generalize_unannotated_closures() {
    let mut ctx = InferContext::new(TypeRegistry::new(), TypeVarGenerator::with_counter(1));
    let mut gens: Vec<FunGeneralization> = Vec::new();
    let id_ty = InferType::Fun(vec![var(0)], Box::new(var(0)));
    let env = std::collections::HashSet::new();
    let r = infer_let_binding("id".to_string(), id_ty.clone(), None, true, env.clone(), &sp(), &mut ctx, &mut gens).unwrap();
    assert_eq!(r, InferType::unit());
    assert_eq!(gens.len(), 1);
    assert_eq!(gens[0].fun_ty, id_ty);
    // Each use of the generalized binding gets fresh variables.
    assert_eq!(ctx.lookup("id"), Some(InferType::Fun(vec![var(1)], Box::new(var(1)))));
    // An annotated binding is monomorphic and constrained to its annotation.
    infer_let_binding("x".to_string(), var(5), Some(InferType::bool()), false, env, &sp(), &mut ctx, &mut gens).unwrap();
    assert_eq!(gens.len(), 1);
    assert_eq!(ctx.lookup("x"), Some(var(5)));
    assert_eq!(ctx.solve().unwrap().apply(&var(5)), InferType::bool());
}

#[test]
fn function_declarations_are_generalized_after_their_body() {
    let mut ctx = InferContext::new(TypeRegistry::new(), TypeVarGenerator::with_counter(2));
    let mut gens: Vec<FunGeneralization> = Vec::new();
    // The hoisted variable of `f`.
    ctx.bind_mono("f".to_string(), var(0), false);
    let fun_ty = InferType::Fun(vec![var(1)], Box::new(var(1)));
    infer_fun_generalize("f".to_string(), fun_ty.clone(), std::collections::HashSet::new(), &sp(), &mut ctx, &mut gens).unwrap();
    assert_eq!(gens.len(), 1);
    assert_eq!(gens[0].fun_ty, fun_ty);
    assert_eq!(ctx.solve().unwrap().apply(&var(0)), fun_ty);
    // The polymorphic binding wins over the hoisted one in the same scope.
    assert_eq!(ctx.lookup("f"), Some(InferType::Fun(vec![var(2)], Box::new(var(2)))));
}

#[test]
fn closures_bind_parameters_and_check_their_body() {
    let mut ctx = InferContext::new(TypeRegistry::new(), TypeVarGenerator::with_counter(4));
    let params = vec![
        Param { mutable: false, name: "a".to_string(), type_ann: Some(TypeExpr::Named("Int".to_string(), vec![])), span: sp() },
        Param { mutable: true, name: "b".to_string(), type_ann: None, span: sp() },
    ];
    let (tys, ret, saved) = infer_closure_enter(&params, &None, &mut ctx);
    assert_eq!(tys, vec![InferType::integer(), var(4)]);
    assert_eq!(ret, var(5));
    assert!(saved.is_none());
    assert_eq!(ctx.lookup("b"), Some(var(4)));
    assert!(ctx.lookup_for_write("b", &sp()).is_ok());
    assert_eq!(infer_return(InferType::bool(), &sp(), &mut ctx), InferType::never());
    let f = infer_closure_exit(tys, ret, InferType::bool(), &sp(), saved, &mut ctx);
    assert_eq!(f, InferType::Fun(vec![InferType::integer(), var(4)], Box::new(var(5))));
    assert_eq!(ctx.lookup("a"), None);
    assert_eq!(ctx.solve().unwrap().apply(&var(5)), InferType::bool());
}
