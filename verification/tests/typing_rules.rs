use lib::ast::{AssignOp, BinOp, DeclHeader, DeclKind, GenericParam, ImportTree, Literal, Pattern, PathRoot, Span, UnaryOp, Visibility};
use lib::error::{GustError, InternalErrorCode, RuntimeErrorCode, TypeErrorCode};
use lib::evaluator::{
    apply_assign_op, builtin_array_len, builtin_array_push, builtin_assert, builtin_assert_msg, builtin_string_concat,
    builtin_string_len, condition_step, eval_binop, eval_index, eval_tuple_access, for_in_items, loop_body_step, match_pattern, propagate_step, Branch,
    Environment, LoopKind, LoopStep, Signal, format_value, value_to_display_string, BinopValue, RtValue, ScalarValue,
};
use lib::module_loader::import_search;
use lib::strmap::StrMap;
use lib::typechecker::construction::{construct_binop_type, construct_literal_type, construct_unaryop_type};
use lib::typechecker::inference::{
    hoist_fun_decls, infer_binop, infer_field_access_type, infer_field_assign_type, infer_literal, infer_pattern, infer_unaryop, pattern_span,
};
use lib::typechecker::matching::{
    check_match_exhaustiveness, is_bool_literal_pattern, is_catch_all_pattern, pattern_covers_variant, ArmPattern,
};
use lib::typeinference::{EnumInfo, InferContext, InferType, TypeRegistry, TypeVar, TypeVarGenerator, VariantInfo};
use lib::types::Type;

fn sp(start: usize) -> Span {
    Span::new(start, start + 1, "m.mln".to_string())
}

fn var(n: u32) -> InferType {
    InferType::Var(TypeVar(n))
}

fn ctx_at(n: u32) -> InferContext {
    InferContext::new(TypeRegistry::new(), TypeVarGenerator::with_counter(n))
}

fn path(names: &[&str]) -> Vec<String> {
    names.iter().map(|s| s.to_string()).collect()
}

fn type_error_parts(e: GustError) -> (TypeErrorCode, String, usize) {
    match e {
        GustError::TypeError { code, message, start, .. } => (code, message, start),
        other => panic!("expected a type error, got {other:?}"),
    }
}

fn fun(name: &str, generic: bool) -> DeclHeader {
    DeclHeader {
        kind: DeclKind::Fun,
        visibility: Visibility::Private,
        name: name.to_string(),
        span: sp(0),
        generics: if generic { vec![GenericParam { name: "T".into(), bound: None }] } else { vec![] },
        params: vec![],
        return_type: None,
    }
}

// ── Hoisting ─────────────────────────────────────────────────────────────────

#[test]
fn hoisting_binds_non_generic_functions_to_fresh_variables() {
    let mut ctx = ctx_at(4);
    let mut other = fun("x", false);
    other.kind = DeclKind::Let;
    hoist_fun_decls(&vec![fun("f", false), fun("g", true), other, fun("h", false)], &mut ctx);
    assert_eq!(ctx.lookup("f"), Some(var(4)));
    assert_eq!(ctx.lookup("h"), Some(var(5)));
    assert_eq!(ctx.lookup("g"), None);
    assert_eq!(ctx.lookup("x"), None);
    assert_eq!(ctx.fresh_var(), var(6));
}

// ── Literals and operators in the first pass ─────────────────────────────────

#[test]
fn literals_get_their_types() {
    let mut ctx = ctx_at(7);
    assert_eq!(infer_literal(&Literal::Int(3), &mut ctx), InferType::integer());
    assert_eq!(infer_literal(&Literal::Float(0), &mut ctx), InferType::float());
    assert_eq!(infer_literal(&Literal::Bool(true), &mut ctx), InferType::bool());
    assert_eq!(infer_literal(&Literal::Str("s".into()), &mut ctx), InferType::str());
    assert_eq!(infer_literal(&Literal::Unit, &mut ctx), InferType::unit());
    assert_eq!(infer_literal(&Literal::Nope, &mut ctx), InferType::Named("Perhaps".into(), vec![var(7)]));
    assert_eq!(ctx.fresh_var(), var(8));
}

#[test]
fn arithmetic_ties_operands_to_a_fresh_result() {
    let mut ctx = ctx_at(10);
    let t = infer_binop(InferType::integer(), &BinOp::Add, var(2), &sp(0), &mut ctx);
    assert_eq!(t, var(10));
    let s = ctx.solve().unwrap();
    assert_eq!(s.apply(&var(10)), InferType::integer());
    assert_eq!(s.apply(&var(2)), InferType::integer());
}

#[test]
fn comparison_ties_operands_and_gives_bool() {
    let mut ctx = ctx_at(0);
    let t = infer_binop(InferType::integer(), &BinOp::Lt, InferType::bool(), &sp(5), &mut ctx);
    assert_eq!(t, InferType::bool());
    let (_, _, start) = type_error_parts(ctx.solve().unwrap_err());
    assert_eq!(start, 5);
    assert_eq!(ctx.fresh_var(), var(0));
}

#[test]
fn logic_and_range_operators() {
    let mut ctx = ctx_at(0);
    assert_eq!(infer_binop(var(1), &BinOp::And, var(2), &sp(0), &mut ctx), InferType::bool());
    let r = infer_binop(var(3), &BinOp::Range, var(4), &sp(0), &mut ctx);
    assert_eq!(r, InferType::Named("Range".into(), vec![InferType::integer()]));
    let s = ctx.solve().unwrap();
    assert_eq!(s.apply(&var(1)), InferType::bool());
    assert_eq!(s.apply(&var(2)), InferType::bool());
    assert_eq!(s.apply(&var(3)), InferType::integer());
    assert_eq!(s.apply(&var(4)), InferType::integer());
}

#[test]
fn unary_operators() {
    let mut ctx = ctx_at(0);
    assert_eq!(infer_unaryop(&UnaryOp::Neg, InferType::float(), &sp(0), &mut ctx), InferType::float());
    assert_eq!(infer_unaryop(&UnaryOp::Not, var(9), &sp(0), &mut ctx), InferType::bool());
    let s = ctx.solve().unwrap();
    assert_eq!(s.apply(&var(9)), InferType::bool());
    let mut ctx = ctx_at(0);
    infer_unaryop(&UnaryOp::Not, InferType::integer(), &sp(2), &mut ctx);
    assert!(ctx.solve().is_err());
}

#[test]
fn pattern_spans() {
    assert_eq!(pattern_span(&Pattern::Wildcard(sp(1))).start, 1);
    assert_eq!(pattern_span(&Pattern::Binding("x".into(), sp(2))).start, 2);
    let v = Pattern::EnumVariant { path: path(&["E", "A"]), fields: vec![], span: sp(3) };
    assert_eq!(pattern_span(&v).start, 3);
    assert_eq!(pattern_span(&Pattern::Tuple(vec![], sp(4))).start, 4);
}

// ── Match exhaustiveness ─────────────────────────────────────────────────────

fn arm(pattern: Pattern) -> ArmPattern {
    ArmPattern { pattern, guarded: false }
}

fn guarded(pattern: Pattern) -> ArmPattern {
    ArmPattern { pattern, guarded: true }
}

fn variant(e: &str, v: &str) -> Pattern {
    Pattern::EnumVariant { path: path(&[e, v]), fields: vec![], span: sp(0) }
}

fn color_env() -> StrMap<EnumInfo> {
    let mut env: StrMap<EnumInfo> = StrMap::new();
    env.insert(
        "Color".to_string(),
        EnumInfo {
            type_params: vec![],
            variants: vec![
                VariantInfo { name: "Red".into(), fields: vec![] },
                VariantInfo { name: "Green".into(), fields: vec![] },
            ],
        },
    );
    env
}

#[test]
fn catch_all_patterns() {
    assert!(is_catch_all_pattern(&Pattern::Wildcard(sp(0))));
    assert!(is_catch_all_pattern(&Pattern::Binding("x".into(), sp(0))));
    assert!(is_catch_all_pattern(&Pattern::Tuple(
        vec![Pattern::Wildcard(sp(0)), Pattern::Tuple(vec![Pattern::Binding("y".into(), sp(0))], sp(0))],
        sp(0)
    )));
    assert!(!is_catch_all_pattern(&Pattern::Tuple(vec![Pattern::Wildcard(sp(0)), Pattern::Nope(sp(0))], sp(0))));
    assert!(!is_catch_all_pattern(&Pattern::Literal(Literal::Int(1), sp(0))));
    assert!(is_bool_literal_pattern(&Pattern::Literal(Literal::Bool(true), sp(0)), true));
    assert!(!is_bool_literal_pattern(&Pattern::Literal(Literal::Bool(true), sp(0)), false));
    assert!(pattern_covers_variant(&Pattern::Nope(sp(0)), "Perhaps", "Nope"));
    assert!(!pattern_covers_variant(&Pattern::Nope(sp(0)), "Perhaps", "Some"));
    assert!(pattern_covers_variant(&variant("Color", "Red"), "Color", "Red"));
    assert!(!pattern_covers_variant(&variant("Color", "Red"), "Color", "Green"));
    let short = Pattern::EnumVariant { path: path(&["Color"]), fields: vec![], span: sp(0) };
    assert!(!pattern_covers_variant(&short, "Color", "Red"));
}

#[test]
fn exhaustive_matches_pass() {
    let env = color_env();
    let s = sp(0);
    assert!(check_match_exhaustiveness(&vec![arm(Pattern::Wildcard(sp(0)))], &Type::Int, &env, &s).is_ok());
    let bools = vec![
        arm(Pattern::Literal(Literal::Bool(true), sp(0))),
        arm(Pattern::Literal(Literal::Bool(false), sp(0))),
    ];
    assert!(check_match_exhaustiveness(&bools, &Type::Bool, &env, &s).is_ok());
    let perhaps = vec![arm(variant("Perhaps", "Some")), arm(Pattern::Nope(sp(0)))];
    assert!(check_match_exhaustiveness(&perhaps, &Type::Perhaps(Box::new(Type::Int)), &env, &s).is_ok());
    let result = vec![arm(variant("Result", "Err")), arm(variant("Result", "Ok"))];
    let rt = Type::Result(Box::new(Type::Int), Box::new(Type::Str));
    assert!(check_match_exhaustiveness(&result, &rt, &env, &s).is_ok());
    let colors = vec![arm(variant("Color", "Green")), arm(variant("Color", "Red"))];
    assert!(check_match_exhaustiveness(&colors, &Type::Named("Color".into(), vec![]), &env, &s).is_ok());
    assert!(check_match_exhaustiveness(&vec![], &Type::Never, &env, &s).is_ok());
}

#[test]
fn guarded_arms_never_change_the_verdict() {
    let env = color_env();
    let s = sp(0);
    let ty = Type::Named("Color".into(), vec![]);
    let mut arms = vec![arm(variant("Color", "Red"))];
    assert!(check_match_exhaustiveness(&arms, &ty, &env, &s).is_err());
    arms.push(guarded(variant("Color", "Green")));
    assert!(check_match_exhaustiveness(&arms, &ty, &env, &s).is_err());
    let mut full = vec![arm(variant("Color", "Red")), arm(variant("Color", "Green"))];
    assert!(check_match_exhaustiveness(&full, &ty, &env, &s).is_ok());
    full.push(guarded(Pattern::Wildcard(sp(0))));
    assert!(check_match_exhaustiveness(&full, &ty, &env, &s).is_ok());
}

#[test]
fn non_exhaustive_matches_report_t0008() {
    let env = color_env();
    let s = sp(9);
    let (code, msg, start) = type_error_parts(
        check_match_exhaustiveness(&vec![arm(variant("Color", "Red"))], &Type::Named("Color".into(), vec![]), &env, &s)
            .unwrap_err(),
    );
    assert_eq!(code, TypeErrorCode::T0008);
    assert_eq!(msg, "non-exhaustive match: not all cases are covered");
    assert_eq!(start, 9);
    // A guarded catch-all covers nothing.
    assert!(check_match_exhaustiveness(&vec![guarded(Pattern::Wildcard(sp(0)))], &Type::Int, &env, &s).is_err());
    let bools = vec![arm(Pattern::Literal(Literal::Bool(true), sp(0))), guarded(Pattern::Literal(Literal::Bool(false), sp(0)))];
    assert!(check_match_exhaustiveness(&bools, &Type::Bool, &env, &s).is_err());
    assert!(check_match_exhaustiveness(&vec![arm(Pattern::Literal(Literal::Int(0), sp(0)))], &Type::Int, &env, &s).is_err());
    // An enum the table does not know cannot be covered variant by variant.
    assert!(check_match_exhaustiveness(&vec![arm(variant("Shape", "Dot"))], &Type::Named("Shape".into(), vec![]), &env, &s).is_err());
}

// ── Literals and operators in the second pass ────────────────────────────────

#[test]
fn literal_types_and_nope() {
    assert_eq!(construct_literal_type(&Literal::Int(1), None, &sp(0)).unwrap(), Type::Int);
    assert_eq!(construct_literal_type(&Literal::Str("a".into()), None, &sp(0)).unwrap(), Type::Str);
    let expected = Type::Perhaps(Box::new(Type::Bool));
    assert_eq!(construct_literal_type(&Literal::Nope, Some(&expected), &sp(0)).unwrap(), expected);
    let (code, msg, start) = type_error_parts(construct_literal_type(&Literal::Nope, None, &sp(6)).unwrap_err());
    assert_eq!(code, TypeErrorCode::T0002);
    assert_eq!(msg, "cannot infer type of `nope`; add a type annotation");
    assert_eq!(start, 6);
}

#[test]
fn operator_result_types() {
    assert_eq!(construct_binop_type(&BinOp::Mul, &Type::Float), Type::Float);
    assert_eq!(construct_binop_type(&BinOp::Ge, &Type::Float), Type::Bool);
    assert_eq!(construct_binop_type(&BinOp::Or, &Type::Bool), Type::Bool);
    assert_eq!(construct_binop_type(&BinOp::RangeInclusive, &Type::Int), Type::Named("Range".into(), vec![Type::Int]));
    assert_eq!(construct_unaryop_type(&UnaryOp::Neg, &Type::Int), Type::Int);
    assert_eq!(construct_unaryop_type(&UnaryOp::Not, &Type::Bool), Type::Bool);
}

// ── Where imports are looked for ─────────────────────────────────────────────

fn leaf(n: &str) -> ImportTree {
    ImportTree::Name { name: n.to_string(), alias: None }
}

#[test]
fn import_search_directories() {
    let parent = path(&["proj", "sub"]);
    let root = path(&["proj"]);
    let tree = ImportTree::Path { name: "util".into(), tree: Box::new(leaf("f")) };
    assert_eq!(import_search(&PathRoot::Root, &tree, &parent, &root), Some((root.clone(), path(&["util", "f"]))));
    assert_eq!(import_search(&PathRoot::Super, &tree, &parent, &root), Some((root.clone(), path(&["util", "f"]))));
    assert_eq!(import_search(&PathRoot::Super, &tree, &root, &root), Some((root.clone(), path(&["util", "f"]))));
    assert_eq!(import_search(&PathRoot::Self_, &tree, &parent, &root), Some((parent.clone(), path(&["util", "f"]))));
    assert_eq!(
        import_search(&PathRoot::Name("geo".into()), &leaf("Point"), &parent, &root),
        Some((parent.clone(), path(&["geo", "Point"])))
    );
    assert_eq!(import_search(&PathRoot::Std, &tree, &parent, &root), None);
    let deep = path(&["proj", "a", "b"]);
    assert_eq!(import_search(&PathRoot::Super, &leaf("x"), &deep, &root), Some((path(&["proj", "a"]), path(&["x"]))));
}

// ── Binary operations on scalar values ───────────────────────────────────────

fn ival(n: i64) -> ScalarValue {
    ScalarValue::Int(n)
}

#[test]
fn integer_arithmetic_rounds_toward_zero() {
    let s = sp(0);
    assert_eq!(eval_binop(&BinOp::Add, ival(2), ival(3), &s).unwrap(), BinopValue::Int(5));
    assert_eq!(eval_binop(&BinOp::Sub, ival(2), ival(3), &s).unwrap(), BinopValue::Int(-1));
    assert_eq!(eval_binop(&BinOp::Mul, ival(-4), ival(3), &s).unwrap(), BinopValue::Int(-12));
    assert_eq!(eval_binop(&BinOp::Div, ival(-7), ival(2), &s).unwrap(), BinopValue::Int(-3));
    assert_eq!(eval_binop(&BinOp::Div, ival(7), ival(-2), &s).unwrap(), BinopValue::Int(-3));
    assert_eq!(eval_binop(&BinOp::Rem, ival(-7), ival(2), &s).unwrap(), BinopValue::Int(-1));
    assert_eq!(eval_binop(&BinOp::Rem, ival(7), ival(-2), &s).unwrap(), BinopValue::Int(1));
    assert_eq!(eval_binop(&BinOp::Div, ival(i64::MIN), ival(1), &s).unwrap(), BinopValue::Int(i64::MIN));
}

fn panic_parts(e: GustError) -> (RuntimeErrorCode, String, usize) {
    match e {
        GustError::RuntimePanic { code, message, start, .. } => (code, message, start),
        other => panic!("expected a runtime panic, got {other:?}"),
    }
}

#[test]
fn division_by_zero_panics_with_r0007() {
    let (code, msg, start) = panic_parts(eval_binop(&BinOp::Div, ival(1), ival(0), &sp(4)).unwrap_err());
    assert_eq!(code, RuntimeErrorCode::R0007);
    assert_eq!(msg, "division by zero");
    assert_eq!(start, 4);
    let (_, msg, _) = panic_parts(eval_binop(&BinOp::Rem, ival(1), ival(0), &sp(4)).unwrap_err());
    assert_eq!(msg, "remainder by zero");
}

#[test]
fn comparisons_equality_and_ranges() {
    let s = sp(0);
    assert_eq!(eval_binop(&BinOp::Lt, ival(1), ival(2), &s).unwrap(), BinopValue::Bool(true));
    assert_eq!(eval_binop(&BinOp::Ge, ival(1), ival(2), &s).unwrap(), BinopValue::Bool(false));
    assert_eq!(eval_binop(&BinOp::Ne, ScalarValue::Bool(true), ScalarValue::Bool(false), &s).unwrap(), BinopValue::Bool(true));
    let a = ScalarValue::Str("ab".into());
    let b = ScalarValue::Str("ab".into());
    assert_eq!(eval_binop(&BinOp::Eq, a, b, &s).unwrap(), BinopValue::Bool(true));
    assert_eq!(
        eval_binop(&BinOp::Range, ival(0), ival(3), &s).unwrap(),
        BinopValue::Range { inclusive: false, start: 0, end: 3 }
    );
    assert_eq!(
        eval_binop(&BinOp::RangeInclusive, ival(0), ival(3), &s).unwrap(),
        BinopValue::Range { inclusive: true, start: 0, end: 3 }
    );
}

#[test]
fn unsupported_operands_are_internal_errors() {
    let s = sp(0);
    match eval_binop(&BinOp::Add, ScalarValue::Str("x\"y".into()), ival(-3), &s).unwrap_err() {
        GustError::Internal { code, message } => {
            assert_eq!(code, InternalErrorCode::I0001);
            assert_eq!(message, "binop: unsupported operand types (Str(\"x\\\"y\"), Int(-3)) (typechecker should have caught this)");
        },
        other => panic!("expected an internal error, got {other:?}"),
    }
    match eval_binop(&BinOp::And, ScalarValue::Bool(true), ScalarValue::Bool(false), &s).unwrap_err() {
        GustError::Internal { message, .. } => {
            assert_eq!(message, "binop: unsupported operand types (Bool(true), Bool(false)) (typechecker should have caught this)");
        },
        other => panic!("expected an internal error, got {other:?}"),
    }
}

#[test]
fn compound_assignments_apply_their_operation() {
    let s = sp(0);
    assert_eq!(apply_assign_op(&AssignOp::AddAssign, ival(5), ival(2), &s).unwrap(), BinopValue::Int(7));
    assert_eq!(apply_assign_op(&AssignOp::SubAssign, ival(5), ival(2), &s).unwrap(), BinopValue::Int(3));
    assert_eq!(apply_assign_op(&AssignOp::MulAssign, ival(5), ival(2), &s).unwrap(), BinopValue::Int(10));
    assert_eq!(apply_assign_op(&AssignOp::DivAssign, ival(5), ival(2), &s).unwrap(), BinopValue::Int(2));
    assert_eq!(apply_assign_op(&AssignOp::RemAssign, ival(5), ival(2), &s).unwrap(), BinopValue::Int(1));
    let (code, _, _) = panic_parts(apply_assign_op(&AssignOp::DivAssign, ival(5), ival(0), &s).unwrap_err());
    assert_eq!(code, RuntimeErrorCode::R0007);
}

#[test]
fn scalar_display_and_rendering() {
    assert_eq!(value_to_display_string(&ival(-42)), "-42");
    assert_eq!(value_to_display_string(&ival(i64::MIN)), "-9223372036854775808");
    assert_eq!(value_to_display_string(&ScalarValue::Bool(false)), "false");
    assert_eq!(value_to_display_string(&ScalarValue::Str("a\"b".into())), "a\"b");
    assert_eq!(format_value(&ival(7)), "7");
    assert_eq!(format_value(&ScalarValue::Bool(true)), "true");
    assert_eq!(format_value(&ScalarValue::Str("a\"b".into())), "\"a\\\"b\"");
}

// ── Pattern inference ────────────────────────────────────────────────────────

fn perhaps_ctx(counter: u32) -> InferContext {
    let mut r = TypeRegistry::new();
    r.register_enum(
        "Perhaps".to_string(),
        EnumInfo {
            type_params: vec![TypeVar(0)],
            variants: vec![
                VariantInfo { name: "Some".into(), fields: vec![("value".into(), var(0))] },
                VariantInfo { name: "Nope".into(), fields: vec![] },
            ],
        },
    );
    InferContext::new(r, TypeVarGenerator::with_counter(counter))
}

#[test]
fn tuple_patterns_bind_their_elements() {
    let mut ctx = perhaps_ctx(20);
    let p = Pattern::Tuple(
        vec![Pattern::Binding("x".into(), sp(0)), Pattern::Literal(Literal::Int(3), sp(1)), Pattern::Wildcard(sp(2))],
        sp(3),
    );
    infer_pattern(&p, &var(5), &mut ctx).unwrap();
    assert_eq!(ctx.lookup("x"), Some(var(20)));
    ctx.add_constraint(var(5), InferType::Tuple(vec![InferType::bool(), var(7), InferType::str()]), sp(9));
    let s = ctx.solve().unwrap();
    assert_eq!(s.apply(&var(20)), InferType::bool());
    assert_eq!(s.apply(&var(7)), InferType::integer());
    assert_eq!(ctx.fresh_var(), var(23));
}

#[test]
fn nope_and_variant_patterns() {
    let mut ctx = perhaps_ctx(30);
    infer_pattern(&Pattern::Nope(sp(0)), &var(1), &mut ctx).unwrap();
    let some = Pattern::EnumVariant { path: path(&["Perhaps", "Some"]), fields: vec!["value".into()], span: sp(0) };
    infer_pattern(&some, &var(1), &mut ctx).unwrap();
    assert_eq!(ctx.lookup("value"), Some(var(31)));
    ctx.add_constraint(var(1), InferType::Named("Perhaps".into(), vec![InferType::integer()]), sp(0));
    let s = ctx.solve().unwrap();
    assert_eq!(s.apply(&var(30)), InferType::integer());
    assert_eq!(s.apply(&var(31)), InferType::integer());
}

#[test]
fn pattern_errors() {
    let mut ctx = perhaps_ctx(0);
    let bad = Pattern::EnumVariant { path: path(&["a", "b", "c"]), fields: vec![], span: sp(8) };
    let (code, msg, start) = type_error_parts(infer_pattern(&bad, &var(1), &mut ctx).unwrap_err());
    assert_eq!(code, TypeErrorCode::T0003);
    assert_eq!(msg, "unresolved pattern path `a::b::c`");
    assert_eq!(start, 8);
    let unknown = Pattern::Tuple(
        vec![Pattern::Wildcard(sp(0)), Pattern::EnumVariant { path: path(&["Maybe", "Just"]), fields: vec![], span: sp(4) }],
        sp(0),
    );
    let (_, msg, start) = type_error_parts(infer_pattern(&unknown, &var(1), &mut ctx).unwrap_err());
    assert_eq!(msg, "unknown enum `Maybe` in pattern");
    assert_eq!(start, 4);
    // What was inferred before the failing element stays recorded.
    let partial = Pattern::Tuple(
        vec![Pattern::Binding("early".into(), sp(0)), Pattern::EnumVariant { path: path(&["x"]), fields: vec![], span: sp(5) }],
        sp(0),
    );
    let mut ctx = perhaps_ctx(40);
    assert!(infer_pattern(&partial, &var(1), &mut ctx).is_err());
    assert_eq!(ctx.lookup("early"), Some(var(40)));
}

#[test]
fn irrefutable_patterns_are_always_accepted() {
    let mut ctx = ctx_at(0);
    let p = Pattern::Tuple(
        vec![Pattern::Wildcard(sp(0)), Pattern::Tuple(vec![Pattern::Binding("y".into(), sp(0))], sp(0))],
        sp(0),
    );
    assert!(is_catch_all_pattern(&p));
    assert!(infer_pattern(&p, &InferType::integer(), &mut ctx).is_ok());
    assert!(infer_pattern(&Pattern::Binding("z".into(), sp(0)), &InferType::unit(), &mut ctx).is_ok());
}

// ── Field assignment ─────────────────────────────────────────────────────────

fn struct_ctx(counter: u32) -> InferContext {
    let mut r = TypeRegistry::new();
    r.register_struct_fields("Point".to_string(), vec![("x".into(), InferType::integer()), ("y".into(), InferType::float())]);
    r.register_struct_fields("Box".to_string(), vec![("item".into(), var(0)), ("size".into(), InferType::integer())]);
    r.register_struct_type_params("Box".to_string(), vec![TypeVar(0)]);
    InferContext::new(r, TypeVarGenerator::with_counter(counter))
}

#[test]
fn field_assignment_types() {
    let mut ctx = struct_ctx(10);
    ctx.add_constraint(var(10), InferType::Named("Point".into(), vec![]), sp(0));
    ctx.add_constraint(var(11), InferType::Named("Box".into(), vec![InferType::str()]), sp(0));
    assert_eq!(infer_field_assign_type(&var(10), "y", &sp(0), &ctx).unwrap(), InferType::float());
    // A generic struct's field gets the object's type argument.
    assert_eq!(infer_field_assign_type(&var(11), "item", &sp(0), &ctx).unwrap(), InferType::str());
    assert_eq!(infer_field_assign_type(&var(11), "size", &sp(0), &ctx).unwrap(), InferType::integer());
}

#[test]
fn field_assignment_errors() {
    let mut ctx = struct_ctx(10);
    let (code, msg, start) = type_error_parts(infer_field_assign_type(&var(12), "x", &sp(7), &ctx).unwrap_err());
    assert_eq!(code, TypeErrorCode::T0002);
    assert_eq!(msg, "cannot infer struct type for field assignment; add a type annotation");
    assert_eq!(start, 7);
    let (code, msg, _) = type_error_parts(infer_field_assign_type(&InferType::bool(), "x", &sp(7), &ctx).unwrap_err());
    assert_eq!(code, TypeErrorCode::T0003);
    assert_eq!(msg, "unknown type `Bool`");
    let point = InferType::Named("Point".into(), vec![]);
    let (_, msg, _) = type_error_parts(infer_field_assign_type(&point, "z", &sp(7), &ctx).unwrap_err());
    assert_eq!(msg, "no field `z` on `Point`");
    // Constraints that cannot be solved fail first.
    ctx.add_constraint(InferType::integer(), InferType::bool(), sp(3));
    let (code, _, start) = type_error_parts(infer_field_assign_type(&point, "x", &sp(7), &ctx).unwrap_err());
    assert_eq!(code, TypeErrorCode::T0001);
    assert_eq!(start, 3);
}

#[test]
fn field_access_types_and_errors() {
    let mut ctx = struct_ctx(10);
    ctx.add_constraint(var(10), InferType::Named("Point".into(), vec![]), sp(0));
    assert_eq!(infer_field_access_type(&var(10), "x", &sp(0), &ctx).unwrap(), InferType::integer());
    let (code, msg, _) = type_error_parts(infer_field_access_type(&var(12), "x", &sp(7), &ctx).unwrap_err());
    assert_eq!(code, TypeErrorCode::T0002);
    assert_eq!(msg, "cannot infer struct type for field access; add a type annotation");
}

// ── Pure built-in functions ──────────────────────────────────────────────────

fn rt_str(s: &str) -> RtValue {
    RtValue::Str(s.to_string())
}

fn internal_message(e: GustError) -> String {
    match e {
        GustError::Internal { message, .. } => message,
        other => panic!("expected an internal error, got {other:?}"),
    }
}

fn panic_message(e: GustError) -> String {
    match e {
        GustError::RuntimePanic { code, message, .. } => {
            assert_eq!(code, RuntimeErrorCode::R0013);
            message
        }
        other => panic!("expected a run-time panic, got {other:?}"),
    }
}

#[test]
fn builtin_string_functions() {
    assert!(matches!(builtin_string_len(&vec![rt_str("héllo")]), Ok(RtValue::Int(5))));
    assert!(matches!(builtin_string_len(&vec![rt_str("")]), Ok(RtValue::Int(0))));
    assert_eq!(internal_message(builtin_string_len(&vec![RtValue::Int(3)]).unwrap_err()), "string_len: expected String argument");
    match builtin_string_concat(&vec![rt_str("foo"), rt_str("bar")]) {
        Ok(RtValue::Str(s)) => assert_eq!(s, "foobar"),
        other => panic!("unexpected {other:?}"),
    }
    assert_eq!(
        internal_message(builtin_string_concat(&vec![rt_str("foo")]).unwrap_err()),
        "string_concat: expected two String arguments"
    );
}

#[test]
fn builtin_array_functions() {
    let arr = RtValue::Array(vec![RtValue::Int(1), RtValue::Int(2)]);
    assert!(matches!(builtin_array_len(&vec![arr]), Ok(RtValue::Int(2))));
    assert_eq!(internal_message(builtin_array_len(&vec![]).unwrap_err()), "array_len: expected Array argument");
    let (u, a) = builtin_array_push(vec![RtValue::Array(vec![RtValue::Int(1)]), RtValue::Int(7), RtValue::Bool(true)]).unwrap();
    assert!(matches!(u, RtValue::Unit));
    assert_eq!(a.len(), 2);
    assert!(matches!(a[1], RtValue::Int(7)));
    assert_eq!(
        internal_message(builtin_array_push(vec![RtValue::Array(vec![])]).unwrap_err()),
        "array_push: missing value argument"
    );
    assert_eq!(
        internal_message(builtin_array_push(vec![RtValue::Int(1), RtValue::Int(2)]).unwrap_err()),
        "array_push: expected Array as first argument"
    );
}

#[test]
fn builtin_assertions() {
    let span = Span::new(4, 9, "t.mln".to_string());
    assert!(matches!(builtin_assert(&vec![RtValue::Bool(true)], &span), Ok(RtValue::Unit)));
    assert_eq!(panic_message(builtin_assert(&vec![RtValue::Bool(false)], &span).unwrap_err()), "assertion failed");
    assert_eq!(internal_message(builtin_assert(&vec![RtValue::Unit], &span).unwrap_err()), "assert: expected Bool argument");
    assert!(matches!(builtin_assert_msg(&vec![RtValue::Bool(true)], &span), Ok(RtValue::Unit)));
    assert_eq!(panic_message(builtin_assert_msg(&vec![RtValue::Bool(false), rt_str("boom")], &span).unwrap_err()), "boom");
    assert_eq!(panic_message(builtin_assert_msg(&vec![RtValue::Bool(false)], &span).unwrap_err()), "assertion failed");
    assert_eq!(
        internal_message(builtin_assert_msg(&vec![RtValue::Other], &span).unwrap_err()),
        "assert_msg: expected (Bool, String) arguments"
    );
}

#[test]
fn environment_scopes_define_get_set() {
    let mut env: Environment<i64> = Environment::new();
    env.define("x", 1);
    env.push_scope();
    assert_eq!(env.get("x"), Some(&1));
    env.define("x", 2);
    assert_eq!(env.get("x"), Some(&2));
    assert!(env.set("x", 3));
    env.pop_scope();
    assert_eq!(env.get("x"), Some(&1));
    assert!(env.set("x", 4));
    assert_eq!(env.get("x"), Some(&4));
    assert!(!env.set("y", 5));
    assert_eq!(env.get("y"), None);
}

#[test]
fn array_and_tuple_indexing() {
    let span = Span::new(0, 1, "t.mln".to_string());
    let arr = RtValue::Array(vec![RtValue::Int(10), RtValue::Int(20)]);
    assert!(matches!(eval_index(&arr, &RtValue::Int(1), &span), Ok(RtValue::Int(20))));
    let (code, msg, _) = panic_parts(eval_index(&arr, &RtValue::Int(2), &span).unwrap_err());
    assert_eq!(code, RuntimeErrorCode::R0004);
    assert_eq!(msg, "index 2 out of bounds (len 2)");
    let (_, msg, _) = panic_parts(eval_index(&arr, &RtValue::Int(-1), &span).unwrap_err());
    assert_eq!(msg, "index -1 out of bounds (len 2)");
    assert_eq!(internal_message(eval_index(&RtValue::Unit, &RtValue::Int(0), &span).unwrap_err()), "index: expected Array[Int]");
    let tup = RtValue::Tuple(vec![RtValue::Bool(true), rt_str("x")]);
    assert!(matches!(eval_tuple_access(&tup, 0, &span), Ok(RtValue::Bool(true))));
    let (code, msg, _) = panic_parts(eval_tuple_access(&tup, 5, &span).unwrap_err());
    assert_eq!(code, RuntimeErrorCode::R0005);
    assert_eq!(msg, "tuple index 5 out of bounds");
}

#[test]
fn for_in_runs_over_arrays_and_ranges() {
    let span = Span::new(0, 1, "t.mln".to_string());
    let ints = |v: Vec<RtValue>| -> Vec<i64> {
        v.into_iter().map(|x| match x { RtValue::Int(n) => n, other => panic!("not an int: {other:?}") }).collect()
    };
    assert_eq!(ints(for_in_items(RtValue::Range { inclusive: false, start: 1, end: 4 }, &span).unwrap()), vec![1, 2, 3]);
    assert_eq!(ints(for_in_items(RtValue::Range { inclusive: true, start: 1, end: 4 }, &span).unwrap()), vec![1, 2, 3, 4]);
    assert!(for_in_items(RtValue::Range { inclusive: false, start: 3, end: 3 }, &span).unwrap().is_empty());
    assert_eq!(ints(for_in_items(RtValue::Array(vec![RtValue::Int(7)]), &span).unwrap()), vec![7]);
    let (code, msg, _) = panic_parts(for_in_items(RtValue::Int(3), &span).unwrap_err());
    assert_eq!(code, RuntimeErrorCode::R0011);
    assert_eq!(msg, "for-in: expected Array or Range");
}

#[test]
fn loops_and_conditions_follow_their_signals() {
    assert!(matches!(loop_body_step(LoopKind::While, Signal::Continue), LoopStep::Again));
    assert!(matches!(loop_body_step(LoopKind::ForIn, Signal::Value(RtValue::Int(1))), LoopStep::Again));
    assert!(matches!(
        loop_body_step(LoopKind::LoopExpr, Signal::Break(RtValue::Int(5))),
        LoopStep::Finish(Signal::Value(RtValue::Int(5)))
    ));
    assert!(matches!(
        loop_body_step(LoopKind::While, Signal::Break(RtValue::Int(5))),
        LoopStep::Finish(Signal::Value(RtValue::Unit))
    ));
    assert!(matches!(
        loop_body_step(LoopKind::For, Signal::Return(RtValue::Bool(true))),
        LoopStep::Finish(Signal::Return(RtValue::Bool(true)))
    ));
    assert!(matches!(condition_step("if", Signal::Value(RtValue::Bool(true))), Ok(Branch::Taken)));
    assert!(matches!(condition_step("while", Signal::Value(RtValue::Bool(false))), Ok(Branch::NotTaken)));
    assert!(matches!(condition_step("if", Signal::Return(RtValue::Unit)), Ok(Branch::Exit(Signal::Return(RtValue::Unit)))));
    assert_eq!(
        internal_message(condition_step("while", Signal::Value(RtValue::Int(1))).unwrap_err()),
        "while: expected Bool condition"
    );
}

#[test]
fn run_time_patterns_bind_parts_of_values() {
    let s = |n: usize| Span::new(n, n + 1, "t.mln".to_string());
    let names = |out: Option<Vec<(String, &RtValue)>>| -> Vec<String> { out.unwrap().into_iter().map(|(n, _)| n).collect() };
    let tup = RtValue::Tuple(vec![RtValue::Int(1), rt_str("x")]);
    let p = Pattern::Tuple(vec![Pattern::Literal(Literal::Int(1), s(0)), Pattern::Binding("name".to_string(), s(1))], s(2));
    let out = match_pattern(&p, &tup).unwrap();
    assert_eq!(out.len(), 1);
    assert_eq!(out[0].0, "name");
    assert!(matches!(out[0].1, RtValue::Str(x) if x == "x"));
    let p2 = Pattern::Tuple(vec![Pattern::Literal(Literal::Int(2), s(0)), Pattern::Wildcard(s(1))], s(2));
    assert!(match_pattern(&p2, &tup).is_none());
    let some = RtValue::Perhaps(Some(Box::new(RtValue::Int(9))));
    let p3 = Pattern::EnumVariant { path: vec!["Perhaps".to_string(), "Some".to_string()], fields: vec!["v".to_string()], span: s(0) };
    assert_eq!(names(match_pattern(&p3, &some)), vec!["v".to_string()]);
    assert!(match_pattern(&Pattern::Nope(s(0)), &RtValue::Perhaps(None)).is_some());
    assert!(match_pattern(&Pattern::Nope(s(0)), &some).is_none());
    let shape = RtValue::Enum {
        name: "Shape".to_string(),
        variant: "Rect".to_string(),
        fields: vec![("w".to_string(), RtValue::Int(2)), ("h".to_string(), RtValue::Int(3))],
    };
    let p4 = Pattern::EnumVariant {
        path: vec!["Shape".to_string(), "Rect".to_string()],
        fields: vec!["h".to_string(), "w".to_string()],
        span: s(0),
    };
    assert_eq!(names(match_pattern(&p4, &shape)), vec!["h".to_string(), "w".to_string()]);
    let p5 = Pattern::EnumVariant { path: vec!["Shape".to_string(), "Rect".to_string()], fields: vec!["d".to_string()], span: s(0) };
    assert!(match_pattern(&p5, &shape).is_none());
    let ok = RtValue::ResultOk(Box::new(RtValue::Unit));
    let p6 = Pattern::EnumVariant { path: vec!["Result".to_string(), "Err".to_string()], fields: vec!["e".to_string()], span: s(0) };
    assert!(match_pattern(&p6, &ok).is_none());
}

#[test]
fn question_mark_unwraps_or_leaves() {
    let span = Span::new(0, 1, "t.mln".to_string());
    assert!(matches!(propagate_step(RtValue::ResultOk(Box::new(RtValue::Int(3))), &span), Ok(Signal::Value(RtValue::Int(3)))));
    assert!(matches!(
        propagate_step(RtValue::ResultErr(Box::new(rt_str("bad"))), &span),
        Ok(Signal::PropagateErr(RtValue::Str(_)))
    ));
    let (code, msg, _) = panic_parts(propagate_step(RtValue::Int(1), &span).unwrap_err());
    assert_eq!(code, RuntimeErrorCode::R0012);
    assert_eq!(msg, "?: expected a Result value");
}
