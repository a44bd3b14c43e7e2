use lib::ast::{
    AspectDecl, DeclHeader, DeclKind, EnumDecl, FieldDef, FunSignature, GenericParam, ImplBlock, ImportDecl,
    ImportPath, ImportTree, ModuleInterface, Param, PathRoot, Span, StructDecl, TypeDecl, TypeExpr, VariantDef,
    Visibility,
};
use lib::error::{GustError, TypeErrorCode};
use lib::module_loader::{LoadedModule, ModuleGraph};
use lib::name_resolver::resolve;
use lib::strmap::StrMap;
use lib::typechecker::exports::{GlobalExports, ModuleExports};
use lib::typechecker::graph::GraphCheck;
use lib::typechecker::modules::{
    build_import_schemes, check_pub_annotations, decl_exists, filter_pub_schemes, find_import_span,
};
use lib::typechecker::registry::{build_registry, StdPrelude};
use lib::typeinference::{InferType, TypeScheme, TypeVar, TypeVarGenerator};
use lib::types::Type;

fn sp(file: &str, start: usize) -> Span {
    Span::new(start, start + 1, file.to_string())
}

fn path(names: &[&str]) -> Vec<String> {
    names.iter().map(|s| s.to_string()).collect()
}

fn te(n: &str) -> TypeExpr {
    TypeExpr::Named(n.to_string(), vec![])
}

fn param(name: &str, ann: Option<TypeExpr>, at: usize) -> Param {
    Param { mutable: false, name: name.to_string(), type_ann: ann, span: sp("m.mln", at) }
}

fn fun_decl(vis: Visibility, name: &str, params: Vec<Param>, ret: Option<TypeExpr>, at: usize) -> DeclHeader {
    DeclHeader { kind: DeclKind::Fun, visibility: vis, name: name.to_string(), span: sp("m.mln", at), generics: vec![], params, return_type: ret }
}

fn other_decl(kind: DeclKind, vis: Visibility, name: &str) -> DeclHeader {
    DeclHeader { kind, visibility: vis, name: name.to_string(), span: sp("m.mln", 0), generics: vec![], params: vec![], return_type: None }
}

fn import(root: PathRoot, tree: ImportTree, at: usize) -> ImportDecl {
    ImportDecl { path: ImportPath { root, tree }, span: sp("main.mln", at) }
}

fn name(n: &str) -> ImportTree {
    ImportTree::Name { name: n.to_string(), alias: None }
}

fn module(p: Vec<String>, file: &str, imports: Vec<ImportDecl>, decls: Vec<DeclHeader>) -> LoadedModule {
    LoadedModule { mod_path: p, file_path: file.to_string(), program: ModuleInterface { imports, exports: vec![], decls } }
}

fn type_error_parts(e: GustError) -> (TypeErrorCode, String, usize) {
    match e {
        GustError::TypeError { code, message, start, .. } => (code, message, start),
        other => panic!("expected a type error, got {other:?}"),
    }
}

// ── build_registry ───────────────────────────────────────────────────────────

#[test]
fn registry_holds_builtin_enums_and_declarations() {
    let field = |n: &str, t: TypeExpr| FieldDef { name: n.to_string(), type_ann: t, span: sp("m.mln", 0) };
    let decls = vec![
        TypeDecl::Struct(StructDecl { name: "P".into(), generics: vec![], fields: vec![field("x", te("Int"))], span: sp("m.mln", 0) }),
        TypeDecl::Struct(StructDecl {
            name: "Box".into(),
            generics: vec![GenericParam { name: "T".into(), bound: None }],
            fields: vec![field("v", te("T"))],
            span: sp("m.mln", 0),
        }),
        TypeDecl::Enum(EnumDecl {
            name: "E".into(),
            generics: vec![GenericParam { name: "A".into(), bound: None }],
            variants: vec![VariantDef { name: "V".into(), fields: vec![field("a", te("A"))], span: sp("m.mln", 0) }],
            span: sp("m.mln", 0),
        }),
        TypeDecl::Aspect(AspectDecl {
            name: "Show".into(),
            generics: vec![],
            methods: vec![FunSignature { name: "show".into(), params: vec![], return_type: Some(te("String")) }],
            span: sp("m.mln", 0),
        }),
        TypeDecl::Impl(ImplBlock {
            aspect_name: Some("From".into()),
            aspect_type_args: vec![te("Int"), TypeExpr::Named("P".into(), vec![te("Int")]), TypeExpr::Tuple(vec![])],
            target_type: te("P"),
            methods: vec![FunSignature { name: "from".into(), params: vec![param("v", None, 0)], return_type: Some(te("P")) }],
            span: sp("m.mln", 0),
        }),
        TypeDecl::Impl(ImplBlock {
            aspect_name: None,
            aspect_type_args: vec![],
            target_type: TypeExpr::Unit,
            methods: vec![FunSignature { name: "ignored".into(), params: vec![], return_type: None }],
            span: sp("m.mln", 0),
        }),
    ];
    let mut g = TypeVarGenerator::with_counter(0);
    let r = build_registry(&decls, &mut g);
    // Perhaps: 0; Result: 1, 2; Box: 3; E: 4; the impl's unannotated parameter: 5.
    assert_eq!(g.counter(), 6);
    let perhaps = r.enum_info("Perhaps").unwrap();
    assert_eq!(perhaps.type_params, vec![TypeVar(0)]);
    assert_eq!(perhaps.variants[0].name, "Some");
    assert_eq!(perhaps.variants[1].name, "None");
    let result = r.enum_info("Result").unwrap();
    assert_eq!(result.type_params, vec![TypeVar(1), TypeVar(2)]);
    assert_eq!(r.struct_fields("P").unwrap(), &vec![("x".to_string(), InferType::integer())]);
    assert_eq!(r.struct_fields("Box").unwrap(), &vec![("v".to_string(), InferType::Var(TypeVar(3)))]);
    assert_eq!(r.struct_type_params_for("Box").unwrap(), &vec![TypeVar(3)]);
    assert!(r.struct_type_params_for("P").is_none());
    let e = r.enum_info("E").unwrap();
    assert_eq!(e.type_params, vec![TypeVar(4)]);
    assert_eq!(e.variants[0].fields, vec![("a".to_string(), InferType::Var(TypeVar(4)))]);
    assert_eq!(
        r.method_type("P", "from"),
        Some(&InferType::Fun(vec![InferType::Var(TypeVar(5))], Box::new(InferType::Named("P".into(), vec![]))))
    );
    assert!(r.method_type("()", "ignored").is_none());
}

#[test]
fn registry_counts_generator_from_its_start() {
    let mut g = TypeVarGenerator::with_counter(7);
    let r = build_registry(&vec![], &mut g);
    assert_eq!(g.counter(), 10);
    assert_eq!(r.enum_info("Result").unwrap().type_params, vec![TypeVar(8), TypeVar(9)]);
}

// ── Public annotations ───────────────────────────────────────────────────────

fn checked_module(decls: Vec<DeclHeader>) -> (LoadedModule, ModuleGraph) {
    let m = module(path(&["lib"]), "lib.mln", vec![], decls);
    let graph = ModuleGraph {
        root: "main.mln".into(),
        modules: vec![module(path(&["lib"]), "lib.mln", vec![], m.program.decls.iter().map(|d| DeclHeader {
            kind: d.kind,
            visibility: d.visibility,
            name: d.name.clone(),
            span: d.span.clone(),
            generics: vec![],
            params: d.params.iter().map(|p| Param { mutable: p.mutable, name: p.name.clone(), type_ann: p.type_ann.as_ref().map(|_| te("Int")), span: p.span.clone() }).collect(),
            return_type: d.return_type.as_ref().map(|_| te("Int")),
        }).collect())],
    };
    (m, graph)
}

#[test]
fn public_functions_need_annotations() {
    let (m, graph) = checked_module(vec![
        fun_decl(Visibility::Private, "helper", vec![param("a", None, 1)], None, 10),
        fun_decl(Visibility::Public, "ok", vec![param("a", Some(te("Int")), 2)], Some(te("Int")), 20),
        fun_decl(Visibility::Public, "noret", vec![], None, 30),
        fun_decl(Visibility::Public, "noparam", vec![param("a", Some(te("Int")), 4), param("b", None, 5)], Some(te("Int")), 40),
    ]);
    let names = resolve(&graph).unwrap();
    let (code, msg, at) = type_error_parts(check_pub_annotations(&m, &names).unwrap_err());
    assert_eq!(code, TypeErrorCode::T0010);
    assert_eq!(
        msg,
        "public declaration `noret` requires an explicit return type annotation; add `-> <Type>` after the parameter list"
    );
    assert_eq!(at, 30);
}

#[test]
fn unannotated_parameter_is_reported_at_the_parameter() {
    let (m, graph) = checked_module(vec![fun_decl(
        Visibility::Public,
        "f",
        vec![param("a", Some(te("Int")), 4), param("b", None, 5)],
        Some(te("Int")),
        40,
    )]);
    let names = resolve(&graph).unwrap();
    let (code, msg, at) = type_error_parts(check_pub_annotations(&m, &names).unwrap_err());
    assert_eq!(code, TypeErrorCode::T0010);
    assert_eq!(
        msg,
        "public declaration `f` requires explicit type annotations on all parameters; add `: <Type>` to parameter `b`"
    );
    assert_eq!(at, 5);
}

#[test]
fn annotations_pass_for_annotated_or_private_functions() {
    let (m, graph) = checked_module(vec![
        fun_decl(Visibility::Private, "helper", vec![param("a", None, 1)], None, 10),
        fun_decl(Visibility::Public, "ok", vec![param("a", Some(te("Int")), 2)], Some(te("Int")), 20),
    ]);
    let names = resolve(&graph).unwrap();
    assert!(check_pub_annotations(&m, &names).is_ok());
    // A module the resolver never saw is not checked.
    let stray = module(path(&["elsewhere"]), "e.mln", vec![], vec![fun_decl(Visibility::Public, "x", vec![], None, 0)]);
    assert!(check_pub_annotations(&stray, &names).is_ok());
}

// ── Import spans, declarations, schemes ──────────────────────────────────────

#[test]
fn import_span_is_the_naming_import() {
    let m = module(
        vec![],
        "main.mln",
        vec![
            import(PathRoot::Name("a".into()), name("X"), 10),
            import(PathRoot::Name("b".into()), ImportTree::Group(vec![name("Y"), ImportTree::Name { name: "Z".into(), alias: Some("W".into()) }]), 20),
            import(PathRoot::Std, name("Y"), 30),
        ],
        vec![],
    );
    assert_eq!(find_import_span(&m, &path(&["b"]), "Y").start, 20);
    assert_eq!(find_import_span(&m, &path(&["b"]), "W").start, 20);
    assert_eq!(find_import_span(&m, &path(&["a"]), "X").start, 10);
    let fallback = find_import_span(&m, &path(&["c"]), "Q");
    assert_eq!((fallback.start, fallback.end, fallback.filename.as_str()), (0, 0, "main.mln"));
}

#[test]
fn declarations_exist_whatever_their_visibility() {
    let decls = vec![
        other_decl(DeclKind::Struct, Visibility::Private, "Hidden"),
        other_decl(DeclKind::Impl, Visibility::Public, "NotAName"),
        other_decl(DeclKind::Let, Visibility::Private, "x"),
    ];
    assert!(decl_exists(&decls, "Hidden"));
    assert!(decl_exists(&decls, "x"));
    assert!(!decl_exists(&decls, "NotAName"));
    assert!(!decl_exists(&decls, "missing"));
}

#[test]
fn exported_schemes_keep_public_names_only() {
    let graph = ModuleGraph {
        root: "lib.mln".into(),
        modules: vec![module(vec![], "lib.mln", vec![], vec![fun_decl(Visibility::Public, "f", vec![], Some(te("Int")), 0)])],
    };
    let names = resolve(&graph).unwrap();
    let mut env: StrMap<TypeScheme> = StrMap::new();
    env.insert("f".to_string(), TypeScheme::mono(InferType::integer()));
    env.insert("g".to_string(), TypeScheme::mono(InferType::bool()));
    let out = filter_pub_schemes(&env, &graph.modules[0], &names);
    assert_eq!(out.len(), 1);
    assert_eq!(out.get("f").unwrap().ty, InferType::integer());
    assert!(out.get("g").is_none());
}

fn exporting(p: Vec<String>, entries: &[(&str, InferType)]) -> (Vec<String>, ModuleExports) {
    let mut m: StrMap<TypeScheme> = StrMap::new();
    for (n, t) in entries {
        m.insert(n.to_string(), TypeScheme::mono(t.clone()));
    }
    (p, ModuleExports { pub_schemes: m })
}

#[test]
fn imported_schemes_explicit_over_glob() {
    let main = module(
        vec![],
        "main.mln",
        vec![
            import(PathRoot::Name("util".into()), ImportTree::Glob, 1),
            import(PathRoot::Name("other".into()), ImportTree::Name { name: "f".into(), alias: Some("g".into()) }, 2),
        ],
        vec![],
    );
    let graph = ModuleGraph {
        root: "main.mln".into(),
        modules: vec![
            main,
            module(path(&["util"]), "util.mln", vec![], vec![fun_decl(Visibility::Public, "g", vec![], Some(te("Int")), 0)]),
            module(path(&["other"]), "other.mln", vec![], vec![fun_decl(Visibility::Public, "f", vec![], Some(te("Bool")), 0)]),
        ],
    };
    let names = resolve(&graph).unwrap();
    let mut exports = GlobalExports::new();
    let (p, e) = exporting(path(&["util"]), &[("g", InferType::integer()), ("h", InferType::str())]);
    exports.insert(p, e);
    let (p, e) = exporting(path(&["other"]), &[("f", InferType::bool())]);
    exports.insert(p, e);
    let env = build_import_schemes(&graph.modules[0], &names, &exports, &graph).unwrap();
    assert_eq!(env.get("g").unwrap().ty, InferType::bool());
    assert_eq!(env.get("h").unwrap().ty, InferType::str());
    assert_eq!(env.len(), 2);
}

#[test]
fn importing_private_or_missing_names_fails() {
    let main = module(
        vec![],
        "main.mln",
        vec![
            import(PathRoot::Name("util".into()), name("secret"), 7),
            import(PathRoot::Name("util".into()), name("nothing"), 8),
        ],
        vec![],
    );
    let util = module(path(&["util"]), "util.mln", vec![], vec![fun_decl(Visibility::Private, "secret", vec![], None, 0)]);
    let graph = ModuleGraph { root: "main.mln".into(), modules: vec![main, util] };
    let names = resolve(&graph).unwrap();
    let mut exports = GlobalExports::new();
    let (p, e) = exporting(path(&["util"]), &[]);
    exports.insert(p, e);
    let (code, msg, at) = type_error_parts(build_import_schemes(&graph.modules[0], &names, &exports, &graph).unwrap_err());
    assert_eq!(code, TypeErrorCode::T0009);
    assert_eq!(msg, "visibility error: `secret` is not public in module `util`");
    assert_eq!(at, 7);

    let main2 = module(vec![], "main.mln", vec![import(PathRoot::Name("util".into()), name("nothing"), 8)], vec![]);
    let util2 = module(path(&["util"]), "util.mln", vec![], vec![]);
    let graph2 = ModuleGraph { root: "main.mln".into(), modules: vec![main2, util2] };
    let names2 = resolve(&graph2).unwrap();
    let (code, msg, at) = type_error_parts(build_import_schemes(&graph2.modules[0], &names2, &exports, &graph2).unwrap_err());
    assert_eq!(code, TypeErrorCode::T0003);
    assert_eq!(msg, "cannot import `nothing` from module `util`: name does not exist");
    assert_eq!(at, 8);
}

#[test]
fn imports_from_outside_the_graph_are_skipped() {
    let main = module(vec![], "main.mln", vec![import(PathRoot::Std, name("sin"), 3)], vec![]);
    let graph = ModuleGraph { root: "main.mln".into(), modules: vec![main] };
    let names = resolve(&graph).unwrap();
    let exports = GlobalExports::new();
    let env = build_import_schemes(&graph.modules[0], &names, &exports, &graph).unwrap();
    assert_eq!(env.len(), 0);
    let _ = Type::Int;
}

fn two_module_graph(imports: Vec<ImportDecl>) -> (ModuleGraph, GlobalExports) {
    let main = module(vec![], "main.mln", imports, vec![]);
    let a = module(path(&["a"]), "a.mln", vec![], vec![fun_decl(Visibility::Public, "foo", vec![], Some(te("Int")), 0)]);
    let b = module(path(&["b"]), "b.mln", vec![], vec![fun_decl(Visibility::Public, "foo", vec![], Some(te("Int")), 0)]);
    let graph = ModuleGraph { root: "main.mln".into(), modules: vec![main, a, b] };
    let mut exports = GlobalExports::new();
    let (p, e) = exporting(path(&["a"]), &[("foo", InferType::integer())]);
    exports.insert(p, e);
    let (p, e) = exporting(path(&["b"]), &[("foo", InferType::bool())]);
    exports.insert(p, e);
    (graph, exports)
}

#[test]
fn two_glob_imports_same_name_is_t0011() {
    let (graph, exports) = two_module_graph(vec![
        import(PathRoot::Name("a".into()), ImportTree::Glob, 1),
        import(PathRoot::Name("b".into()), ImportTree::Glob, 2),
    ]);
    let names = resolve(&graph).unwrap();
    let (code, msg, _) = type_error_parts(build_import_schemes(&graph.modules[0], &names, &exports, &graph).unwrap_err());
    assert_eq!(code, TypeErrorCode::T0011);
    assert_eq!(
        msg,
        "import conflict: `foo` is imported from both `a` and `b`; use an explicit import to disambiguate: \
         `import a::foo` or `import b::foo`"
    );
}

#[test]
fn explicit_import_wins_over_glob_same_name() {
    let (graph, exports) = two_module_graph(vec![
        import(PathRoot::Name("a".into()), name("foo"), 1),
        import(PathRoot::Name("b".into()), ImportTree::Glob, 2),
    ]);
    let names = resolve(&graph).unwrap();
    let env = build_import_schemes(&graph.modules[0], &names, &exports, &graph).unwrap();
    assert_eq!(env.get("foo").unwrap().ty, InferType::integer());
}

#[test]
fn user_glob_wins_over_std_glob_same_name_no_t0011() {
    let (graph, exports) = two_module_graph(vec![import(PathRoot::Name("a".into()), ImportTree::Glob, 1)]);
    let names = resolve(&graph).unwrap();
    let env = build_import_schemes(&graph.modules[0], &names, &exports, &graph).unwrap();
    assert_eq!(env.get("foo").unwrap().ty, InferType::integer());
}

#[test]
fn explicit_import_settles_two_globs() {
    let (graph, exports) = two_module_graph(vec![
        import(PathRoot::Name("a".into()), ImportTree::Glob, 1),
        import(PathRoot::Name("a".into()), name("foo"), 2),
        import(PathRoot::Name("b".into()), ImportTree::Glob, 3),
    ]);
    let names = resolve(&graph).unwrap();
    let env = build_import_schemes(&graph.modules[0], &names, &exports, &graph).unwrap();
    assert_eq!(env.get("foo").unwrap().ty, InferType::integer());
}

#[test]
fn graph_check_carries_exports_from_module_to_module() {
    let main = module(vec![], "main.mln", vec![import(PathRoot::Name("a".into()), name("foo"), 1)], vec![]);
    let a = module(path(&["a"]), "a.mln", vec![], vec![fun_decl(Visibility::Public, "foo", vec![], Some(te("Int")), 0)]);
    let graph = ModuleGraph { root: "main.mln".into(), modules: vec![a, main] };
    let names = resolve(&graph).unwrap();
    let mut g = GraphCheck::start(StdPrelude::default());
    assert!(g.exports().get_scheme(&path(&["std", "core"]), "println").is_some());
    let imported_by_a = g.enter_module(&graph.modules[0], &names, &graph).unwrap();
    assert_eq!(imported_by_a.len(), 0);
    let mut env: StrMap<TypeScheme> = StrMap::new();
    env.insert("foo".to_string(), TypeScheme::mono(InferType::integer()));
    g.leave_module(&graph.modules[0], &names, &env);
    let imported_by_main = g.enter_module(&graph.modules[1], &names, &graph).unwrap();
    assert_eq!(imported_by_main.get("foo").unwrap().ty, InferType::integer());
}

#[test]
fn graph_check_refuses_missing_annotations_first() {
    let a = module(path(&["a"]), "a.mln", vec![], vec![fun_decl(Visibility::Public, "f", vec![param("x", None, 3)], Some(te("Int")), 0)]);
    let graph = ModuleGraph { root: "a.mln".into(), modules: vec![a] };
    let names = resolve(&graph).unwrap();
    let g = GraphCheck::start(StdPrelude::empty());
    let (code, _, _) = type_error_parts(g.enter_module(&graph.modules[0], &names, &graph).unwrap_err());
    assert_eq!(code, TypeErrorCode::T0010);
}
