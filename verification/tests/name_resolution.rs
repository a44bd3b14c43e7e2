use lib::ast::{
    DeclHeader, DeclKind, ExportDecl, ImportDecl, ImportPath, ImportTree, ModuleInterface, PathRoot, Span,
    Visibility,
};
use lib::module_loader::{LoadedModule, ModuleGraph};
use lib::name_resolver::{resolve, BindingKind, ScopeLookup};

fn span() -> Span {
    Span::new(0, 0, "test".to_string())
}

fn path(names: &[&str]) -> Vec<String> {
    names.iter().map(|s| s.to_string()).collect()
}

fn make_import(root: PathRoot, tree: ImportTree) -> ImportDecl {
    ImportDecl { path: ImportPath { root, tree }, span: span() }
}

fn make_export(root: PathRoot, tree: ImportTree) -> ExportDecl {
    ExportDecl { path: ImportPath { root, tree }, span: span() }
}

fn make_program(imports: Vec<ImportDecl>) -> ModuleInterface {
    ModuleInterface { imports, exports: vec![], decls: vec![] }
}

fn decl(kind: DeclKind, visibility: Visibility, name: &str) -> DeclHeader {
    DeclHeader { kind, visibility, name: name.to_string(), span: span(), generics: vec![], params: vec![], return_type: None }
}

fn pub_fun(name: &str) -> DeclHeader {
    decl(DeclKind::Fun, Visibility::Public, name)
}

fn make_program_with_pubs(imports: Vec<ImportDecl>, pub_names: &[&str]) -> ModuleInterface {
    ModuleInterface { imports, exports: vec![], decls: pub_names.iter().map(|n| pub_fun(n)).collect() }
}

fn make_graph(modules: Vec<(Vec<String>, ModuleInterface)>) -> ModuleGraph {
    let root = if modules.is_empty() { String::new() } else { "root.mln".to_string() };
    let modules = modules
        .into_iter()
        .map(|(p, program)| LoadedModule { mod_path: p, file_path: "test.mln".to_string(), program })
        .collect();
    ModuleGraph { root, modules }
}

fn name(n: &str) -> ImportTree {
    ImportTree::Name { name: n.to_string(), alias: None }
}

#[test]
fn resolves_explicit_item_import() {
    let graph = make_graph(vec![
        (vec![], make_program(vec![make_import(PathRoot::Name("parser".into()), name("Token"))])),
        (path(&["parser"]), make_program_with_pubs(vec![], &["Token"])),
    ]);

    let names = resolve(&graph).unwrap();
    let root_scope = names.scopes.get(&vec![]).unwrap();
    let binding = root_scope.explicit.get("Token").expect("Token should be bound");
    assert_eq!(binding.source_module, path(&["parser"]));
    assert_eq!(binding.source_name, "Token");
    assert_eq!(binding.kind, BindingKind::Item);
}

#[test]
fn resolves_alias_import() {
    let graph = make_graph(vec![
        (
            vec![],
            make_program(vec![make_import(
                PathRoot::Name("parser".into()),
                ImportTree::Name { name: "Token".into(), alias: Some("Tok".into()) },
            )]),
        ),
        (path(&["parser"]), make_program_with_pubs(vec![], &["Token"])),
    ]);

    let names = resolve(&graph).unwrap();
    let root_scope = names.scopes.get(&vec![]).unwrap();
    assert!(root_scope.explicit.contains_key("Tok"), "alias Tok should be bound");
    assert!(!root_scope.explicit.contains_key("Token"), "original name Token should not be bound");
    let binding = root_scope.explicit.get("Tok").unwrap();
    assert_eq!(binding.source_name, "Token");
}

#[test]
fn resolves_group_import() {
    let graph = make_graph(vec![
        (
            vec![],
            make_program(vec![make_import(
                PathRoot::Name("parser".into()),
                ImportTree::Group(vec![name("Ast"), name("Token")]),
            )]),
        ),
        (path(&["parser"]), make_program_with_pubs(vec![], &["Ast", "Token"])),
    ]);

    let names = resolve(&graph).unwrap();
    let root_scope = names.scopes.get(&vec![]).unwrap();
    assert!(root_scope.explicit.contains_key("Ast"));
    assert!(root_scope.explicit.contains_key("Token"));
}

#[test]
fn resolves_glob_import() {
    let graph = make_graph(vec![
        (vec![], make_program(vec![make_import(PathRoot::Name("parser".into()), ImportTree::Glob)])),
        (path(&["parser"]), make_program(vec![])),
    ]);

    let names = resolve(&graph).unwrap();
    let root_scope = names.scopes.get(&vec![]).unwrap();
    assert_eq!(root_scope.explicit.len(), 0, "glob should not add explicit bindings");
    assert_eq!(root_scope.globs, vec![path(&["parser"])]);
}

#[test]
fn resolves_module_handle_import() {
    let graph = make_graph(vec![
        (vec![], make_program(vec![make_import(PathRoot::Root, name("parser"))])),
        (path(&["parser"]), make_program(vec![])),
    ]);

    let names = resolve(&graph).unwrap();
    let root_scope = names.scopes.get(&vec![]).unwrap();
    let binding = root_scope.explicit.get("parser").expect("parser handle should be bound");
    assert_eq!(binding.kind, BindingKind::Module);
    assert_eq!(binding.source_module, path(&["parser"]));
}

#[test]
fn rejects_duplicate_explicit_import() {
    let graph = make_graph(vec![
        (
            vec![],
            make_program(vec![
                make_import(PathRoot::Name("parser".into()), name("Token")),
                make_import(PathRoot::Name("lexer".into()), name("Token")),
            ]),
        ),
        (path(&["parser"]), make_program_with_pubs(vec![], &["Token"])),
        (path(&["lexer"]), make_program_with_pubs(vec![], &["Token"])),
    ]);

    let err = resolve(&graph).expect_err("duplicate import should fail");
    assert!(err.to_display_string().contains("Token"), "error should mention Token");
}

#[test]
fn private_item_import_is_recorded_for_typechecker() {
    let graph = make_graph(vec![
        (vec![], make_program(vec![make_import(PathRoot::Name("parser".into()), name("Token"))])),
        (path(&["parser"]), make_program(vec![])),
    ]);

    let names = resolve(&graph).expect("name_resolver should not reject private imports");
    let root_scope = names.scopes.get(&vec![]).expect("root scope should exist");
    assert!(
        root_scope.explicit.contains_key("Token"),
        "Token binding should be recorded so the typechecker can produce T0009"
    );
}

#[test]
fn resolves_root_absolute_path() {
    let graph = make_graph(vec![
        (
            vec![],
            make_program(vec![make_import(
                PathRoot::Root,
                ImportTree::Path { name: "parser".into(), tree: Box::new(name("Ast")) },
            )]),
        ),
        (path(&["parser"]), make_program_with_pubs(vec![], &["Ast"])),
    ]);

    let names = resolve(&graph).unwrap();
    let root_scope = names.scopes.get(&vec![]).unwrap();
    let binding = root_scope.explicit.get("Ast").expect("Ast should be bound");
    assert_eq!(binding.source_module, path(&["parser"]));
}

#[test]
fn resolves_self_relative_path() {
    let graph = make_graph(vec![
        (
            path(&["parser"]),
            make_program(vec![make_import(
                PathRoot::Self_,
                ImportTree::Path { name: "child".into(), tree: Box::new(name("Thing")) },
            )]),
        ),
        (path(&["parser", "child"]), make_program_with_pubs(vec![], &["Thing"])),
    ]);

    let names = resolve(&graph).unwrap();
    let parser_scope = names.scopes.get(&path(&["parser"])).unwrap();
    let binding = parser_scope.explicit.get("Thing").expect("Thing should be bound");
    assert_eq!(binding.source_module, path(&["parser", "child"]));
}

#[test]
fn resolves_super_relative_path() {
    let graph = make_graph(vec![
        (path(&["parser", "child"]), make_program(vec![make_import(PathRoot::Super, name("Token"))])),
        (path(&["parser"]), make_program_with_pubs(vec![], &["Token"])),
    ]);

    let names = resolve(&graph).unwrap();
    let child_scope = names.scopes.get(&path(&["parser", "child"])).unwrap();
    let binding = child_scope.explicit.get("Token").expect("Token should be bound");
    assert_eq!(binding.source_module, path(&["parser"]));
}

#[test]
fn facade_re_exports_item_for_callers() {
    let ast_module_prog = make_program_with_pubs(vec![], &["Ast"]);
    let parser_prog = ModuleInterface {
        imports: vec![],
        exports: vec![make_export(PathRoot::Name("ast".into()), name("Ast"))],
        decls: vec![],
    };
    let root_prog = make_program(vec![make_import(PathRoot::Name("parser".into()), name("Ast"))]);
    let graph = make_graph(vec![
        (vec![], root_prog),
        (path(&["parser"]), parser_prog),
        (path(&["parser", "ast"]), ast_module_prog),
    ]);

    let names = resolve(&graph).unwrap();
    let parser_scope = names.scopes.get(&path(&["parser"])).unwrap();
    assert!(parser_scope.re_exports.contains_key("Ast"), "parser should re-export Ast");
    let root_scope = names.scopes.get(&vec![]).unwrap();
    let binding = root_scope.explicit.get("Ast").expect("Ast should be importable from facade");
    assert_eq!(binding.source_module, path(&["parser"]));
}

#[test]
fn re_export_alias_is_visible_not_original() {
    let ast_module_prog = make_program_with_pubs(vec![], &["Ast"]);
    let parser_prog = ModuleInterface {
        imports: vec![],
        exports: vec![make_export(
            PathRoot::Name("ast".into()),
            ImportTree::Name { name: "Ast".into(), alias: Some("Tree".into()) },
        )],
        decls: vec![],
    };
    let graph = make_graph(vec![(path(&["parser"]), parser_prog), (path(&["parser", "ast"]), ast_module_prog)]);

    let names = resolve(&graph).unwrap();
    let parser_scope = names.scopes.get(&path(&["parser"])).unwrap();
    assert!(parser_scope.re_exports.contains_key("Tree"), "aliased re-export Tree should appear");
    assert!(!parser_scope.re_exports.contains_key("Ast"), "original name Ast should not appear");
}

#[test]
fn rejects_re_export_of_private_item() {
    let ast_module_prog = make_program(vec![]);
    let parser_prog = ModuleInterface {
        imports: vec![],
        exports: vec![make_export(PathRoot::Name("ast".into()), name("Hidden"))],
        decls: vec![],
    };
    let graph = make_graph(vec![(path(&["parser"]), parser_prog), (path(&["parser", "ast"]), ast_module_prog)]);

    let err = resolve(&graph).expect_err("re-exporting private item should fail");
    let msg = err.to_display_string();
    assert!(msg.contains("Hidden"), "error should mention Hidden");
    assert!(msg.contains("visibility"), "error should mention visibility");
}

#[test]
fn glob_re_export_includes_all_public_names() {
    let ast_module_prog = make_program_with_pubs(vec![], &["Ast", "Token"]);
    let parser_prog = ModuleInterface {
        imports: vec![],
        exports: vec![make_export(PathRoot::Name("ast".into()), ImportTree::Glob)],
        decls: vec![],
    };
    let root_prog = make_program(vec![make_import(PathRoot::Name("parser".into()), name("Ast"))]);
    let graph = make_graph(vec![
        (vec![], root_prog),
        (path(&["parser"]), parser_prog),
        (path(&["parser", "ast"]), ast_module_prog),
    ]);

    let names = resolve(&graph).unwrap();
    let parser_scope = names.scopes.get(&path(&["parser"])).unwrap();
    assert!(parser_scope.re_exports.contains_key("Ast"));
    assert!(parser_scope.re_exports.contains_key("Token"));
    let root_scope = names.scopes.get(&vec![]).unwrap();
    assert!(root_scope.explicit.contains_key("Ast"));
}

// ── Beyond the original cases ────────────────────────────────────────────────

#[test]
fn duplicate_import_error_is_t0011_with_both_sources() {
    let graph = make_graph(vec![
        (
            vec![],
            make_program(vec![
                make_import(PathRoot::Name("parser".into()), name("Token")),
                make_import(PathRoot::Name("lexer".into()), name("Token")),
            ]),
        ),
        (path(&["parser"]), make_program_with_pubs(vec![], &["Token"])),
        (path(&["lexer"]), make_program_with_pubs(vec![], &["Token"])),
    ]);
    let err = resolve(&graph).unwrap_err();
    assert_eq!(
        err.to_display_string(),
        "[T0011] type error in test:0:0: import conflict: `Token` is imported from both `parser` and `lexer`; \
         use an explicit import to disambiguate: `import parser::Token` or `import lexer::Token`"
    );
}

#[test]
fn private_re_export_error_text() {
    let parser_prog = ModuleInterface {
        imports: vec![],
        exports: vec![make_export(PathRoot::Name("ast".into()), name("Hidden"))],
        decls: vec![],
    };
    let graph = make_graph(vec![(path(&["parser"]), parser_prog), (path(&["parser", "ast"]), make_program(vec![]))]);
    let err = resolve(&graph).unwrap_err();
    assert_eq!(
        err.to_display_string(),
        "[T0009] type error in test:0:0: visibility error: cannot re-export `Hidden` — it is not public in module `parser::ast`"
    );
}

#[test]
fn pub_surface_holds_declared_and_re_exported_names() {
    let ast_prog = ModuleInterface {
        imports: vec![],
        exports: vec![],
        decls: vec![
            pub_fun("Ast"),
            decl(DeclKind::Struct, Visibility::Private, "Hidden"),
            decl(DeclKind::Let, Visibility::Public, "x"),
        ],
    };
    let parser_prog = ModuleInterface {
        imports: vec![],
        exports: vec![make_export(PathRoot::Name("ast".into()), name("Ast"))],
        decls: vec![pub_fun("parse")],
    };
    let graph = make_graph(vec![(path(&["parser"]), parser_prog), (path(&["parser", "ast"]), ast_prog)]);
    let names = resolve(&graph).unwrap();
    let ast_surface = names.pub_surface.get(&path(&["parser", "ast"])).unwrap();
    assert!(ast_surface.contains_key("Ast"));
    assert!(!ast_surface.contains_key("Hidden"));
    assert!(!ast_surface.contains_key("x"));
    let parser_surface = names.pub_surface.get(&path(&["parser"])).unwrap();
    assert!(parser_surface.contains_key("parse"));
    assert!(parser_surface.contains_key("Ast"));
    assert_eq!(parser_surface.len(), 2);
}

#[test]
fn scope_lookup_prefers_explicit_then_globs() {
    let graph = make_graph(vec![
        (
            vec![],
            make_program(vec![
                make_import(PathRoot::Name("parser".into()), name("Token")),
                make_import(PathRoot::Name("lexer".into()), ImportTree::Glob),
            ]),
        ),
        (path(&["parser"]), make_program_with_pubs(vec![], &["Token"])),
        (path(&["lexer"]), make_program(vec![])),
    ]);
    let names = resolve(&graph).unwrap();
    let root_scope = names.scopes.get(&vec![]).unwrap();
    match root_scope.lookup("Token") {
        ScopeLookup::Explicit(b) => assert_eq!(b.source_module, path(&["parser"])),
        ScopeLookup::MaybeGlob(_) => panic!("Token is explicitly imported"),
    }
    match root_scope.lookup("Other") {
        ScopeLookup::Explicit(_) => panic!("Other is not explicitly imported"),
        ScopeLookup::MaybeGlob(g) => assert_eq!(*g, vec![path(&["lexer"])]),
    }
}

#[test]
fn std_root_imports_from_std_module() {
    let graph = make_graph(vec![(vec![], make_program(vec![make_import(PathRoot::Std, name("math"))]))]);
    let names = resolve(&graph).unwrap();
    let root_scope = names.scopes.get(&vec![]).unwrap();
    let b = root_scope.explicit.get("math").unwrap();
    assert_eq!(b.source_module, path(&["std"]));
    assert_eq!(b.kind, BindingKind::Item);
}
