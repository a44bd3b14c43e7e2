use lib::ast::{AssignOp, ImportDecl, ImportPath, ImportTree, ModuleInterface, PathRoot, Span, TypeExpr};
use lib::error::{GustError, InternalErrorCode, ParseErrorCode, RuntimeErrorCode, TypeErrorCode};
use lib::evaluator::impl_method_key;
use lib::module_loader::{
    candidate_prefixes, child_module_path, circular_dependency, import_module_segments, import_tree_contains_super,
    import_tree_segments, module_error, resolve_in_dir, validate_super_root,
};
use lib::name_resolver::absolute_base;
use lib::parser::{parse_assign_op, unescape};

fn path(names: &[&str]) -> Vec<String> {
    names.iter().map(|s| s.to_string()).collect()
}

fn name(n: &str) -> ImportTree {
    ImportTree::Name { name: n.to_string(), alias: None }
}

fn parse_error_parts(e: GustError) -> (ParseErrorCode, String, String, u32, u32) {
    match e {
        GustError::ParseError { code, message, filename, line, col, source_line, start, end } => {
            assert!(source_line.is_none());
            assert_eq!((start, end), (0, 0));
            (code, message, filename, line, col)
        }
        other => panic!("expected a parse error, got {other:?}"),
    }
}

// ── Module paths ─────────────────────────────────────────────────────────────

#[test]
fn child_paths_follow_the_import_root() {
    let parent = path(&["a", "b"]);
    let segs = path(&["c"]);
    assert_eq!(child_module_path(&parent, &PathRoot::Root, &segs), path(&["c"]));
    assert_eq!(child_module_path(&parent, &PathRoot::Self_, &segs), path(&["a", "b", "c"]));
    assert_eq!(child_module_path(&parent, &PathRoot::Super, &segs), path(&["a", "c"]));
    assert_eq!(child_module_path(&parent, &PathRoot::Name("x".into()), &segs), path(&["a", "b", "c"]));
    assert_eq!(child_module_path(&parent, &PathRoot::Std, &segs), path(&["a", "b", "c"]));
    assert_eq!(child_module_path(&vec![], &PathRoot::Super, &segs), path(&["c"]));
}

#[test]
fn absolute_bases_match_child_paths() {
    let cur = path(&["a", "b"]);
    assert_eq!(absolute_base(&PathRoot::Root, &cur), Vec::<String>::new());
    assert_eq!(absolute_base(&PathRoot::Std, &cur), path(&["std"]));
    assert_eq!(absolute_base(&PathRoot::Self_, &cur), cur);
    assert_eq!(absolute_base(&PathRoot::Super, &cur), path(&["a"]));
    assert_eq!(absolute_base(&PathRoot::Super, &vec![]), Vec::<String>::new());
    assert_eq!(absolute_base(&PathRoot::Name("n".into()), &cur), path(&["a", "b", "n"]));
}

#[test]
fn import_tree_segments_stop_at_groups() {
    let t = ImportTree::Path { name: "ast".into(), tree: Box::new(name("Ast")) };
    assert_eq!(import_tree_segments(&t), path(&["ast", "Ast"]));
    let g = ImportTree::Path { name: "ast".into(), tree: Box::new(ImportTree::Group(vec![name("A"), name("B")])) };
    assert_eq!(import_tree_segments(&g), path(&["ast"]));
    assert!(import_tree_segments(&ImportTree::Glob).is_empty());
    assert!(!import_tree_contains_super(&g));
}

#[test]
fn import_module_segments_by_root() {
    let t = ImportTree::Path { name: "ast".into(), tree: Box::new(name("Ast")) };
    assert_eq!(import_module_segments(&PathRoot::Std, &t), None);
    assert_eq!(import_module_segments(&PathRoot::Root, &t), Some(path(&["ast", "Ast"])));
    assert_eq!(import_module_segments(&PathRoot::Name("parser".into()), &t), Some(path(&["parser", "ast", "Ast"])));
}

#[test]
fn candidate_prefixes_longest_first() {
    let c = candidate_prefixes(&path(&["a", "b", "C"]));
    assert_eq!(c, vec![path(&["a", "b", "C"]), path(&["a", "b"]), path(&["a"])]);
    assert!(candidate_prefixes(&vec![]).is_empty());
}

#[test]
fn resolve_in_dir_outcomes() {
    assert_eq!(resolve_in_dir(&vec![], None, "main.mln").unwrap(), None);
    let found = Some((path(&["a"]), "dir/a.mln".to_string()));
    assert_eq!(resolve_in_dir(&path(&["a", "X"]), found.clone(), "main.mln").unwrap(), found);
    let (code, msg, file, line, col) = parse_error_parts(resolve_in_dir(&path(&["a", "X"]), None, "main.mln").unwrap_err());
    assert_eq!(code, ParseErrorCode::P0001);
    assert_eq!(msg, "cannot find module file for `a::X`");
    assert_eq!((file.as_str(), line, col), ("main.mln", 1, 1));
}

#[test]
fn super_imports_rejected_only_at_root() {
    let program = ModuleInterface {
        imports: vec![ImportDecl {
            path: ImportPath { root: PathRoot::Super, tree: name("X") },
            span: Span::new(0, 0, "f".to_string()),
        }],
        exports: vec![],
        decls: vec![],
    };
    assert!(validate_super_root(&program, &path(&["child"]), "child.mln").is_ok());
    let (_, msg, file, _, _) = parse_error_parts(validate_super_root(&program, &vec![], "main.mln").unwrap_err());
    assert_eq!(msg, "`super::` is invalid from the root module");
    assert_eq!(file, "main.mln");
    let ok = ModuleInterface { imports: vec![], exports: vec![], decls: vec![] };
    assert!(validate_super_root(&ok, &vec![], "main.mln").is_ok());
}

#[test]
fn circular_dependency_reports_the_chain() {
    let stack = vec!["/r/main.mln".to_string(), "/r/a.mln".to_string(), "/r/b.mln".to_string()];
    assert!(circular_dependency(&stack, "/r/c.mln").is_none());
    let (_, msg, file, _, _) = parse_error_parts(circular_dependency(&stack, "/r/a.mln").unwrap());
    assert_eq!(msg, "circular module dependency: /r/a.mln -> /r/b.mln -> /r/a.mln");
    assert_eq!(file, "/r/a.mln");
}

#[test]
fn module_error_shape() {
    let e = module_error("boom".to_string(), "x.mln");
    assert_eq!(e.to_display_string(), "[P0001] parse error in x.mln:1:1: boom");
}

// ── Text ─────────────────────────────────────────────────────────────────────

#[test]
fn assignment_operators() {
    assert_eq!(parse_assign_op("+="), AssignOp::AddAssign);
    assert_eq!(parse_assign_op("-="), AssignOp::SubAssign);
    assert_eq!(parse_assign_op("*="), AssignOp::MulAssign);
    assert_eq!(parse_assign_op("/="), AssignOp::DivAssign);
    assert_eq!(parse_assign_op("%="), AssignOp::RemAssign);
    assert_eq!(parse_assign_op("="), AssignOp::Assign);
    assert_eq!(parse_assign_op("<<="), AssignOp::Assign);
}

#[test]
fn unescape_string_literals() {
    assert_eq!(unescape("plain"), "plain");
    assert_eq!(unescape(r"a\nb"), "a\nb");
    assert_eq!(unescape(r"\t\r\\"), "\t\r\\");
    assert_eq!(unescape(r#"say \"hi\""#), "say \"hi\"");
    assert_eq!(unescape(r"\q"), r"\q");
    assert_eq!(unescape("end\\"), "end\\");
    assert_eq!(unescape(""), "");
}

#[test]
fn impl_method_keys() {
    let from_args = vec![TypeExpr::Named("Int".into(), vec![])];
    assert_eq!(impl_method_key("Float", "from", &Some("From".to_string()), &from_args), "Float::From<Int>::from");
    assert_eq!(impl_method_key("Float", "into", &Some("From".to_string()), &from_args), "Float::into");
    assert_eq!(impl_method_key("Float", "from", &Some("Other".to_string()), &from_args), "Float::from");
    assert_eq!(impl_method_key("Float", "from", &Some("From".to_string()), &vec![]), "Float::from");
    assert_eq!(impl_method_key("Point", "len", &None, &vec![]), "Point::len");
    assert_eq!(impl_method_key("P", "from", &Some("From".to_string()), &vec![TypeExpr::Unit]), "P::from");
}

// ── Errors ───────────────────────────────────────────────────────────────────

#[test]
fn error_constructors_and_rendering() {
    let mut span = Span::new(5, 9, "prog.mln".to_string());
    span.line = 12;
    span.col = 7;
    let p = GustError::parse(ParseErrorCode::P0002, "bad int".to_string(), &span);
    assert_eq!(p.to_display_string(), "[P0002] parse error in prog.mln:12:7: bad int");
    let t = GustError::type_error(TypeErrorCode::T0004, "arity".to_string(), &span);
    assert_eq!(t.to_display_string(), "[T0004] type error in prog.mln:12:7: arity");
    let r = GustError::panic(RuntimeErrorCode::R0007, "division by zero".to_string(), &span);
    assert_eq!(r.to_display_string(), "[R0007] runtime error in prog.mln:12:7: division by zero");
    let i = GustError::internal("bug".to_string());
    assert_eq!(i.to_display_string(), "[I0001] internal error: bug");
    let n = GustError::not_implemented("later".to_string());
    match &n {
        GustError::Internal { code, .. } => assert_eq!(*code, InternalErrorCode::I0002),
        _ => panic!("expected internal"),
    }
    assert_eq!(n.to_display_string(), "[I0002] internal error: later");
    let with_src = GustError::ParseError {
        code: ParseErrorCode::P0001,
        message: "m".to_string(),
        start: 0,
        end: 0,
        filename: "f".to_string(),
        line: 1,
        col: 2,
        source_line: Some("let x".to_string()),
    };
    assert_eq!(with_src.to_display_string(), "[P0001] parse error in f:1:2 (`let x`): m");
}
