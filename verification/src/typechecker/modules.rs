//! Checks and environments that span modules: annotations required of
//! public functions, the schemes a module imports, and the schemes it
//! exports.

use vstd::prelude::*;

use crate::ast::{DeclHeader, DeclKind, ImportDecl, ImportTree, Param, PathRoot, Span, Visibility, same_span};
use crate::error::{GustError, TypeErrorCode, is_type_error};
use crate::module_loader::{LoadedModule, ModuleGraph};
use crate::name_resolver::{BindingView, ModuleScope, ResolvedNames, ScopeView, surface_wf};
use crate::pathmap::{join_path, join_spec, path_eq, pv};
use crate::strmap::StrMap;
use crate::text::{push_str, str_eq};
use crate::typeinference::TypeScheme;
use crate::typeinference::model::InferTypeView;
use crate::typeinference::TypeVar;
use super::exports::GlobalExports;

verus! {

broadcast use vstd::string::group_string_axioms;

// ── Public annotations ───────────────────────────────────────────────────────

/// A public function declaration whose name is on its module's public surface.
pub open spec fn is_checked_fun(d: DeclHeader, surface: Set<Seq<char>>) -> bool {
    d.kind == DeclKind::Fun && d.visibility == Visibility::Public && surface.contains(d.name@)
}

/// The message for a public function without a return type.
pub open spec fn missing_return_text(f: Seq<char>) -> Seq<char> {
    "public declaration `"@ + f + "` requires an explicit return type annotation; add `-> <Type>` after the parameter list"@
}

/// The message for a public function with an unannotated parameter.
pub open spec fn missing_param_text(f: Seq<char>, p: Seq<char>) -> Seq<char> {
    "public declaration `"@ + f
        + "` requires explicit type annotations on all parameters; add `: <Type>` to parameter `"@ + p + "`"@
}

/// The index of the first parameter without an annotation.
pub open spec fn first_unannotated(ps: Seq<Param>) -> Option<int>
    decreases ps.len(),
{
    if ps.len() == 0 {
        None
    } else if ps[0].type_ann is None {
        Some(0)
    } else {
        match first_unannotated(ps.drop_first()) {
            Some(i) => Some(i + 1),
            None => None,
        }
    }
}

proof fn lemma_first_unannotated(ps: Seq<Param>)
    ensures
        match first_unannotated(ps) {
            Some(i) => 0 <= i < ps.len() && ps[i].type_ann is None && forall|j: int| 0 <= j < i ==> ps[j].type_ann is Some,
            None => forall|j: int| 0 <= j < ps.len() ==> ps[j].type_ann is Some,
        },
    decreases ps.len(),
{
    if ps.len() > 0 {
        lemma_first_unannotated(ps.drop_first());
        if ps[0].type_ann is Some {
            assert forall|j: int| 0 < j < ps.len() implies ps[j] == ps.drop_first()[j - 1] by {}
        }
    }
}

/// What is missing from a checked public function, if anything: its return
/// type first, then the annotation of its first unannotated parameter.
pub open spec fn annotation_gap(d: DeclHeader) -> Option<(Seq<char>, Span)> {
    if d.return_type is None {
        Some((missing_return_text(d.name@), d.span))
    } else {
        match first_unannotated(d.params@) {
            Some(i) => Some((missing_param_text(d.name@, d.params@[i].name@), d.params@[i].span)),
            None => None,
        }
    }
}

/// A declaration that `check_pub_annotations` reports.
pub open spec fn decl_fails(d: DeclHeader, surface: Set<Seq<char>>) -> bool {
    is_checked_fun(d, surface) && annotation_gap(d) is Some
}

/// The index of the first declaration that fails the check.
pub open spec fn first_failing(ds: Seq<DeclHeader>, surface: Set<Seq<char>>) -> Option<int>
    decreases ds.len(),
{
    if ds.len() == 0 {
        None
    } else if decl_fails(ds[0], surface) {
        Some(0)
    } else {
        match first_failing(ds.drop_first(), surface) {
            Some(i) => Some(i + 1),
            None => None,
        }
    }
}

proof fn lemma_first_failing(ds: Seq<DeclHeader>, surface: Set<Seq<char>>)
    ensures
        match first_failing(ds, surface) {
            Some(i) => 0 <= i < ds.len() && decl_fails(ds[i], surface)
                && forall|j: int| 0 <= j < i ==> !decl_fails(#[trigger] ds[j], surface),
            None => forall|j: int| 0 <= j < ds.len() ==> !decl_fails(#[trigger] ds[j], surface),
        },
    decreases ds.len(),
{
    if ds.len() > 0 {
        lemma_first_failing(ds.drop_first(), surface);
        if !decl_fails(ds[0], surface) {
            assert forall|j: int| 0 < j < ds.len() implies ds[j] == ds.drop_first()[j - 1] by {}
        }
    }
}

/// The error for the first public function of `loaded` that lacks a
/// required annotation (`T0010`), if any.
fn annotation_error(d: &DeclHeader) -> (r: Option<GustError>)
    ensures
        match annotation_gap(*d) {
            None => r is None,
            Some((msg, sp)) => r matches Some(e) && is_type_error(e, TypeErrorCode::T0010, msg, sp),
        },
{
    if d.return_type.is_none() {
        let mut msg = String::new();
        push_str(&mut msg, "public declaration `");
        push_str(&mut msg, d.name.as_str());
        push_str(&mut msg, "` requires an explicit return type annotation; add `-> <Type>` after the parameter list");
        return Some(GustError::type_error(TypeErrorCode::T0010, msg, &d.span));
    }
    proof { lemma_first_unannotated(d.params@); }
    let mut j: usize = 0;
    while j < d.params.len()
        invariant
            j <= d.params.len(),
            d.return_type is Some,
            forall|k: int| 0 <= k < j ==> d.params@[k].type_ann is Some,
        decreases d.params.len() - j,
    {
        if d.params[j].type_ann.is_none() {
            proof {
                lemma_first_unannotated(d.params@);
                assert(first_unannotated(d.params@) == Some(j as int));
            }
            let mut msg = String::new();
            push_str(&mut msg, "public declaration `");
            push_str(&mut msg, d.name.as_str());
            push_str(&mut msg, "` requires explicit type annotations on all parameters; add `: <Type>` to parameter `");
            push_str(&mut msg, d.params[j].name.as_str());
            push_str(&mut msg, "`");
            return Some(GustError::type_error(TypeErrorCode::T0010, msg, &d.params[j].span));
        }
        j += 1;
    }
    proof {
        lemma_first_unannotated(d.params@);
    }
    None
}

/// Every public declaration of `loaded` that needs annotations has them (a
/// module without a recorded surface is not checked).
pub open spec fn annotations_ok(loaded: LoadedModule, names: ResolvedNames) -> bool {
    !names.surface().contains_key(pv(loaded.mod_path)) || first_failing(
        loaded.program.decls@,
        names.surface()[pv(loaded.mod_path)],
    ) is None
}

/// `e` is the `T0010` error of the first public declaration of `loaded`
/// that lacks an annotation.
pub open spec fn annotations_error(loaded: LoadedModule, names: ResolvedNames, e: GustError) -> bool {
    let surface = names.surface()[pv(loaded.mod_path)];
    match first_failing(loaded.program.decls@, surface) {
        None => false,
        Some(i) => {
            let (msg, sp) = annotation_gap(loaded.program.decls@[i]).unwrap();
            is_type_error(e, TypeErrorCode::T0010, msg, sp)
        },
    }
}

/// Every public function on its module's public surface must annotate its
/// return type and all its parameters (`T0010`, for the first that does not).
/// A module without a recorded surface is not checked.
#[verifier::loop_isolation(false)]
pub fn check_pub_annotations(loaded: &LoadedModule, names: &ResolvedNames) -> (r: Result<(), GustError>)
    requires
        names.wf(),
    ensures
        annotations_ok(*loaded, *names) ==> r is Ok,
        !annotations_ok(*loaded, *names) ==> (r matches Err(e) && annotations_error(*loaded, *names, e)),
{
    let pub_surface = match names.pub_surface.get(&loaded.mod_path) {
        Some(s) => s,
        None => return Ok(()),
    };
    let ghost surface = names.surface()[pv(loaded.mod_path)];
    assert(pub_surface.view().dom() == surface);
    let ghost ds = loaded.program.decls@;
    proof { lemma_first_failing(ds, surface); }
    let mut i: usize = 0;
    while i < loaded.program.decls.len()
        invariant
            i <= ds.len(),
            ds == loaded.program.decls@,
            pub_surface.wf(),
            pub_surface.view().dom() == surface,
            forall|k: int| 0 <= k < i ==> !decl_fails(#[trigger] ds[k], surface),
        decreases ds.len() - i,
    {
        let d = &loaded.program.decls[i];
        let checked = match d.kind {
            DeclKind::Fun => d.visibility == Visibility::Public && pub_surface.contains_key(d.name.as_str()),
            _ => false,
        };
        if checked {
            match annotation_error(d) {
                Some(e) => {
                    proof {
                        lemma_first_failing(ds, surface);
                        assert(first_failing(ds, surface) == Some(i as int));
                    }
                    return Err(e);
                },
                None => {},
            }
        }
        i += 1;
    }
    proof {
        lemma_first_failing(ds, surface);
    }
    Ok(())
}

// ── Import spans and declarations ────────────────────────────────────────────

/// Whether an import tree names `name`, by its own name or by its alias.
pub open spec fn tree_names(tree: &ImportTree, name: Seq<char>) -> bool
    decreases tree, 0nat,
{
    match tree {
        ImportTree::Name { name: n, alias } => n@ == name || (alias matches Some(a) && a@ == name),
        ImportTree::Path { tree: t, .. } => tree_names(t, name),
        ImportTree::Group(items) => group_names(items@, name),
        ImportTree::Glob => false,
    }
}

pub open spec fn group_names(items: Seq<ImportTree>, name: Seq<char>) -> bool
    decreases items, 1nat,
{
    if items.len() == 0 {
        false
    } else {
        group_names(items.drop_last(), name) || tree_names(&items.last(), name)
    }
}

fn tree_contains(tree: &ImportTree, name: &str) -> (r: bool)
    ensures
        r == tree_names(tree, name@),
    decreases tree, 0nat,
{
    match tree {
        ImportTree::Name { name: n, alias } => {
            str_eq(n.as_str(), name) || match alias {
                Some(a) => str_eq(a.as_str(), name),
                None => false,
            }
        },
        ImportTree::Path { tree: t, .. } => tree_contains(t, name),
        ImportTree::Group(items) => group_contains(items, name),
        ImportTree::Glob => false,
    }
}

fn group_contains(items: &Vec<ImportTree>, name: &str) -> (r: bool)
    ensures
        r == group_names(items@, name@),
    decreases items, 1nat,
{
    let mut i: usize = 0;
    assert(items@.take(0) =~= Seq::<ImportTree>::empty());
    while i < items.len()
        invariant
            i <= items.len(),
            !group_names(items@.take(i as int), name@),
        decreases items.len() - i,
    {
        assert(items@.take(i + 1).drop_last() =~= items@.take(i as int));
        assert(items@.take(i + 1).last() == items@[i as int]);
        if tree_contains(&items[i], name) {
            proof { lemma_group_names_prefix(items@, name@, i + 1); }
            return true;
        }
        i += 1;
    }
    assert(items@.take(items.len() as int) =~= items@);
    false
}

proof fn lemma_group_names_prefix(items: Seq<ImportTree>, name: Seq<char>, k: int)
    requires
        0 <= k <= items.len(),
        group_names(items.take(k), name),
    ensures
        group_names(items, name),
    decreases items.len(),
{
    if k == items.len() {
        assert(items.take(k) =~= items);
    } else {
        assert(items.drop_last().take(k) =~= items.take(k));
        lemma_group_names_prefix(items.drop_last(), name, k);
    }
}

/// Whether an import's root can lead to `source_module`, seen from the
/// module `current`: a child root must be its first name, `self` must be
/// the module itself, `root` and `super` may lead anywhere, `std` nowhere.
pub open spec fn root_may_reach(root: PathRoot, source_module: Seq<Seq<char>>, current: Seq<Seq<char>>) -> bool {
    match root {
        PathRoot::Name(n) => source_module.len() > 0 && source_module[0] == n@,
        PathRoot::Self_ => source_module == current,
        PathRoot::Root => true,
        PathRoot::Super => true,
        PathRoot::Std => false,
    }
}

/// The import declaration that names `source_name` from `source_module`.
pub open spec fn import_matches(i: ImportDecl, source_module: Seq<Seq<char>>, source_name: Seq<char>, current: Seq<Seq<char>>) -> bool {
    root_may_reach(i.path.root, source_module, current) && tree_names(&i.path.tree, source_name)
}

/// The index of the first import naming `source_name` from `source_module`.
pub open spec fn first_import(
    imports: Seq<ImportDecl>,
    source_module: Seq<Seq<char>>,
    source_name: Seq<char>,
    current: Seq<Seq<char>>,
) -> Option<int>
    decreases imports.len(),
{
    if imports.len() == 0 {
        None
    } else if import_matches(imports[0], source_module, source_name, current) {
        Some(0)
    } else {
        match first_import(imports.drop_first(), source_module, source_name, current) {
            Some(i) => Some(i + 1),
            None => None,
        }
    }
}

proof fn lemma_first_import(imports: Seq<ImportDecl>, source_module: Seq<Seq<char>>, source_name: Seq<char>, current: Seq<Seq<char>>)
    ensures
        match first_import(imports, source_module, source_name, current) {
            Some(i) => 0 <= i < imports.len() && import_matches(imports[i], source_module, source_name, current)
                && forall|j: int| 0 <= j < i ==> !import_matches(#[trigger] imports[j], source_module, source_name, current),
            None => forall|j: int| 0 <= j < imports.len() ==> !import_matches(#[trigger] imports[j], source_module, source_name, current),
        },
    decreases imports.len(),
{
    if imports.len() > 0 {
        lemma_first_import(imports.drop_first(), source_module, source_name, current);
        if !import_matches(imports[0], source_module, source_name, current) {
            assert forall|j: int| 0 < j < imports.len() implies imports[j] == imports.drop_first()[j - 1] by {}
        }
    }
}

/// The span an import error is reported at: that of the first import of
/// `loaded` naming `source_name` from `source_module`, else the start of the
/// module's file.
pub fn find_import_span(loaded: &LoadedModule, source_module: &Vec<String>, source_name: &str) -> (r: Span)
    ensures
        match first_import(loaded.program.imports@, pv(*source_module), source_name@, pv(loaded.mod_path)) {
            Some(i) => same_span(r, loaded.program.imports@[i].span),
            None => r.start == 0 && r.end == 0 && r.filename@ == loaded.file_path@ && r.line == 0 && r.col == 0,
        },
{
    let ghost ims = loaded.program.imports@;
    let ghost sm = pv(*source_module);
    let ghost cur = pv(loaded.mod_path);
    proof { lemma_first_import(ims, sm, source_name@, cur); }
    let mut i: usize = 0;
    while i < loaded.program.imports.len()
        invariant
            i <= ims.len(),
            ims == loaded.program.imports@,
            sm == pv(*source_module),
            cur == pv(loaded.mod_path),
            forall|k: int| 0 <= k < i ==> !import_matches(#[trigger] ims[k], sm, source_name@, cur),
        decreases ims.len() - i,
    {
        let import = &loaded.program.imports[i];
        let root_matches = match &import.path.root {
            PathRoot::Name(n) => source_module.len() > 0 && str_eq(source_module[0].as_str(), n.as_str()),
            PathRoot::Self_ => path_eq(source_module, &loaded.mod_path),
            PathRoot::Root => true,
            PathRoot::Super => true,
            PathRoot::Std => false,
        };
        if root_matches && tree_contains(&import.path.tree, source_name) {
            proof {
                lemma_first_import(ims, sm, source_name@, cur);
                assert(import_matches(ims[i as int], sm, source_name@, cur));
                assert(first_import(ims, sm, source_name@, cur) == Some(i as int));
            }
            return import.span.clone();
        }
        proof {
            if source_module.len() > 0 {
                assert(sm[0] == source_module@[0]@);
            }
        }
        i += 1;
    }
    proof { lemma_first_import(ims, sm, source_name@, cur); }
    Span::new(0, 0, loaded.file_path.clone())
}

/// A declaration that gives its module a name (any but an impl block or a
/// statement).
pub open spec fn names_decl(d: DeclHeader, name: Seq<char>) -> bool {
    d.kind != DeclKind::Impl && d.kind != DeclKind::Stmt && d.name@ == name
}

/// Whether `name` is declared at the top level of a module, public or not.
pub fn decl_exists(decls: &Vec<DeclHeader>, name: &str) -> (r: bool)
    ensures
        r == exists|i: int| 0 <= i < decls@.len() && names_decl(#[trigger] decls@[i], name@),
{
    let mut i: usize = 0;
    while i < decls.len()
        invariant
            i <= decls.len(),
            forall|k: int| 0 <= k < i ==> !names_decl(#[trigger] decls@[k], name@),
        decreases decls.len() - i,
    {
        let d = &decls[i];
        let named = match d.kind {
            DeclKind::Impl | DeclKind::Stmt => false,
            _ => str_eq(d.name.as_str(), name),
        };
        if named {
            assert(names_decl(decls@[i as int], name@));
            return true;
        }
        i += 1;
    }
    false
}

// ── Exported and imported schemes ────────────────────────────────────────────

/// The model of a type scheme.
pub open spec fn scheme_view(s: TypeScheme) -> (Seq<TypeVar>, InferTypeView) {
    (s.quantified_vars@, s.ty@)
}

/// The models of a scheme environment.
pub open spec fn schemes_view(m: Map<Seq<char>, TypeScheme>) -> Map<Seq<char>, (Seq<TypeVar>, InferTypeView)> {
    m.map_values(|s: TypeScheme| scheme_view(s))
}

/// The schemes of `scheme_env` whose names are on the module's public
/// surface; none when the module has no recorded surface.
#[verifier::loop_isolation(false)]
pub fn filter_pub_schemes(scheme_env: &StrMap<TypeScheme>, loaded: &LoadedModule, names: &ResolvedNames) -> (r: StrMap<TypeScheme>)
    requires
        scheme_env.wf(),
        names.wf(),
    ensures
        r.wf(),
        !names.surface().contains_key(pv(loaded.mod_path)) ==> r.view() == Map::<Seq<char>, TypeScheme>::empty(),
        names.surface().contains_key(pv(loaded.mod_path)) ==> schemes_view(r.view()) == schemes_view(
            scheme_env.view(),
        ).restrict(names.surface()[pv(loaded.mod_path)]),
{
    let mut out: StrMap<TypeScheme> = StrMap::new();
    let pub_names = match names.pub_surface.get(&loaded.mod_path) {
        Some(s) => s,
        None => return out,
    };
    let ghost surface = names.surface()[pv(loaded.mod_path)];
    assert(pub_names.view().dom() == surface);
    let ghost keys = scheme_env.keys_seq();
    let ghost src = schemes_view(scheme_env.view());
    proof {
        scheme_env.lemma_keys();
        assert(schemes_view(out.view()) =~= src.restrict(surface.intersect(keys.take(0).to_set())));
    }
    let mut i: usize = 0;
    while i < scheme_env.len()
        invariant
            i <= keys.len(),
            keys == scheme_env.keys_seq(),
            scheme_env.wf(),
            src == schemes_view(scheme_env.view()),
            forall|k: Seq<char>| #[trigger] scheme_env.view().contains_key(k) <==> keys.contains(k),
            pub_names.wf(),
            pub_names.view().dom() == surface,
            out.wf(),
            schemes_view(out.view()) == src.restrict(surface.intersect(keys.take(i as int).to_set())),
        decreases keys.len() - i,
    {
        let (name, scheme) = scheme_env.entry(i);
        let ghost before = schemes_view(out.view());
        proof {
            assert(keys.take(i + 1) =~= keys.take(i as int).push(name@));
            keys.take(i as int).lemma_push_to_set_commute(name@);
            assert(src[name@] == scheme_view(*scheme));
        }
        if pub_names.contains_key(name.as_str()) {
            let c = scheme.clone();
            assert(scheme_view(c) == scheme_view(*scheme));
            out.insert(name.clone(), c);
            proof {
                assert(schemes_view(out.view()) =~= before.insert(name@, scheme_view(*scheme)));
                assert(schemes_view(out.view()) =~= src.restrict(surface.intersect(keys.take(i + 1).to_set())));
            }
        } else {
            proof {
                assert(schemes_view(out.view()) =~= src.restrict(surface.intersect(keys.take(i + 1).to_set())));
            }
        }
        i += 1;
    }
    proof {
        assert(keys.take(keys.len() as int) =~= keys);
        assert(src.restrict(surface.intersect(keys.to_set())) =~= src.restrict(surface)) by {
            assert forall|k: Seq<char>| src.dom().contains(k) implies keys.to_set().contains(k) by {
                assert(keys.contains(k));
            }
        }
    }
    out
}

/// The schemes after the glob sources `globs`, in order: each public scheme
/// of a recorded source joins unless an earlier source gave the name.
pub open spec fn glob_schemes(
    env: Map<Seq<char>, (Seq<TypeVar>, InferTypeView)>,
    globs: Seq<Seq<Seq<char>>>,
    exports: Map<Seq<Seq<char>>, Map<Seq<char>, TypeScheme>>,
) -> Map<Seq<char>, (Seq<TypeVar>, InferTypeView)>
    decreases globs.len(),
{
    if globs.len() == 0 {
        env
    } else {
        let prev = glob_schemes(env, globs.drop_last(), exports);
        if exports.contains_key(globs.last()) {
            schemes_view(exports[globs.last()]).union_prefer_right(prev)
        } else {
            prev
        }
    }
}

/// Why an explicit import fails: its name is declared in its source module
/// but not public (`T0009`), or not declared there at all (`T0003`).
pub open spec fn explicit_failure(
    b: BindingView,
    local: Seq<char>,
    exports: Map<Seq<Seq<char>>, Map<Seq<char>, TypeScheme>>,
    graph: Seq<LoadedModule>,
) -> Option<(TypeErrorCode, Seq<char>, Seq<Seq<char>>, Seq<char>)> {
    if exports.contains_key(b.source_module) && exports[b.source_module].contains_key(b.source_name) {
        None
    } else {
        match first_module(graph, b.source_module) {
            None => None,
            Some(m) => if exists|i: int| 0 <= i < graph[m].program.decls@.len() && names_decl(
                #[trigger] graph[m].program.decls@[i],
                b.source_name,
            ) {
                Some((
                    TypeErrorCode::T0009,
                    "visibility error: `"@ + b.source_name + "` is not public in module `"@ + join_spec(b.source_module, "::"@) + "`"@,
                    b.source_module,
                    b.source_name,
                ))
            } else {
                Some((
                    TypeErrorCode::T0003,
                    "cannot import `"@ + b.source_name + "` from module `"@ + join_spec(b.source_module, "::"@)
                        + "`: name does not exist"@,
                    b.source_module,
                    b.source_name,
                ))
            },
        }
    }
}

/// The index of the first module of the graph at path `p`.
pub open spec fn first_module(ms: Seq<LoadedModule>, p: Seq<Seq<char>>) -> Option<int>
    decreases ms.len(),
{
    if ms.len() == 0 {
        None
    } else if pv(ms[0].mod_path) == p {
        Some(0)
    } else {
        match first_module(ms.drop_first(), p) {
            Some(i) => Some(i + 1),
            None => None,
        }
    }
}

proof fn lemma_first_module(ms: Seq<LoadedModule>, p: Seq<Seq<char>>)
    ensures
        match first_module(ms, p) {
            Some(i) => 0 <= i < ms.len() && pv(ms[i].mod_path) == p && forall|j: int| 0 <= j < i ==> pv(#[trigger] ms[j].mod_path) != p,
            None => forall|j: int| 0 <= j < ms.len() ==> pv(#[trigger] ms[j].mod_path) != p,
        },
    decreases ms.len(),
{
    if ms.len() > 0 {
        lemma_first_module(ms.drop_first(), p);
        if pv(ms[0].mod_path) != p {
            assert forall|j: int| 0 < j < ms.len() implies ms[j] == ms.drop_first()[j - 1] by {}
        }
    }
}

/// The index of the module at path `p` in the graph, if any.
fn find_module(ms: &Vec<LoadedModule>, p: &Vec<String>) -> (r: Option<usize>)
    ensures
        match first_module(ms@, pv(*p)) {
            Some(i) => r matches Some(u) && u == i,
            None => r is None,
        },
{
    proof { lemma_first_module(ms@, pv(*p)); }
    let mut i: usize = 0;
    while i < ms.len()
        invariant
            i <= ms.len(),
            forall|j: int| 0 <= j < i ==> pv(#[trigger] ms@[j].mod_path) != pv(*p),
        decreases ms.len() - i,
    {
        if path_eq(&ms[i].mod_path, p) {
            proof {
                lemma_first_module(ms@, pv(*p));
            }
            return Some(i);
        }
        i += 1;
    }
    None
}

/// The explicit imports of a scope, in stored order, that are taken in
/// after the globs: each either provides a scheme, fails, or (for a source
/// outside the graph) is skipped; the first failure ends the walk.
pub open spec fn explicit_schemes(
    env: Map<Seq<char>, (Seq<TypeVar>, InferTypeView)>,
    locals: Seq<Seq<char>>,
    bindings: Map<Seq<char>, BindingView>,
    exports: Map<Seq<Seq<char>>, Map<Seq<char>, TypeScheme>>,
    graph: Seq<LoadedModule>,
) -> Result<Map<Seq<char>, (Seq<TypeVar>, InferTypeView)>, (int, (TypeErrorCode, Seq<char>, Seq<Seq<char>>, Seq<char>))>
    decreases locals.len(),
{
    if locals.len() == 0 {
        Ok(env)
    } else {
        match explicit_schemes(env, locals.drop_last(), bindings, exports, graph) {
            Err(e) => Err(e),
            Ok(e2) => {
                let l = locals.last();
                let b = bindings[l];
                if exports.contains_key(b.source_module) && exports[b.source_module].contains_key(b.source_name) {
                    Ok(e2.insert(l, scheme_view(exports[b.source_module][b.source_name])))
                } else {
                    match explicit_failure(b, l, exports, graph) {
                        Some(f) => Err((locals.len() - 1, f)),
                        None => Ok(e2),
                    }
                }
            },
        }
    }
}

proof fn lemma_explicit_err_extends(
    env: Map<Seq<char>, (Seq<TypeVar>, InferTypeView)>,
    locals: Seq<Seq<char>>,
    bindings: Map<Seq<char>, BindingView>,
    exports: Map<Seq<Seq<char>>, Map<Seq<char>, TypeScheme>>,
    graph: Seq<LoadedModule>,
    k: int,
)
    requires
        0 <= k <= locals.len(),
        explicit_schemes(env, locals.take(k), bindings, exports, graph) is Err,
    ensures
        explicit_schemes(env, locals, bindings, exports, graph) == explicit_schemes(env, locals.take(k), bindings, exports, graph),
    decreases locals.len(),
{
    if k == locals.len() {
        assert(locals.take(k) =~= locals);
    } else {
        assert(locals.drop_last().take(k) =~= locals.take(k));
        lemma_explicit_err_extends(env, locals.drop_last(), bindings, exports, graph, k);
    }
}

/// Two different glob sources `i` < `j` of a scope both export `n`, and no
/// explicit import of the scope settles which one `n` names.
pub open spec fn glob_clash(
    globs: Seq<Seq<Seq<char>>>,
    explicit: Map<Seq<char>, BindingView>,
    exports: Map<Seq<Seq<char>>, Map<Seq<char>, TypeScheme>>,
    n: Seq<char>,
    i: int,
    j: int,
) -> bool {
    &&& 0 <= i < j < globs.len()
    &&& globs[i] != globs[j]
    &&& exports.contains_key(globs[i]) && exports[globs[i]].contains_key(n)
    &&& exports.contains_key(globs[j]) && exports[globs[j]].contains_key(n)
    &&& !explicit.contains_key(n)
}

/// Some name of the scope is exported by two of its glob sources.
pub open spec fn has_glob_clash(
    globs: Seq<Seq<Seq<char>>>,
    explicit: Map<Seq<char>, BindingView>,
    exports: Map<Seq<Seq<char>>, Map<Seq<char>, TypeScheme>>,
) -> bool {
    exists|n: Seq<char>, i: int, j: int| glob_clash(globs, explicit, exports, n, i, j)
}

/// The message of a name that two glob sources `a` and `b` both provide.
pub open spec fn glob_conflict_message(n: Seq<char>, a: Seq<Seq<char>>, b: Seq<Seq<char>>) -> Seq<char> {
    let e = join_spec(a, "::"@);
    let f = join_spec(b, "::"@);
    "import conflict: `"@ + n + "` is imported from both `"@ + e + "` and `"@ + f
        + "`; use an explicit import to disambiguate: `import "@ + e + "::"@ + n + "` or `import "@ + f + "::"@
        + n + "`"@
}

/// An import error of `loaded` with `code` and `msg`, at the span
/// [`find_import_span`] gives for `source_name` from `source_module`.
pub open spec fn import_error_at(
    e: GustError,
    code: TypeErrorCode,
    msg: Seq<char>,
    loaded: LoadedModule,
    source_module: Seq<Seq<char>>,
    source_name: Seq<char>,
) -> bool {
    let ims = loaded.program.imports@;
    match first_import(ims, source_module, source_name, pv(loaded.mod_path)) {
        Some(i) => e matches GustError::TypeError { code: c, message, start, end, filename, line, col }
            && c == code && message@ == msg && start == ims[i].span.start && end == ims[i].span.end
            && filename@ == ims[i].span.filename@ && line == ims[i].span.line && col == ims[i].span.col,
        None => e matches GustError::TypeError { code: c, message, start, end, filename, line, col }
            && c == code && message@ == msg && start == 0 && end == 0 && filename@ == loaded.file_path@
            && line == 0 && col == 0,
    }
}

/// A name that two different glob sources of `scope` both export and that
/// no explicit import of it binds, with the indices of the two sources.
#[verifier::loop_isolation(false)]
pub fn find_glob_clash(scope: &ModuleScope, global_exports: &GlobalExports) -> (r: Option<(String, usize, usize)>)
    requires
        scope.wf(),
        global_exports.wf(),
    ensures
        r is None <==> !has_glob_clash(scope.globs_view(), scope.explicit_view(), global_exports.view()),
        r matches Some((n, i, j)) ==> glob_clash(
            scope.globs_view(),
            scope.explicit_view(),
            global_exports.view(),
            n@,
            i as int,
            j as int,
        ),
{
    let ghost gl = scope.globs_view();
    let ghost ex = global_exports.view();
    let ghost bound = scope.explicit_view();
    let mut j: usize = 0;
    while j < scope.globs.len()
        invariant
            j <= scope.globs.len(),
            forall|n: Seq<char>, a: int, b: int| b < j ==> !#[trigger] glob_clash(gl, bound, ex, n, a, b),
        decreases scope.globs.len() - j,
    {
        assert(gl[j as int] == pv(scope.globs@[j as int]));
        match global_exports.all_pub_schemes(&scope.globs[j]) {
            None => {},
            Some(sj) => {
                let mut i: usize = 0;
                while i < j
                    invariant
                        i <= j,
                        forall|n: Seq<char>, a: int, b: int| b < j ==> !#[trigger] glob_clash(gl, bound, ex, n, a, b),
                        forall|n: Seq<char>, a: int| a < i ==> !#[trigger] glob_clash(gl, bound, ex, n, a, j as int),
                    decreases j - i,
                {
                    assert(gl[i as int] == pv(scope.globs@[i as int]));
                    if !path_eq(&scope.globs[i], &scope.globs[j]) {
                        match global_exports.all_pub_schemes(&scope.globs[i]) {
                            None => {},
                            Some(si) => {
                                let ghost keys = sj.keys_seq();
                                proof { sj.lemma_keys(); }
                                let mut k: usize = 0;
                                while k < sj.len()
                                    invariant
                                        k <= keys.len(),
                                        forall|q: Seq<char>| #[trigger] keys.take(k as int).contains(q) ==> !glob_clash(gl, bound, ex, q, i as int, j as int),
                                    decreases keys.len() - k,
                                {
                                    let (name, _) = sj.entry(k);
                                    proof {
                                        assert(keys.take(k + 1) =~= keys.take(k as int).push(name@));
                                    }
                                    if si.contains_key(name.as_str()) && !scope.explicit.contains_key(name.as_str()) {
                                        let n = name.clone();
                                        assert(glob_clash(gl, bound, ex, n@, i as int, j as int));
                                        return Some((n, i, j));
                                    }
                                    assert forall|q: Seq<char>| #[trigger] keys.take(k + 1).contains(q) implies !glob_clash(gl, bound, ex, q, i as int, j as int) by {
                                        if q != name@ {
                                            assert(keys.take(k as int).contains(q));
                                        }
                                    }
                                    k += 1;
                                }
                                assert(keys.take(keys.len() as int) =~= keys);
                            },
                        }
                    }
                    i += 1;
                }
            },
        }
        j += 1;
    }
    None
}

/// What building the import schemes of `loaded` gives (see
/// [`build_import_schemes`]), with `exports` the exports recorded so far and
/// `modules` the modules of the graph.
pub open spec fn import_schemes_outcome(
    loaded: LoadedModule,
    names: ResolvedNames,
    exports: Map<Seq<Seq<char>>, Map<Seq<char>, TypeScheme>>,
    modules: Seq<LoadedModule>,
    r: Result<StrMap<TypeScheme>, GustError>,
) -> bool {
    &&& !names.scopes_view().contains_key(pv(loaded.mod_path)) ==> (r matches Ok(env) && env.wf()
        && env.view() == Map::<Seq<char>, TypeScheme>::empty())
    &&& names.scopes_view().contains_key(pv(loaded.mod_path)) ==> ({
        let scope = names.scopes_view()[pv(loaded.mod_path)];
        let globbed = glob_schemes(Map::empty(), scope.globs, exports);
        if has_glob_clash(scope.globs, scope.explicit, exports) {
            r matches Err(e) && exists|n: Seq<char>, i: int, j: int|
                #[trigger] glob_clash(scope.globs, scope.explicit, exports, n, i, j) && import_error_at(
                    e,
                    TypeErrorCode::T0011,
                    glob_conflict_message(n, scope.globs[i], scope.globs[j]),
                    loaded,
                    scope.globs[j],
                    n,
                )
        } else {
            match explicit_schemes(
                globbed,
                names.scopes.view()[pv(loaded.mod_path)].explicit.keys_seq(),
                scope.explicit,
                exports,
                modules,
            ) {
                Ok(env) => r matches Ok(m) && m.wf() && schemes_view(m.view()) == env,
                Err((_, (code, msg, sm, sn))) => r matches Err(e) && import_error_at(e, code, msg, loaded, sm, sn),
            }
        }
    })
}

/// Build the schemes a module imports, drawn from the exports of the modules
/// checked so far: first every glob source's public schemes, then each
/// explicit import in order, overriding. A name that two different glob
/// sources both export and no explicit import binds is an import conflict
/// (`T0011`). An explicit import of a name its source module (when in the
/// graph) does not export fails with `T0009` if the name is declared there,
/// else `T0003`, at the span of the import that names it. A module without a
/// scope imports nothing.
#[verifier::loop_isolation(false)]
pub fn build_import_schemes(
    loaded: &LoadedModule,
    names: &ResolvedNames,
    global_exports: &GlobalExports,
    graph: &ModuleGraph,
) -> (r: Result<StrMap<TypeScheme>, GustError>)
    requires
        names.wf(),
        global_exports.wf(),
    ensures
        import_schemes_outcome(*loaded, *names, global_exports.view(), graph.modules@, r),
{
    let mut env: StrMap<TypeScheme> = StrMap::new();
    let scope = match names.scopes.get(&loaded.mod_path) {
        Some(s) => s,
        None => {
            assert(env.view() =~= Map::<Seq<char>, TypeScheme>::empty());
            return Ok(env);
        },
    };
    let ghost ex = global_exports.view();
    let ghost sv = scope.scope_view();
    assert(sv == names.scopes_view()[pv(loaded.mod_path)]);
    let ghost gl = sv.globs;
    // Two glob sources providing one name, unsettled by an explicit import.
    if let Some((n, i, j)) = find_glob_clash(scope, global_exports) {
        let span = find_import_span(loaded, &scope.globs[j], n.as_str());
        let a = join_path(&scope.globs[i], "::");
        let b = join_path(&scope.globs[j], "::");
        let mut msg = String::new();
        push_str(&mut msg, "import conflict: `");
        push_str(&mut msg, n.as_str());
        push_str(&mut msg, "` is imported from both `");
        push_str(&mut msg, a.as_str());
        push_str(&mut msg, "` and `");
        push_str(&mut msg, b.as_str());
        push_str(&mut msg, "`; use an explicit import to disambiguate: `import ");
        push_str(&mut msg, a.as_str());
        push_str(&mut msg, "::");
        push_str(&mut msg, n.as_str());
        push_str(&mut msg, "` or `import ");
        push_str(&mut msg, b.as_str());
        push_str(&mut msg, "::");
        push_str(&mut msg, n.as_str());
        push_str(&mut msg, "`");
        proof {
            assert(gl[i as int] == pv(scope.globs@[i as int]));
            assert(gl[j as int] == pv(scope.globs@[j as int]));
            assert(msg@ =~= glob_conflict_message(n@, gl[i as int], gl[j as int]));
        }
        let e = GustError::type_error(TypeErrorCode::T0011, msg, &span);
        assert(import_error_at(e, TypeErrorCode::T0011, glob_conflict_message(n@, gl[i as int], gl[j as int]), *loaded, gl[j as int], n@));
        return Err(e);
    }
    proof {
        assert(schemes_view(env.view()) =~= Map::<Seq<char>, (Seq<TypeVar>, InferTypeView)>::empty());
        assert(gl.take(0) =~= Seq::<Seq<Seq<char>>>::empty());
    }
    // Glob imports first: an explicit import overrides them.
    let mut g: usize = 0;
    while g < scope.globs.len()
        invariant
            g <= scope.globs.len(),
            gl == sv.globs,
            sv == scope.scope_view(),
            gl.len() == scope.globs@.len(),
            ex == global_exports.view(),
            global_exports.wf(),
            env.wf(),
            schemes_view(env.view()) == glob_schemes(Map::empty(), gl.take(g as int), ex),
        decreases scope.globs.len() - g,
    {
        proof {
            assert(gl.take(g + 1).drop_last() =~= gl.take(g as int));
            assert(gl.take(g + 1).last() == pv(scope.globs@[g as int]));
        }
        match global_exports.all_pub_schemes(&scope.globs[g]) {
            Some(all_schemes) => {
                let ghost keys = all_schemes.keys_seq();
                let ghost prev = schemes_view(env.view());
                let ghost src = schemes_view(all_schemes.view());
                proof {
                    all_schemes.lemma_keys();
                    assert(src.restrict(keys.take(0).to_set()).union_prefer_right(prev) =~= prev);
                }
                let mut k: usize = 0;
                while k < all_schemes.len()
                    invariant
                        k <= keys.len(),
                        keys == all_schemes.keys_seq(),
                        all_schemes.wf(),
                        src == schemes_view(all_schemes.view()),
                        forall|q: Seq<char>| #[trigger] all_schemes.view().contains_key(q) <==> keys.contains(q),
                        env.wf(),
                        schemes_view(env.view()) == src.restrict(keys.take(k as int).to_set()).union_prefer_right(prev),
                    decreases keys.len() - k,
                {
                    let (name, scheme) = all_schemes.entry(k);
                    let ghost before = schemes_view(env.view());
                    proof {
                        assert(keys.take(k + 1) =~= keys.take(k as int).push(name@));
                        keys.take(k as int).lemma_push_to_set_commute(name@);
                        assert(src[name@] == scheme_view(*scheme));
                    }
                    if !env.contains_key(name.as_str()) {
                        let c = scheme.clone();
                        assert(scheme_view(c) == scheme_view(*scheme));
                        env.insert(name.clone(), c);
                        proof {
                            assert(schemes_view(env.view()) =~= before.insert(name@, scheme_view(*scheme)));
                            let lhs = src.restrict(keys.take(k + 1).to_set()).union_prefer_right(prev);
                            assert(!before.contains_key(name@));
                            assert(!prev.contains_key(name@));
                            assert(src.contains_key(name@));
                            assert forall|q: Seq<char>| #[trigger] lhs.contains_key(q) == schemes_view(env.view()).contains_key(q) by {}
                            assert forall|q: Seq<char>| #[trigger] lhs.contains_key(q) implies lhs[q] == schemes_view(env.view())[q] by {
                                if q != name@ && !prev.contains_key(q) {
                                    assert(keys.take(k as int).to_set().contains(q));
                                }
                            }
                            assert(schemes_view(env.view()) =~= lhs);
                        }
                    } else {
                        proof {
                            let lhs = src.restrict(keys.take(k + 1).to_set()).union_prefer_right(prev);
                            let old_rhs = src.restrict(keys.take(k as int).to_set()).union_prefer_right(prev);
                            assert(before.contains_key(name@));
                            assert(before == old_rhs);
                            assert forall|q: Seq<char>| #[trigger] lhs.contains_key(q) == old_rhs.contains_key(q) by {
                                if q == name@ {
                                    assert(old_rhs.contains_key(q));
                                }
                            }
                            assert forall|q: Seq<char>| #[trigger] lhs.contains_key(q) implies lhs[q] == old_rhs[q] by {
                                if q == name@ && !prev.contains_key(q) {
                                    assert(keys.take(k as int).to_set().contains(q));
                                }
                            }
                            assert(lhs =~= old_rhs);
                        }
                    }
                    k += 1;
                }
                proof {
                    assert(keys.take(keys.len() as int) =~= keys);
                    assert(src.restrict(keys.to_set()) =~= src) by {
                        assert forall|q: Seq<char>| src.dom().contains(q) implies keys.to_set().contains(q) by {
                            assert(keys.contains(q));
                        }
                    }
                }
            },
            None => {},
        }
        g += 1;
    }
    assert(gl.take(gl.len() as int) =~= gl);
    // Explicit imports, in stored order.
    let ghost locals = scope.explicit.keys_seq();
    let ghost bindings = sv.explicit;
    let ghost globbed = schemes_view(env.view());
    proof {
        scope.explicit.lemma_keys();
        assert(locals.take(0) =~= Seq::<Seq<char>>::empty());
    }
    let mut j: usize = 0;
    while j < scope.explicit.len()
        invariant
            j <= locals.len(),
            locals == scope.explicit.keys_seq(),
            bindings == sv.explicit,
            sv == scope.scope_view(),
            scope.wf(),
            forall|q: Seq<char>| #[trigger] scope.explicit.view().contains_key(q) <==> locals.contains(q),
            ex == global_exports.view(),
            global_exports.wf(),
            env.wf(),
            explicit_schemes(globbed, locals.take(j as int), bindings, ex, graph.modules@) == Ok::<
                Map<Seq<char>, (Seq<TypeVar>, InferTypeView)>,
                (int, (TypeErrorCode, Seq<char>, Seq<Seq<char>>, Seq<char>)),
            >(schemes_view(env.view())),
        decreases locals.len() - j,
    {
        let (local_name, binding) = scope.explicit.entry(j);
        proof {
            assert(locals.take(j + 1).drop_last() =~= locals.take(j as int));
            assert(locals.take(j + 1).last() == local_name@);
            assert(bindings[local_name@] == binding@);
        }
        match global_exports.get_scheme(&binding.source_module, binding.source_name.as_str()) {
            Some(scheme) => {
                let ghost before = schemes_view(env.view());
                env.insert(local_name.clone(), scheme.clone());
                assert(schemes_view(env.view()) =~= before.insert(local_name@, scheme_view(*scheme)));
            },
            None => {
                proof { lemma_first_module(graph.modules@, pv(binding.source_module)); }
                match find_module(&graph.modules, &binding.source_module) {
                    Some(m) => {
                        let span = find_import_span(loaded, &binding.source_module, binding.source_name.as_str());
                        let joined = join_path(&binding.source_module, "::");
                        let mut msg = String::new();
                        let code = if decl_exists(&graph.modules[m].program.decls, binding.source_name.as_str()) {
                            push_str(&mut msg, "visibility error: `");
                            push_str(&mut msg, binding.source_name.as_str());
                            push_str(&mut msg, "` is not public in module `");
                            push_str(&mut msg, joined.as_str());
                            push_str(&mut msg, "`");
                            TypeErrorCode::T0009
                        } else {
                            push_str(&mut msg, "cannot import `");
                            push_str(&mut msg, binding.source_name.as_str());
                            push_str(&mut msg, "` from module `");
                            push_str(&mut msg, joined.as_str());
                            push_str(&mut msg, "`: name does not exist");
                            TypeErrorCode::T0003
                        };
                        proof {
                            lemma_explicit_err_extends(globbed, locals, bindings, ex, graph.modules@, j + 1);
                        }
                        return Err(GustError::type_error(code, msg, &span));
                    },
                    None => {},
                }
            },
        }
        j += 1;
    }
    assert(locals.take(locals.len() as int) =~= locals);
    Ok(env)
}


/// `b`'s source module exports its source name.
pub open spec fn exported(b: BindingView, exports: Map<Seq<Seq<char>>, Map<Seq<char>, TypeScheme>>) -> bool {
    exports.contains_key(b.source_module) && exports[b.source_module].contains_key(b.source_name)
}

/// Explicit imports are resolved in order against the exports: when they
/// all succeed, each local name imported from a module that exports its
/// source name has that export's scheme, whatever the glob imports gave
/// it, and no import of a name that is not exported was refused by the
/// graph; otherwise the error is that of the first import whose source
/// name is not exported and whose module the graph holds (`T0009` when the
/// module declares the name privately, else `T0003`).
pub proof fn law_explicit_imports(
    env: Map<Seq<char>, (Seq<TypeVar>, InferTypeView)>,
    locals: Seq<Seq<char>>,
    bindings: Map<Seq<char>, BindingView>,
    exports: Map<Seq<Seq<char>>, Map<Seq<char>, TypeScheme>>,
    graph: Seq<LoadedModule>,
)
    requires
        locals.no_duplicates(),
    ensures
        match explicit_schemes(env, locals, bindings, exports, graph) {
            Ok(out) => forall|i: int| 0 <= i < locals.len() ==> {
                let b = #[trigger] bindings[locals[i]];
                &&& exported(b, exports) ==> out.contains_key(locals[i]) && out[locals[i]] == scheme_view(
                    exports[b.source_module][b.source_name],
                )
                &&& !exported(b, exports) ==> explicit_failure(b, locals[i], exports, graph) is None
            },
            Err((k, f)) => {
                &&& 0 <= k < locals.len()
                &&& !exported(bindings[locals[k]], exports)
                &&& explicit_failure(bindings[locals[k]], locals[k], exports, graph) == Some(f)
                &&& forall|i: int| 0 <= i < k ==> (!exported(#[trigger] bindings[locals[i]], exports) ==> explicit_failure(
                    bindings[locals[i]],
                    locals[i],
                    exports,
                    graph,
                ) is None)
            },
        },
    decreases locals.len(),
{
    if locals.len() > 0 {
        let init = locals.drop_last();
        assert(init.no_duplicates());
        law_explicit_imports(env, init, bindings, exports, graph);
        let l = locals.last();
        assert forall|i: int| 0 <= i < init.len() implies init[i] != l by {
            assert(locals[i] == init[i]);
        }
        assert forall|i: int| 0 <= i < init.len() implies locals[i] == init[i] by {}
    }
}

} // verus!
