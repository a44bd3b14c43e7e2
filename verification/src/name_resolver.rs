//! Name resolution across modules: which names each module's imports bind,
//! which modules its glob imports search, and which names it re-exports.

use vstd::prelude::*;

use crate::ast::{DeclHeader, DeclKind, ExportDecl, ImportDecl, ImportTree, PathRoot, Span, Visibility};
use crate::error::{is_type_error, GustError, TypeErrorCode};
use crate::module_loader::{LoadedModule, ModuleGraph};
use crate::pathmap::{clone_path, join_path, join_spec, path_eq, pv, PathMap};
use crate::strmap::StrMap;
use crate::text::push_str;

verus! {

broadcast use vstd::string::group_string_axioms;

// ── Bindings and scopes ──────────────────────────────────────────────────────

/// What an imported name stands for.
#[derive(Debug, Clone, Copy, PartialEq, Eq, Structural)]
pub enum BindingKind {
    /// A specific item (type, function, constant, …).
    Item,
    /// A whole module imported as a handle (`import std::math;` → `math::sin()`).
    Module,
}

/// A single resolved import binding within a module's scope.
#[derive(Debug)]
pub struct ImportBinding {
    /// Canonical module path of the module that provides this name.
    pub source_module: Vec<String>,
    /// The name as declared in the source module.
    pub source_name: String,
    pub kind: BindingKind,
}

/// Mathematical model of an [`ImportBinding`].
pub struct BindingView {
    pub source_module: Seq<Seq<char>>,
    pub source_name: Seq<char>,
    pub kind: BindingKind,
}

impl View for ImportBinding {
    type V = BindingView;

    open spec fn view(&self) -> BindingView {
        BindingView {
            source_module: pv(self.source_module),
            source_name: self.source_name@,
            kind: self.kind,
        }
    }
}

impl Clone for ImportBinding {
    fn clone(&self) -> (r: Self)
        ensures
            r@ == self@,
    {
        ImportBinding {
            source_module: clone_path(&self.source_module),
            source_name: self.source_name.clone(),
            kind: self.kind,
        }
    }
}

/// The models of the bindings of a map.
pub open spec fn bindings_view(m: Map<Seq<char>, ImportBinding>) -> Map<Seq<char>, BindingView> {
    m.map_values(|b: ImportBinding| b@)
}

/// The models of a list of module paths.
pub open spec fn paths_view(ps: Seq<Vec<String>>) -> Seq<Seq<Seq<char>>> {
    ps.map_values(|p: Vec<String>| pv(p))
}

/// The resolved import scope for a single module.
#[derive(Debug)]
pub struct ModuleScope {
    pub mod_path: Vec<String>,
    /// Explicit bindings: local_name → ImportBinding.
    /// Two explicit bindings with the same local_name are a compile error.
    pub explicit: StrMap<ImportBinding>,
    /// Glob-imported module paths (`import path::*`).
    /// Names from these modules are in scope at lower priority than explicit imports.
    pub globs: Vec<Vec<String>>,
    /// Re-exported names: local_name → source binding.
    /// These names are part of this module's public API surface for callers.
    pub re_exports: StrMap<ImportBinding>,
}

/// Mathematical model of a [`ModuleScope`].
pub struct ScopeView {
    pub mod_path: Seq<Seq<char>>,
    pub explicit: Map<Seq<char>, BindingView>,
    pub globs: Seq<Seq<Seq<char>>>,
    pub re_exports: Map<Seq<char>, BindingView>,
}

impl ModuleScope {
    /// Both maps are well formed.
    pub open spec fn wf(&self) -> bool {
        self.explicit.wf() && self.re_exports.wf()
    }

    pub open spec fn explicit_view(&self) -> Map<Seq<char>, BindingView> {
        bindings_view(self.explicit.view())
    }

    pub open spec fn globs_view(&self) -> Seq<Seq<Seq<char>>> {
        paths_view(self.globs@)
    }

    pub open spec fn re_exports_view(&self) -> Map<Seq<char>, BindingView> {
        bindings_view(self.re_exports.view())
    }

    pub open spec fn scope_view(&self) -> ScopeView {
        ScopeView {
            mod_path: pv(self.mod_path),
            explicit: self.explicit_view(),
            globs: self.globs_view(),
            re_exports: self.re_exports_view(),
        }
    }
}

/// The answer of a scope to a name.
pub enum ScopeLookup<'a> {
    Explicit(&'a ImportBinding),
    /// The name was not explicitly imported; these glob sources may provide it.
    MaybeGlob(&'a Vec<Vec<String>>),
}

impl ModuleScope {
    /// Look up a local name in this scope.
    /// Returns the explicit binding if one exists, or the glob source modules
    /// that may provide the name (for deferred ambiguity checking).
    pub fn lookup(&self, name: &str) -> (r: ScopeLookup<'_>)
        requires
            self.wf(),
        ensures
            self.explicit_view().contains_key(name@) ==> (r matches ScopeLookup::Explicit(b)
                && b@ == self.explicit_view()[name@]),
            !self.explicit_view().contains_key(name@) ==> (r matches ScopeLookup::MaybeGlob(g)
                && paths_view(g@) == self.globs_view()),
    {
        match self.explicit.get(name) {
            Some(binding) => ScopeLookup::Explicit(binding),
            None => ScopeLookup::MaybeGlob(&self.globs),
        }
    }
}

// ── Paths ────────────────────────────────────────────────────────────────────

/// The absolute module path a path root stands for, seen from the module
/// `current`: `root` is the root module, `std` the standard library, `self`
/// the module itself, `super` its parent (the root has none and stays
/// itself), and a name `n` the child `current::n`.
pub open spec fn absolute_base_spec(root: PathRoot, current: Seq<Seq<char>>) -> Seq<Seq<char>> {
    match root {
        PathRoot::Root => Seq::empty(),
        PathRoot::Std => seq!["std"@],
        PathRoot::Self_ => current,
        PathRoot::Super => if current.len() == 0 {
            Seq::empty()
        } else {
            current.drop_last()
        },
        PathRoot::Name(n) => current.push(n@),
    }
}

/// The absolute module path a path root stands for (see [`absolute_base_spec`]).
pub fn absolute_base(root: &PathRoot, current: &Vec<String>) -> (r: Vec<String>)
    ensures
        pv(r) == absolute_base_spec(*root, pv(*current)),
{
    match root {
        PathRoot::Root => {
            let v: Vec<String> = Vec::new();
            assert(pv(v) =~= Seq::<Seq<char>>::empty());
            v
        },
        PathRoot::Std => {
            let mut v: Vec<String> = Vec::new();
            v.push("std".to_string());
            assert(pv(v) =~= seq!["std"@]);
            v
        },
        PathRoot::Self_ => clone_path(current),
        PathRoot::Super => {
            let mut v: Vec<String> = clone_path(current);
            if v.len() > 0 {
                let ghost before = v;
                v.pop();
                assert(pv(v) =~= pv(before).drop_last());
            }
            v
        },
        PathRoot::Name(n) => {
            let mut v: Vec<String> = clone_path(current);
            let ghost before = v;
            v.push(n.clone());
            assert(pv(v) =~= pv(before).push(n@));
            v
        },
    }
}

/// The module paths of `ks`, as a set.
pub open spec fn known_set(ks: Seq<Vec<String>>) -> Set<Seq<Seq<char>>> {
    Set::new(|p: Seq<Seq<char>>| exists|i: int| 0 <= i < ks.len() && pv(#[trigger] ks[i]) == p)
}

/// Whether `p` is one of the module paths `ks`.
fn path_in(ks: &Vec<Vec<String>>, p: &Vec<String>) -> (r: bool)
    ensures
        r == known_set(ks@).contains(pv(*p)),
{
    let mut i: usize = 0;
    while i < ks.len()
        invariant
            i <= ks.len(),
            forall|j: int| 0 <= j < i ==> pv(#[trigger] ks@[j]) != pv(*p),
        decreases ks.len() - i,
    {
        if path_eq(&ks[i], p) {
            return true;
        }
        i += 1;
    }
    false
}

/// `base` followed by the name `name`.
fn child_path(base: &Vec<String>, name: &String) -> (r: Vec<String>)
    ensures
        pv(r) == pv(*base).push(name@),
{
    let mut v = clone_path(base);
    let ghost before = v;
    v.push(name.clone());
    assert(pv(v) =~= pv(before).push(name@));
    v
}

// ── Imports ──────────────────────────────────────────────────────────────────

/// The local name of an imported name: its alias if it has one.
pub open spec fn local_name(name: Seq<char>, alias: Option<String>) -> Seq<char> {
    match alias {
        Some(a) => a@,
        None => name,
    }
}

/// The binding of `name` imported from `base`: a module handle when
/// `base::name` is a known module, else an item of `base`. Whether the item
/// exists and is public is checked later, by the typechecker.
pub open spec fn name_binding(base: Seq<Seq<char>>, name: Seq<char>, known: Set<Seq<Seq<char>>>) -> BindingView {
    if known.contains(base.push(name)) {
        BindingView { source_module: base.push(name), source_name: name, kind: BindingKind::Module }
    } else {
        BindingView { source_module: base, source_name: name, kind: BindingKind::Item }
    }
}

/// Two explicit imports of one local name.
pub struct Conflict {
    pub local: Seq<char>,
    pub existing: BindingView,
    pub new: BindingView,
}

/// The message of an import conflict.
pub open spec fn conflict_message(c: Conflict) -> Seq<char> {
    let e = join_spec(c.existing.source_module, "::"@);
    let n = join_spec(c.new.source_module, "::"@);
    "import conflict: `"@ + c.local + "` is imported from both `"@ + e + "` and `"@ + n
        + "`; use an explicit import to disambiguate: `import "@ + e + "::"@ + c.existing.source_name
        + "` or `import "@ + n + "::"@ + c.new.source_name + "`"@
}

/// The explicit bindings and glob sources after importing `tree` under
/// `base` into a scope holding `ex` and `globs`, or the first conflict.
pub open spec fn import_tree_spec(
    ex: Map<Seq<char>, BindingView>,
    globs: Seq<Seq<Seq<char>>>,
    base: Seq<Seq<char>>,
    tree: &ImportTree,
    known: Set<Seq<Seq<char>>>,
) -> Result<(Map<Seq<char>, BindingView>, Seq<Seq<Seq<char>>>), Conflict>
    decreases tree, 0nat,
{
    match tree {
        ImportTree::Glob => Ok((ex, globs.push(base))),
        ImportTree::Name { name, alias } => {
            let local = local_name(name@, *alias);
            let b = name_binding(base, name@, known);
            if ex.contains_key(local) {
                Err(Conflict { local, existing: ex[local], new: b })
            } else {
                Ok((ex.insert(local, b), globs))
            }
        },
        ImportTree::Path { name, tree } => import_tree_spec(ex, globs, base.push(name@), tree, known),
        ImportTree::Group(items) => import_group_spec(ex, globs, base, items@, known),
    }
}

/// [`import_tree_spec`] over the trees of a group, in order.
pub open spec fn import_group_spec(
    ex: Map<Seq<char>, BindingView>,
    globs: Seq<Seq<Seq<char>>>,
    base: Seq<Seq<char>>,
    items: Seq<ImportTree>,
    known: Set<Seq<Seq<char>>>,
) -> Result<(Map<Seq<char>, BindingView>, Seq<Seq<Seq<char>>>), Conflict>
    decreases items, 1nat,
{
    if items.len() == 0 {
        Ok((ex, globs))
    } else {
        match import_group_spec(ex, globs, base, items.drop_last(), known) {
            Ok((e2, g2)) => import_tree_spec(e2, g2, base, &items.last(), known),
            Err(c) => Err(c),
        }
    }
}

proof fn lemma_group_err_extends(
    ex: Map<Seq<char>, BindingView>,
    globs: Seq<Seq<Seq<char>>>,
    base: Seq<Seq<char>>,
    items: Seq<ImportTree>,
    known: Set<Seq<Seq<char>>>,
    k: int,
)
    requires
        0 <= k <= items.len(),
        import_group_spec(ex, globs, base, items.take(k), known) is Err,
    ensures
        import_group_spec(ex, globs, base, items, known) == import_group_spec(ex, globs, base, items.take(k), known),
    decreases items.len(),
{
    if k == items.len() {
        assert(items.take(k) =~= items);
    } else {
        assert(items.drop_last().take(k) =~= items.take(k));
        lemma_group_err_extends(ex, globs, base, items.drop_last(), known, k);
    }
}

/// Adds one explicit binding, refusing a second binding of the same local name.
pub fn add_explicit(scope: &mut ModuleScope, local: String, binding: ImportBinding, span: &Span) -> (r: Result<(), GustError>)
    requires
        old(scope).wf(),
    ensures
        final(scope).wf(),
        final(scope).mod_path == old(scope).mod_path,
        final(scope).globs == old(scope).globs,
        final(scope).re_exports == old(scope).re_exports,
        old(scope).explicit_view().contains_key(local@) ==> (r matches Err(e) && is_type_error(
            e,
            TypeErrorCode::T0011,
            conflict_message(Conflict { local: local@, existing: old(scope).explicit_view()[local@], new: binding@ }),
            *span,
        ) && final(scope).explicit_view() == old(scope).explicit_view()),
        !old(scope).explicit_view().contains_key(local@) ==> r is Ok && final(scope).explicit_view()
            == old(scope).explicit_view().insert(local@, binding@),
{
    match scope.explicit.get(local.as_str()) {
        Some(existing) => {
            let e = join_path(&existing.source_module, "::");
            let n = join_path(&binding.source_module, "::");
            let mut msg = String::new();
            push_str(&mut msg, "import conflict: `");
            push_str(&mut msg, local.as_str());
            push_str(&mut msg, "` is imported from both `");
            push_str(&mut msg, e.as_str());
            push_str(&mut msg, "` and `");
            push_str(&mut msg, n.as_str());
            push_str(&mut msg, "`; use an explicit import to disambiguate: `import ");
            push_str(&mut msg, e.as_str());
            push_str(&mut msg, "::");
            push_str(&mut msg, existing.source_name.as_str());
            push_str(&mut msg, "` or `import ");
            push_str(&mut msg, n.as_str());
            push_str(&mut msg, "::");
            push_str(&mut msg, binding.source_name.as_str());
            push_str(&mut msg, "`");
            proof {
                let c = Conflict { local: local@, existing: old(scope).explicit_view()[local@], new: binding@ };
                assert(msg@ =~= conflict_message(c));
            }
            Err(GustError::type_error(TypeErrorCode::T0011, msg, span))
        },
        None => {
            let ghost b = binding@;
            scope.explicit.insert(local, binding);
            proof {
                assert(final(scope).explicit_view() =~= old(scope).explicit_view().insert(local@, b));
            }
            Ok(())
        },
    }
}

/// Imports `tree` under `base` into `scope` (see [`import_tree_spec`]).
fn process_tree(
    base: &Vec<String>,
    tree: &ImportTree,
    known: &Vec<Vec<String>>,
    scope: &mut ModuleScope,
    span: &Span,
) -> (r: Result<(), GustError>)
    requires
        old(scope).wf(),
    ensures
        final(scope).wf(),
        final(scope).mod_path == old(scope).mod_path,
        final(scope).re_exports == old(scope).re_exports,
        match import_tree_spec(old(scope).explicit_view(), old(scope).globs_view(), pv(*base), tree, known_set(known@)) {
            Ok((ex, gs)) => r is Ok && final(scope).explicit_view() == ex && final(scope).globs_view() == gs,
            Err(c) => r matches Err(e) && is_type_error(e, TypeErrorCode::T0011, conflict_message(c), *span),
        },
    decreases tree, 0nat,
{
    match tree {
        ImportTree::Glob => {
            let ghost g0 = scope.globs;
            scope.globs.push(clone_path(base));
            assert(scope.globs_view() =~= paths_view(g0@).push(pv(*base)));
            Ok(())
        },
        ImportTree::Name { name, alias } => {
            let local = match alias {
                Some(a) => a.clone(),
                None => name.clone(),
            };
            let cand = child_path(base, name);
            let binding = if path_in(known, &cand) {
                ImportBinding { source_module: cand, source_name: name.clone(), kind: BindingKind::Module }
            } else {
                ImportBinding { source_module: clone_path(base), source_name: name.clone(), kind: BindingKind::Item }
            };
            assert(binding@ == name_binding(pv(*base), name@, known_set(known@)));
            add_explicit(scope, local, binding, span)
        },
        ImportTree::Path { name, tree: rest } => {
            let new_base = child_path(base, name);
            process_tree(&new_base, rest, known, scope, span)
        },
        ImportTree::Group(items) => process_group(base, items, known, scope, span),
    }
}

/// Imports each tree of a group in order (see [`import_group_spec`]).
fn process_group(
    base: &Vec<String>,
    items: &Vec<ImportTree>,
    known: &Vec<Vec<String>>,
    scope: &mut ModuleScope,
    span: &Span,
) -> (r: Result<(), GustError>)
    requires
        old(scope).wf(),
    ensures
        final(scope).wf(),
        final(scope).mod_path == old(scope).mod_path,
        final(scope).re_exports == old(scope).re_exports,
        match import_group_spec(old(scope).explicit_view(), old(scope).globs_view(), pv(*base), items@, known_set(known@)) {
            Ok((ex, gs)) => r is Ok && final(scope).explicit_view() == ex && final(scope).globs_view() == gs,
            Err(c) => r matches Err(e) && is_type_error(e, TypeErrorCode::T0011, conflict_message(c), *span),
        },
    decreases items, 1nat,
{
    let ghost ex0 = scope.explicit_view();
    let ghost g0 = scope.globs_view();
    let ghost b = pv(*base);
    let ghost k = known_set(known@);
    assert(items@.take(0) =~= Seq::<ImportTree>::empty());
    let mut i: usize = 0;
    while i < items.len()
        invariant
            i <= items.len(),
            scope.wf(),
            scope.mod_path == old(scope).mod_path,
            scope.re_exports == old(scope).re_exports,
            ex0 == old(scope).explicit_view(),
            g0 == old(scope).globs_view(),
            b == pv(*base),
            k == known_set(known@),
            import_group_spec(ex0, g0, b, items@.take(i as int), k) == Ok::<
                (Map<Seq<char>, BindingView>, Seq<Seq<Seq<char>>>),
                Conflict,
            >((scope.explicit_view(), scope.globs_view())),
        decreases items.len() - i,
    {
        assert(items@.take(i + 1).drop_last() =~= items@.take(i as int));
        assert(items@.take(i + 1).last() == items@[i as int]);
        let res = process_tree(base, &items[i], known, scope, span);
        match res {
            Ok(()) => {},
            Err(e) => {
                proof {
                    lemma_group_err_extends(ex0, g0, b, items@, k, i + 1);
                }
                return Err(e);
            },
        }
        i += 1;
    }
    assert(items@.take(items.len() as int) =~= items@);
    Ok(())
}

// ── Re-exports ───────────────────────────────────────────────────────────────

/// The public names of each module, as far as they are known.
pub open spec fn surface_view(s: Map<Seq<Seq<char>>, StrMap<()>>) -> Map<Seq<Seq<char>>, Set<Seq<char>>> {
    s.map_values(|n: StrMap<()>| n.view().dom())
}

/// Every name set of a surface map is well formed.
pub open spec fn surface_wf(s: &PathMap<StrMap<()>>) -> bool {
    &&& s.wf()
    &&& forall|p: Seq<Seq<char>>| #[trigger] s.view().contains_key(p) ==> s.view()[p].wf()
}

/// The item bindings of every name of `names` in the module `base`.
pub open spec fn glob_bindings(base: Seq<Seq<char>>, names: Set<Seq<char>>) -> Map<Seq<char>, BindingView> {
    Map::new(
        |n: Seq<char>| names.contains(n),
        |n: Seq<char>| BindingView { source_module: base, source_name: n, kind: BindingKind::Item },
    )
}

/// A re-export of a name that its module does not make public.
pub struct ExportError {
    pub name: Seq<char>,
    pub base: Seq<Seq<char>>,
}

/// The message of a refused re-export.
pub open spec fn export_message(x: ExportError) -> Seq<char> {
    "visibility error: cannot re-export `"@ + x.name + "` — it is not public in module `"@
        + join_spec(x.base, "::"@) + "`"@
}

/// The re-exports after exporting `tree` under `base` into `re`, or the
/// first refused name. A glob re-exports every public name of `base`; a
/// name re-exports a module handle when `base::name` is a known module, else
/// the item, which must be public in `base` when `base`'s names are known.
pub open spec fn export_tree_spec(
    re: Map<Seq<char>, BindingView>,
    base: Seq<Seq<char>>,
    tree: &ImportTree,
    known: Set<Seq<Seq<char>>>,
    surface: Map<Seq<Seq<char>>, Set<Seq<char>>>,
) -> Result<Map<Seq<char>, BindingView>, ExportError>
    decreases tree, 0nat,
{
    match tree {
        ImportTree::Glob => Ok(
            if surface.contains_key(base) {
                re.union_prefer_right(glob_bindings(base, surface[base]))
            } else {
                re
            },
        ),
        ImportTree::Name { name, alias } => {
            let local = local_name(name@, *alias);
            if known.contains(base.push(name@)) {
                Ok(re.insert(local, BindingView { source_module: base.push(name@), source_name: name@, kind: BindingKind::Module }))
            } else if surface.contains_key(base) && !surface[base].contains(name@) {
                Err(ExportError { name: name@, base })
            } else {
                Ok(re.insert(local, BindingView { source_module: base, source_name: name@, kind: BindingKind::Item }))
            }
        },
        ImportTree::Path { name, tree } => export_tree_spec(re, base.push(name@), tree, known, surface),
        ImportTree::Group(items) => export_group_spec(re, base, items@, known, surface),
    }
}

/// [`export_tree_spec`] over the trees of a group, in order.
pub open spec fn export_group_spec(
    re: Map<Seq<char>, BindingView>,
    base: Seq<Seq<char>>,
    items: Seq<ImportTree>,
    known: Set<Seq<Seq<char>>>,
    surface: Map<Seq<Seq<char>>, Set<Seq<char>>>,
) -> Result<Map<Seq<char>, BindingView>, ExportError>
    decreases items, 1nat,
{
    if items.len() == 0 {
        Ok(re)
    } else {
        match export_group_spec(re, base, items.drop_last(), known, surface) {
            Ok(r2) => export_tree_spec(r2, base, &items.last(), known, surface),
            Err(x) => Err(x),
        }
    }
}

/// The re-export map that exporting `tree` leaves behind: what
/// [`export_tree_spec`] gives when every name may be re-exported, and, at a
/// refused name, the map as it stood when that name was reached.
pub open spec fn export_tree_left(
    re: Map<Seq<char>, BindingView>,
    base: Seq<Seq<char>>,
    tree: &ImportTree,
    known: Set<Seq<Seq<char>>>,
    surface: Map<Seq<Seq<char>>, Set<Seq<char>>>,
) -> Map<Seq<char>, BindingView>
    decreases tree, 0nat,
{
    match tree {
        ImportTree::Path { name, tree } => export_tree_left(re, base.push(name@), tree, known, surface),
        ImportTree::Group(items) => export_group_left(re, base, items@, known, surface),
        _ => match export_tree_spec(re, base, tree, known, surface) {
            Ok(m) => m,
            Err(_) => re,
        },
    }
}

/// [`export_tree_left`] over the trees of a group, in order.
pub open spec fn export_group_left(
    re: Map<Seq<char>, BindingView>,
    base: Seq<Seq<char>>,
    items: Seq<ImportTree>,
    known: Set<Seq<Seq<char>>>,
    surface: Map<Seq<Seq<char>>, Set<Seq<char>>>,
) -> Map<Seq<char>, BindingView>
    decreases items, 1nat,
{
    if items.len() == 0 {
        re
    } else {
        match export_group_spec(re, base, items.drop_last(), known, surface) {
            Ok(r2) => export_tree_left(r2, base, &items.last(), known, surface),
            Err(_) => export_group_left(re, base, items.drop_last(), known, surface),
        }
    }
}

proof fn lemma_export_group_left_err_extends(
    re: Map<Seq<char>, BindingView>,
    base: Seq<Seq<char>>,
    items: Seq<ImportTree>,
    known: Set<Seq<Seq<char>>>,
    surface: Map<Seq<Seq<char>>, Set<Seq<char>>>,
    k: int,
)
    requires
        0 <= k <= items.len(),
        export_group_spec(re, base, items.take(k), known, surface) is Err,
    ensures
        export_group_left(re, base, items, known, surface) == export_group_left(re, base, items.take(k), known, surface),
    decreases items.len(),
{
    if k == items.len() {
        assert(items.take(k) =~= items);
    } else {
        assert(items.drop_last().take(k) =~= items.take(k));
        lemma_export_group_err_extends(re, base, items.drop_last(), known, surface, k);
        lemma_export_group_left_err_extends(re, base, items.drop_last(), known, surface, k);
    }
}

proof fn lemma_export_group_err_extends(
    re: Map<Seq<char>, BindingView>,
    base: Seq<Seq<char>>,
    items: Seq<ImportTree>,
    known: Set<Seq<Seq<char>>>,
    surface: Map<Seq<Seq<char>>, Set<Seq<char>>>,
    k: int,
)
    requires
        0 <= k <= items.len(),
        export_group_spec(re, base, items.take(k), known, surface) is Err,
    ensures
        export_group_spec(re, base, items, known, surface) == export_group_spec(re, base, items.take(k), known, surface),
    decreases items.len(),
{
    if k == items.len() {
        assert(items.take(k) =~= items);
    } else {
        assert(items.drop_last().take(k) =~= items.take(k));
        lemma_export_group_err_extends(re, base, items.drop_last(), known, surface, k);
    }
}

/// Stores `b` under `k` in a binding map.
fn insert_binding(re: &mut StrMap<ImportBinding>, k: String, b: ImportBinding)
    requires
        old(re).wf(),
    ensures
        final(re).wf(),
        bindings_view(final(re).view()) == bindings_view(old(re).view()).insert(k@, b@),
{
    let ghost kv = k@;
    let ghost bv = b@;
    re.insert(k, b);
    assert(bindings_view(re.view()) =~= bindings_view(old(re).view()).insert(kv, bv));
}

/// Re-exports every public name of `base` (the glob case).
fn export_all(base: &Vec<String>, names: &StrMap<()>, re: &mut StrMap<ImportBinding>)
    requires
        old(re).wf(),
        names.wf(),
    ensures
        final(re).wf(),
        bindings_view(final(re).view()) == bindings_view(old(re).view()).union_prefer_right(
            glob_bindings(pv(*base), names.view().dom()),
        ),
{
    let ghost re0 = bindings_view(re.view());
    let ghost keys = names.keys_seq();
    proof {
        names.lemma_keys();
        assert(glob_bindings(pv(*base), keys.take(0).to_set()) =~= Map::<Seq<char>, BindingView>::empty());
        assert(re0.union_prefer_right(Map::<Seq<char>, BindingView>::empty()) =~= re0);
    }
    let mut j: usize = 0;
    while j < names.len()
        invariant
            j <= keys.len(),
            keys == names.keys_seq(),
            names.wf(),
            re.wf(),
            bindings_view(re.view()) == re0.union_prefer_right(glob_bindings(pv(*base), keys.take(j as int).to_set())),
        decreases keys.len() - j,
    {
        let (n, _) = names.entry(j);
        let ghost before = bindings_view(re.view());
        insert_binding(re, n.clone(), ImportBinding { source_module: clone_path(base), source_name: n.clone(), kind: BindingKind::Item });
        proof {
            let bv = BindingView { source_module: pv(*base), source_name: n@, kind: BindingKind::Item };
            assert(keys.take(j + 1).to_set() =~= keys.take(j as int).to_set().insert(n@)) by {
                assert(keys.take(j + 1) =~= keys.take(j as int).push(n@));
                keys.take(j as int).lemma_push_to_set_commute(n@);
            }
            assert(glob_bindings(pv(*base), keys.take(j + 1).to_set()) =~= glob_bindings(pv(*base), keys.take(j as int).to_set()).insert(n@, bv));
            assert(bindings_view(re.view()) =~= re0.union_prefer_right(glob_bindings(pv(*base), keys.take(j + 1).to_set())));
        }
        j += 1;
    }
    proof {
        assert(keys.take(keys.len() as int) =~= keys);
        assert(keys.to_set() =~= names.view().dom()) by {
            assert forall|n: Seq<char>| keys.to_set().contains(n) <==> names.view().dom().contains(n) by {
                if keys.to_set().contains(n) {
                    assert(keys.contains(n));
                }
                if names.view().dom().contains(n) {
                    assert(keys.contains(n));
                }
            }
        }
    }
}

/// Exports `tree` under `base` into `re` (see [`export_tree_spec`]).
fn process_export_tree(
    base: &Vec<String>,
    tree: &ImportTree,
    known: &Vec<Vec<String>>,
    surface: &PathMap<StrMap<()>>,
    re: &mut StrMap<ImportBinding>,
    span: &Span,
) -> (r: Result<(), GustError>)
    requires
        old(re).wf(),
        surface_wf(surface),
    ensures
        final(re).wf(),
        match export_tree_spec(bindings_view(old(re).view()), pv(*base), tree, known_set(known@), surface_view(surface.view())) {
            Ok(m) => r is Ok && bindings_view(final(re).view()) == m,
            Err(x) => r matches Err(e) && is_type_error(e, TypeErrorCode::T0009, export_message(x), *span),
        },
        bindings_view(final(re).view()) == export_tree_left(
            bindings_view(old(re).view()),
            pv(*base),
            tree,
            known_set(known@),
            surface_view(surface.view()),
        ),
    decreases tree, 0nat,
{
    match tree {
        ImportTree::Glob => {
            match surface.get(base) {
                Some(names) => {
                    export_all(base, names, re);
                },
                None => {},
            }
            Ok(())
        },
        ImportTree::Name { name, alias } => {
            let local = match alias {
                Some(a) => a.clone(),
                None => name.clone(),
            };
            let cand = child_path(base, name);
            if path_in(known, &cand) {
                insert_binding(re, local, ImportBinding { source_module: cand, source_name: name.clone(), kind: BindingKind::Module });
                return Ok(());
            }
            match surface.get(base) {
                Some(names) => {
                    if !names.contains_key(name.as_str()) {
                        let mut msg = String::new();
                        push_str(&mut msg, "visibility error: cannot re-export `");
                        push_str(&mut msg, name.as_str());
                        push_str(&mut msg, "` — it is not public in module `");
                        let joined = join_path(base, "::");
                        push_str(&mut msg, joined.as_str());
                        push_str(&mut msg, "`");
                        assert(msg@ =~= export_message(ExportError { name: name@, base: pv(*base) }));
                        return Err(GustError::type_error(TypeErrorCode::T0009, msg, span));
                    }
                },
                None => {},
            }
            insert_binding(re, local, ImportBinding { source_module: clone_path(base), source_name: name.clone(), kind: BindingKind::Item });
            Ok(())
        },
        ImportTree::Path { name, tree: rest } => {
            let new_base = child_path(base, name);
            process_export_tree(&new_base, rest, known, surface, re, span)
        },
        ImportTree::Group(items) => process_export_group(base, items, known, surface, re, span),
    }
}

/// Exports each tree of a group in order (see [`export_group_spec`]).
fn process_export_group(
    base: &Vec<String>,
    items: &Vec<ImportTree>,
    known: &Vec<Vec<String>>,
    surface: &PathMap<StrMap<()>>,
    re: &mut StrMap<ImportBinding>,
    span: &Span,
) -> (r: Result<(), GustError>)
    requires
        old(re).wf(),
        surface_wf(surface),
    ensures
        final(re).wf(),
        match export_group_spec(bindings_view(old(re).view()), pv(*base), items@, known_set(known@), surface_view(surface.view())) {
            Ok(m) => r is Ok && bindings_view(final(re).view()) == m,
            Err(x) => r matches Err(e) && is_type_error(e, TypeErrorCode::T0009, export_message(x), *span),
        },
        bindings_view(final(re).view()) == export_group_left(
            bindings_view(old(re).view()),
            pv(*base),
            items@,
            known_set(known@),
            surface_view(surface.view()),
        ),
    decreases items, 1nat,
{
    let ghost re0 = bindings_view(re.view());
    let ghost b = pv(*base);
    let ghost k = known_set(known@);
    let ghost sv = surface_view(surface.view());
    assert(items@.take(0) =~= Seq::<ImportTree>::empty());
    let mut i: usize = 0;
    while i < items.len()
        invariant
            i <= items.len(),
            re.wf(),
            surface_wf(surface),
            re0 == bindings_view(old(re).view()),
            b == pv(*base),
            k == known_set(known@),
            sv == surface_view(surface.view()),
            export_group_spec(re0, b, items@.take(i as int), k, sv) == Ok::<Map<Seq<char>, BindingView>, ExportError>(
                bindings_view(re.view()),
            ),
            export_group_left(re0, b, items@.take(i as int), k, sv) == bindings_view(re.view()),
        decreases items.len() - i,
    {
        assert(items@.take(i + 1).drop_last() =~= items@.take(i as int));
        assert(items@.take(i + 1).last() == items@[i as int]);
        let res = process_export_tree(base, &items[i], known, surface, re, span);
        match res {
            Ok(()) => {},
            Err(e) => {
                proof {
                    lemma_export_group_err_extends(re0, b, items@, k, sv, i + 1);
                    lemma_export_group_left_err_extends(re0, b, items@, k, sv, i + 1);
                }
                return Err(e);
            },
        }
        i += 1;
    }
    assert(items@.take(items.len() as int) =~= items@);
    Ok(())
}

// ── Modules ──────────────────────────────────────────────────────────────────

/// The re-exports of a module at `current` after its `export` declarations
/// `exports`, in order, starting from `re`; or the first refused name with
/// the index of its declaration.
pub open spec fn exports_spec(
    re: Map<Seq<char>, BindingView>,
    current: Seq<Seq<char>>,
    exports: Seq<ExportDecl>,
    known: Set<Seq<Seq<char>>>,
    surface: Map<Seq<Seq<char>>, Set<Seq<char>>>,
) -> Result<Map<Seq<char>, BindingView>, (ExportError, int)>
    decreases exports.len(),
{
    if exports.len() == 0 {
        Ok(re)
    } else {
        match exports_spec(re, current, exports.drop_last(), known, surface) {
            Ok(r2) => match export_tree_spec(
                r2,
                absolute_base_spec(exports.last().path.root, current),
                &exports.last().path.tree,
                known,
                surface,
            ) {
                Ok(r3) => Ok(r3),
                Err(x) => Err((x, exports.len() - 1)),
            },
            Err(p) => Err(p),
        }
    }
}

/// The explicit bindings and glob sources of a module at `current` after its
/// `import` declarations, in order; or the first conflict with the index of
/// its declaration.
pub open spec fn imports_spec(
    ex: Map<Seq<char>, BindingView>,
    globs: Seq<Seq<Seq<char>>>,
    current: Seq<Seq<char>>,
    imports: Seq<ImportDecl>,
    known: Set<Seq<Seq<char>>>,
) -> Result<(Map<Seq<char>, BindingView>, Seq<Seq<Seq<char>>>), (Conflict, int)>
    decreases imports.len(),
{
    if imports.len() == 0 {
        Ok((ex, globs))
    } else {
        match imports_spec(ex, globs, current, imports.drop_last(), known) {
            Ok((e2, g2)) => match import_tree_spec(
                e2,
                g2,
                absolute_base_spec(imports.last().path.root, current),
                &imports.last().path.tree,
                known,
            ) {
                Ok(st) => Ok(st),
                Err(c) => Err((c, imports.len() - 1)),
            },
            Err(p) => Err(p),
        }
    }
}

/// Why name resolution stopped: a refused re-export or an import conflict,
/// with the span of the declaration.
pub enum ResolveFailure {
    Export(ExportError, Span),
    Conflict(Conflict, Span),
}

/// `e` is the error reported for `f`: `T0009` for a refused re-export,
/// `T0011` for an import conflict.
pub open spec fn failure_error(e: GustError, f: ResolveFailure) -> bool {
    match f {
        ResolveFailure::Export(x, sp) => is_type_error(e, TypeErrorCode::T0009, export_message(x), sp),
        ResolveFailure::Conflict(c, sp) => is_type_error(e, TypeErrorCode::T0011, conflict_message(c), sp),
    }
}

/// The scope of module `m`: its re-exports, then its imports.
pub open spec fn module_scope_spec(
    m: LoadedModule,
    known: Set<Seq<Seq<char>>>,
    surface: Map<Seq<Seq<char>>, Set<Seq<char>>>,
) -> Result<ScopeView, ResolveFailure> {
    let cur = pv(m.mod_path);
    match exports_spec(Map::empty(), cur, m.program.exports@, known, surface) {
        Err((x, j)) => Err(ResolveFailure::Export(x, m.program.exports@[j].span)),
        Ok(re) => match imports_spec(Map::empty(), Seq::empty(), cur, m.program.imports@, known) {
            Err((c, j)) => Err(ResolveFailure::Conflict(c, m.program.imports@[j].span)),
            Ok((ex, gs)) => Ok(ScopeView { mod_path: cur, explicit: ex, globs: gs, re_exports: re }),
        },
    }
}

proof fn lemma_exports_err_extends(
    re: Map<Seq<char>, BindingView>,
    current: Seq<Seq<char>>,
    exports: Seq<ExportDecl>,
    known: Set<Seq<Seq<char>>>,
    surface: Map<Seq<Seq<char>>, Set<Seq<char>>>,
    k: int,
)
    requires
        0 <= k <= exports.len(),
        exports_spec(re, current, exports.take(k), known, surface) is Err,
    ensures
        exports_spec(re, current, exports, known, surface) == exports_spec(re, current, exports.take(k), known, surface),
    decreases exports.len(),
{
    if k == exports.len() {
        assert(exports.take(k) =~= exports);
    } else {
        assert(exports.drop_last().take(k) =~= exports.take(k));
        lemma_exports_err_extends(re, current, exports.drop_last(), known, surface, k);
    }
}

proof fn lemma_imports_err_extends(
    ex: Map<Seq<char>, BindingView>,
    globs: Seq<Seq<Seq<char>>>,
    current: Seq<Seq<char>>,
    imports: Seq<ImportDecl>,
    known: Set<Seq<Seq<char>>>,
    k: int,
)
    requires
        0 <= k <= imports.len(),
        imports_spec(ex, globs, current, imports.take(k), known) is Err,
    ensures
        imports_spec(ex, globs, current, imports, known) == imports_spec(ex, globs, current, imports.take(k), known),
    decreases imports.len(),
{
    if k == imports.len() {
        assert(imports.take(k) =~= imports);
    } else {
        assert(imports.drop_last().take(k) =~= imports.take(k));
        lemma_imports_err_extends(ex, globs, current, imports.drop_last(), known, k);
    }
}

/// The re-exports of one module (see [`exports_spec`]).
fn collect_re_exports(
    loaded: &LoadedModule,
    known: &Vec<Vec<String>>,
    surface: &PathMap<StrMap<()>>,
) -> (r: Result<StrMap<ImportBinding>, GustError>)
    requires
        surface_wf(surface),
    ensures
        match exports_spec(Map::empty(), pv(loaded.mod_path), loaded.program.exports@, known_set(known@), surface_view(surface.view())) {
            Ok(m) => r matches Ok(re) && re.wf() && bindings_view(re.view()) == m,
            Err((x, j)) => r matches Err(e) && is_type_error(
                e,
                TypeErrorCode::T0009,
                export_message(x),
                loaded.program.exports@[j].span,
            ),
        },
{
    let mut re: StrMap<ImportBinding> = StrMap::new();
    let ghost cur = pv(loaded.mod_path);
    let ghost k = known_set(known@);
    let ghost sv = surface_view(surface.view());
    let ghost exs = loaded.program.exports@;
    proof {
        assert(bindings_view(re.view()) =~= Map::<Seq<char>, BindingView>::empty());
        assert(exs.take(0) =~= Seq::<ExportDecl>::empty());
    }
    let mut i: usize = 0;
    while i < loaded.program.exports.len()
        invariant
            i <= exs.len(),
            exs == loaded.program.exports@,
            re.wf(),
            surface_wf(surface),
            cur == pv(loaded.mod_path),
            k == known_set(known@),
            sv == surface_view(surface.view()),
            exports_spec(Map::empty(), cur, exs.take(i as int), k, sv) == Ok::<Map<Seq<char>, BindingView>, (ExportError, int)>(
                bindings_view(re.view()),
            ),
        decreases exs.len() - i,
    {
        let export = &loaded.program.exports[i];
        let base = absolute_base(&export.path.root, &loaded.mod_path);
        assert(exs.take(i + 1).drop_last() =~= exs.take(i as int));
        assert(exs.take(i + 1).last() == exs[i as int]);
        match process_export_tree(&base, &export.path.tree, known, surface, &mut re, &export.span) {
            Ok(()) => {},
            Err(e) => {
                proof {
                    lemma_exports_err_extends(Map::empty(), cur, exs, k, sv, i + 1);
                }
                return Err(e);
            },
        }
        i += 1;
    }
    assert(exs.take(exs.len() as int) =~= exs);
    Ok(re)
}

/// The scope of one module: its re-exports, then its imports (see
/// [`module_scope_spec`]).
fn resolve_module(
    loaded: &LoadedModule,
    known: &Vec<Vec<String>>,
    surface: &PathMap<StrMap<()>>,
) -> (r: Result<ModuleScope, GustError>)
    requires
        surface_wf(surface),
    ensures
        match module_scope_spec(*loaded, known_set(known@), surface_view(surface.view())) {
            Ok(v) => r matches Ok(s) && s.wf() && s.scope_view() == v,
            Err(f) => r matches Err(e) && failure_error(e, f),
        },
{
    let re_exports = match collect_re_exports(loaded, known, surface) {
        Ok(re) => re,
        Err(e) => return Err(e),
    };
    let mut scope = ModuleScope {
        mod_path: clone_path(&loaded.mod_path),
        explicit: StrMap::new(),
        globs: Vec::new(),
        re_exports,
    };
    let ghost cur = pv(loaded.mod_path);
    let ghost k = known_set(known@);
    let ghost ims = loaded.program.imports@;
    proof {
        assert(scope.explicit_view() =~= Map::<Seq<char>, BindingView>::empty());
        assert(scope.globs_view() =~= Seq::<Seq<Seq<char>>>::empty());
        assert(ims.take(0) =~= Seq::<ImportDecl>::empty());
    }
    let ghost re_v = scope.re_exports_view();
    let mut i: usize = 0;
    while i < loaded.program.imports.len()
        invariant
            i <= ims.len(),
            ims == loaded.program.imports@,
            scope.wf(),
            pv(scope.mod_path) == cur,
            cur == pv(loaded.mod_path),
            k == known_set(known@),
            scope.re_exports_view() == re_v,
            exports_spec(Map::empty(), cur, loaded.program.exports@, k, surface_view(surface.view()))
                == Ok::<Map<Seq<char>, BindingView>, (ExportError, int)>(re_v),
            imports_spec(Map::empty(), Seq::empty(), cur, ims.take(i as int), k) == Ok::<
                (Map<Seq<char>, BindingView>, Seq<Seq<Seq<char>>>),
                (Conflict, int),
            >((scope.explicit_view(), scope.globs_view())),
        decreases ims.len() - i,
    {
        let import = &loaded.program.imports[i];
        let base = absolute_base(&import.path.root, &loaded.mod_path);
        assert(ims.take(i + 1).drop_last() =~= ims.take(i as int));
        assert(ims.take(i + 1).last() == ims[i as int]);
        match process_tree(&base, &import.path.tree, known, &mut scope, &import.span) {
            Ok(()) => {},
            Err(e) => {
                proof {
                    lemma_imports_err_extends(Map::empty(), Seq::empty(), cur, ims, k, i + 1);
                }
                return Err(e);
            },
        }
        i += 1;
    }
    assert(ims.take(ims.len() as int) =~= ims);
    Ok(scope)
}

// ── The whole graph ──────────────────────────────────────────────────────────

/// A declaration that contributes its name to its module's public surface:
/// a public function, struct, enum or aspect.
pub open spec fn is_pub_named(d: DeclHeader) -> bool {
    d.visibility == Visibility::Public && (d.kind == DeclKind::Fun || d.kind == DeclKind::Struct
        || d.kind == DeclKind::Enum || d.kind == DeclKind::Aspect)
}

/// The names a module's declarations make public.
pub open spec fn pub_names(decls: Seq<DeclHeader>) -> Set<Seq<char>> {
    Set::new(|n: Seq<char>| exists|i: int| 0 <= i < decls.len() && is_pub_named(#[trigger] decls[i]) && decls[i].name@ == n)
}

/// The name of a declaration if it is public.
fn decl_pub_name(decl: &DeclHeader) -> (r: Option<String>)
    ensures
        is_pub_named(*decl) ==> (r matches Some(n) && n@ == decl.name@),
        !is_pub_named(*decl) ==> r is None,
{
    let named = match decl.kind {
        DeclKind::Fun | DeclKind::Struct | DeclKind::Enum | DeclKind::Aspect => true,
        _ => false,
    };
    if named && decl.visibility == Visibility::Public {
        Some(decl.name.clone())
    } else {
        None
    }
}

/// The set of names a module's declarations make public.
fn pub_name_set(decls: &Vec<DeclHeader>) -> (r: StrMap<()>)
    ensures
        r.wf(),
        r.view().dom() == pub_names(decls@),
{
    let mut set: StrMap<()> = StrMap::new();
    let mut i: usize = 0;
    while i < decls.len()
        invariant
            i <= decls.len(),
            set.wf(),
            set.view().dom() == pub_names(decls@.take(i as int)),
        decreases decls.len() - i,
    {
        let ghost before = set.view().dom();
        match decl_pub_name(&decls[i]) {
            Some(n) => {
                set.insert(n, ());
            },
            None => {},
        }
        proof {
            let t = decls@.take(i + 1);
            assert forall|n: Seq<char>| #[trigger] pub_names(t).contains(n) <==> set.view().dom().contains(n) by {
                if pub_names(t).contains(n) {
                    let j = choose|j: int| 0 <= j < t.len() && is_pub_named(#[trigger] t[j]) && t[j].name@ == n;
                    if j < i {
                        assert(decls@.take(i as int)[j] == t[j]);
                        assert(pub_names(decls@.take(i as int)).contains(n));
                    }
                }
                if set.view().dom().contains(n) {
                    if before.contains(n) {
                        let j = choose|j: int|
                            0 <= j < decls@.take(i as int).len() && is_pub_named(#[trigger] decls@.take(i as int)[j])
                                && decls@.take(i as int)[j].name@ == n;
                        assert(t[j] == decls@.take(i as int)[j]);
                    } else {
                        assert(t[i as int] == decls@[i as int]);
                    }
                }
            }
            assert(set.view().dom() =~= pub_names(t));
        }
        i += 1;
    }
    assert(decls@.take(decls.len() as int) =~= decls@);
    set
}

/// Adds every key of `from` to the name set `set`.
fn insert_keys<V>(set: &mut StrMap<()>, from: &StrMap<V>)
    requires
        old(set).wf(),
        from.wf(),
    ensures
        final(set).wf(),
        final(set).view().dom() == old(set).view().dom().union(from.view().dom()),
{
    let ghost keys = from.keys_seq();
    proof {
        from.lemma_keys();
        assert(old(set).view().dom().union(keys.take(0).to_set()) =~= old(set).view().dom());
    }
    let mut j: usize = 0;
    while j < from.len()
        invariant
            j <= keys.len(),
            keys == from.keys_seq(),
            from.wf(),
            set.wf(),
            set.view().dom() == old(set).view().dom().union(keys.take(j as int).to_set()),
        decreases keys.len() - j,
    {
        let (k, _) = from.entry(j);
        set.insert(k.clone(), ());
        proof {
            assert(keys.take(j + 1) =~= keys.take(j as int).push(k@));
            keys.take(j as int).lemma_push_to_set_commute(k@);
            assert(set.view().dom() =~= old(set).view().dom().union(keys.take(j + 1).to_set()));
        }
        j += 1;
    }
    proof {
        assert(keys.take(keys.len() as int) =~= keys);
        assert forall|n: Seq<char>| keys.to_set().contains(n) <==> from.view().dom().contains(n) by {
            if keys.to_set().contains(n) {
                assert(keys.contains(n));
            }
            if from.view().dom().contains(n) {
                assert(keys.contains(n));
            }
        }
        assert(keys.to_set() =~= from.view().dom());
    }
}

/// The module paths of a list of modules.
pub open spec fn module_paths(ms: Seq<LoadedModule>) -> Seq<Vec<String>> {
    ms.map_values(|m: LoadedModule| m.mod_path)
}

/// The public names declared by each module; for a path loaded twice, the
/// later module counts.
pub open spec fn initial_surface(ms: Seq<LoadedModule>) -> Map<Seq<Seq<char>>, Set<Seq<char>>>
    decreases ms.len(),
{
    if ms.len() == 0 {
        Map::empty()
    } else {
        initial_surface(ms.drop_last()).insert(pv(ms.last().mod_path), pub_names(ms.last().program.decls@))
    }
}

/// `surface` with `names` added to the public names of `p`.
pub open spec fn extend_surface(
    surface: Map<Seq<Seq<char>>, Set<Seq<char>>>,
    p: Seq<Seq<char>>,
    names: Set<Seq<char>>,
) -> Map<Seq<Seq<char>>, Set<Seq<char>>> {
    surface.insert(p, (if surface.contains_key(p) { surface[p] } else { Set::empty() }).union(names))
}

/// The public surface after adding, module by module in order, each
/// module's re-exports as computed against the surface so far.
pub open spec fn surface_pass(
    ms: Seq<LoadedModule>,
    known: Set<Seq<Seq<char>>>,
    s0: Map<Seq<Seq<char>>, Set<Seq<char>>>,
) -> Result<Map<Seq<Seq<char>>, Set<Seq<char>>>, ResolveFailure>
    decreases ms.len(),
{
    if ms.len() == 0 {
        Ok(s0)
    } else {
        match surface_pass(ms.drop_last(), known, s0) {
            Ok(s) => match exports_spec(Map::empty(), pv(ms.last().mod_path), ms.last().program.exports@, known, s) {
                Ok(re) => Ok(extend_surface(s, pv(ms.last().mod_path), re.dom())),
                Err((x, j)) => Err(ResolveFailure::Export(x, ms.last().program.exports@[j].span)),
            },
            Err(f) => Err(f),
        }
    }
}

/// The scope of each module, in order, against the final surface; for a
/// path loaded twice, the later module counts.
pub open spec fn scope_pass(
    ms: Seq<LoadedModule>,
    known: Set<Seq<Seq<char>>>,
    surface: Map<Seq<Seq<char>>, Set<Seq<char>>>,
) -> Result<Map<Seq<Seq<char>>, ScopeView>, ResolveFailure>
    decreases ms.len(),
{
    if ms.len() == 0 {
        Ok(Map::empty())
    } else {
        match scope_pass(ms.drop_last(), known, surface) {
            Ok(m) => match module_scope_spec(ms.last(), known, surface) {
                Ok(v) => Ok(m.insert(pv(ms.last().mod_path), v)),
                Err(f) => Err(f),
            },
            Err(f) => Err(f),
        }
    }
}

proof fn lemma_surface_pass_err_extends(
    ms: Seq<LoadedModule>,
    known: Set<Seq<Seq<char>>>,
    s0: Map<Seq<Seq<char>>, Set<Seq<char>>>,
    k: int,
)
    requires
        0 <= k <= ms.len(),
        surface_pass(ms.take(k), known, s0) is Err,
    ensures
        surface_pass(ms, known, s0) == surface_pass(ms.take(k), known, s0),
    decreases ms.len(),
{
    if k == ms.len() {
        assert(ms.take(k) =~= ms);
    } else {
        assert(ms.drop_last().take(k) =~= ms.take(k));
        lemma_surface_pass_err_extends(ms.drop_last(), known, s0, k);
    }
}

proof fn lemma_scope_pass_err_extends(
    ms: Seq<LoadedModule>,
    known: Set<Seq<Seq<char>>>,
    surface: Map<Seq<Seq<char>>, Set<Seq<char>>>,
    k: int,
)
    requires
        0 <= k <= ms.len(),
        scope_pass(ms.take(k), known, surface) is Err,
    ensures
        scope_pass(ms, known, surface) == scope_pass(ms.take(k), known, surface),
    decreases ms.len(),
{
    if k == ms.len() {
        assert(ms.take(k) =~= ms);
    } else {
        assert(ms.drop_last().take(k) =~= ms.take(k));
        lemma_scope_pass_err_extends(ms.drop_last(), known, surface, k);
    }
}

/// The output of the name resolution pass: one scope per loaded module.
#[derive(Debug)]
pub struct ResolvedNames {
    pub scopes: PathMap<ModuleScope>,
    /// Combined public surface per module: local declarations + re-exports.
    /// Used by callers to check import visibility.
    pub pub_surface: PathMap<StrMap<()>>,
}

impl ResolvedNames {
    /// The maps and every scope and name set in them are well formed.
    pub open spec fn wf(&self) -> bool {
        &&& self.scopes.wf()
        &&& forall|p: Seq<Seq<char>>| #[trigger] self.scopes.view().contains_key(p) ==> self.scopes.view()[p].wf()
        &&& surface_wf(&self.pub_surface)
    }

    /// The model of each module's scope.
    pub open spec fn scopes_view(&self) -> Map<Seq<Seq<char>>, ScopeView> {
        self.scopes.view().map_values(|s: ModuleScope| s.scope_view())
    }

    /// The public names of each module.
    pub open spec fn surface(&self) -> Map<Seq<Seq<char>>, Set<Seq<char>>> {
        surface_view(self.pub_surface.view())
    }
}

proof fn lemma_known_set_views(a: Seq<Vec<String>>, b: Seq<Vec<String>>)
    requires
        paths_view(a) == paths_view(b),
    ensures
        known_set(a) == known_set(b),
{
    assert forall|p: Seq<Seq<char>>| known_set(a).contains(p) <==> known_set(b).contains(p) by {
        assert(paths_view(a).len() == a.len());
        assert(paths_view(b).len() == b.len());
        if known_set(a).contains(p) {
            let i = choose|i: int| 0 <= i < a.len() && pv(#[trigger] a[i]) == p;
            assert(paths_view(a)[i] == pv(a[i]));
            assert(paths_view(b)[i] == pv(b[i]));
            assert(pv(b[i]) == p);
        }
        if known_set(b).contains(p) {
            let i = choose|i: int| 0 <= i < b.len() && pv(#[trigger] b[i]) == p;
            assert(paths_view(a)[i] == pv(a[i]));
            assert(paths_view(b)[i] == pv(b[i]));
            assert(pv(a[i]) == p);
        }
    }
    assert(known_set(a) =~= known_set(b));
}

/// Resolves the imports and re-exports of every module of `graph`.
///
/// Three passes: the public names each module declares; then, module by
/// module, those names extended by the module's re-exports; then each
/// module's scope against that surface. The first refused re-export
/// (`T0009`) or import conflict (`T0011`) ends resolution.
pub fn resolve(graph: &ModuleGraph) -> (r: Result<ResolvedNames, GustError>)
    ensures
        ({
            let ms = graph.modules@;
            let known = known_set(module_paths(ms));
            match surface_pass(ms, known, initial_surface(ms)) {
                Err(f) => r matches Err(e) && failure_error(e, f),
                Ok(s) => match scope_pass(ms, known, s) {
                    Err(f) => r matches Err(e) && failure_error(e, f),
                    Ok(sc) => r matches Ok(names) && names.wf() && names.scopes_view() == sc && names.surface() == s,
                },
            }
        }),
{
    let ghost ms = graph.modules@;
    let n = graph.modules.len();
    let mut known: Vec<Vec<String>> = Vec::new();
    let mut i: usize = 0;
    while i < n
        invariant
            i <= n,
            n == ms.len(),
            ms == graph.modules@,
            paths_view(known@) == paths_view(module_paths(ms.take(i as int))),
        decreases n - i,
    {
        let ghost before = known@;
        let c = clone_path(&graph.modules[i].mod_path);
        let ghost cv = pv(c);
        known.push(c);
        proof {
            assert(known@ == before.push(c));
            assert(paths_view(known@) =~= paths_view(before).push(cv));
            assert(module_paths(ms.take(i + 1)) =~= module_paths(ms.take(i as int)).push(ms[i as int].mod_path));
            assert(paths_view(module_paths(ms.take(i + 1))) =~= paths_view(module_paths(ms.take(i as int))).push(
                pv(ms[i as int].mod_path),
            ));
        }
        i += 1;
    }
    proof {
        assert(ms.take(n as int) =~= ms);
        lemma_known_set_views(known@, module_paths(ms));
    }
    let ghost k = known_set(module_paths(ms));

    // First pass: the names each module declares public.
    let mut surface: PathMap<StrMap<()>> = PathMap::new();
    proof {
        assert(surface_view(surface.view()) =~= initial_surface(ms.take(0)));
    }
    let mut i: usize = 0;
    while i < n
        invariant
            i <= n,
            n == ms.len(),
            ms == graph.modules@,
            surface_wf(&surface),
            surface_view(surface.view()) == initial_surface(ms.take(i as int)),
        decreases n - i,
    {
        let loaded = &graph.modules[i];
        let names = pub_name_set(&loaded.program.decls);
        let ghost dom = names.view().dom();
        surface.insert(clone_path(&loaded.mod_path), names);
        proof {
            assert(ms.take(i + 1).drop_last() =~= ms.take(i as int));
            assert(surface_view(surface.view()) =~= initial_surface(ms.take(i + 1)));
        }
        i += 1;
    }
    let ghost s0 = surface_view(surface.view());
    proof {
        assert(ms.take(n as int) =~= ms);
        assert(ms.take(0) =~= Seq::<LoadedModule>::empty());
    }

    // Second pass: each module's re-exports join its public surface.
    let mut i: usize = 0;
    while i < n
        invariant
            i <= n,
            n == ms.len(),
            ms == graph.modules@,
            k == known_set(known@),
            k == known_set(module_paths(ms)),
            s0 == initial_surface(ms),
            surface_wf(&surface),
            surface_pass(ms.take(i as int), k, s0) == Ok::<Map<Seq<Seq<char>>, Set<Seq<char>>>, ResolveFailure>(
                surface_view(surface.view()),
            ),
        decreases n - i,
    {
        let loaded = &graph.modules[i];
        proof {
            assert(ms.take(i + 1).drop_last() =~= ms.take(i as int));
            assert(ms.take(i + 1).last() == ms[i as int]);
        }
        let re = match collect_re_exports(loaded, &known, &surface) {
            Ok(re) => re,
            Err(e) => {
                proof {
                    assert(surface_pass(ms.take(i + 1), k, s0) is Err);
                    lemma_surface_pass_err_extends(ms, k, s0, i + 1);
                }
                return Err(e);
            },
        };
        let ghost sv_before = surface_view(surface.view());
        let ghost p = pv(loaded.mod_path);
        let ghost prior: Set<Seq<char>> = if sv_before.contains_key(p) { sv_before[p] } else { Set::empty() };
        let mut set: StrMap<()> = StrMap::new();
        match surface.get(&loaded.mod_path) {
            Some(old_set) => insert_keys(&mut set, old_set),
            None => {},
        }
        assert(set.view().dom() =~= prior);
        insert_keys(&mut set, &re);
        assert(bindings_view(re.view()).dom() =~= re.view().dom());
        let ghost dom = set.view().dom();
        surface.insert(clone_path(&loaded.mod_path), set);
        proof {
            assert(dom == prior.union(bindings_view(re.view()).dom()));
            assert(surface_view(surface.view()) =~= extend_surface(sv_before, p, bindings_view(re.view()).dom()));
        }
        i += 1;
    }
    let ghost sf = surface_view(surface.view());
    proof {
        assert(ms.take(n as int) =~= ms);
    }

    // Third pass: each module's scope against the final surface.
    let mut scopes: PathMap<ModuleScope> = PathMap::new();
    proof {
        assert(scopes.view().map_values(|s: ModuleScope| s.scope_view()) =~= Map::<Seq<Seq<char>>, ScopeView>::empty());
    }
    let mut i: usize = 0;
    while i < n
        invariant
            i <= n,
            n == ms.len(),
            ms == graph.modules@,
            k == known_set(known@),
            k == known_set(module_paths(ms)),
            sf == surface_view(surface.view()),
            surface_pass(ms, k, initial_surface(ms)) == Ok::<Map<Seq<Seq<char>>, Set<Seq<char>>>, ResolveFailure>(sf),
            surface_wf(&surface),
            scopes.wf(),
            forall|p: Seq<Seq<char>>| #[trigger] scopes.view().contains_key(p) ==> scopes.view()[p].wf(),
            scope_pass(ms.take(i as int), k, sf) == Ok::<Map<Seq<Seq<char>>, ScopeView>, ResolveFailure>(
                scopes.view().map_values(|s: ModuleScope| s.scope_view()),
            ),
        decreases n - i,
    {
        let loaded = &graph.modules[i];
        proof {
            assert(ms.take(i + 1).drop_last() =~= ms.take(i as int));
            assert(ms.take(i + 1).last() == ms[i as int]);
        }
        let scope = match resolve_module(loaded, &known, &surface) {
            Ok(scope) => scope,
            Err(e) => {
                proof {
                    assert(scope_pass(ms.take(i + 1), k, sf) is Err);
                    lemma_scope_pass_err_extends(ms, k, sf, i + 1);
                }
                return Err(e);
            },
        };
        let ghost before = scopes.view().map_values(|s: ModuleScope| s.scope_view());
        let ghost v = scope.scope_view();
        scopes.insert(clone_path(&loaded.mod_path), scope);
        proof {
            assert(scopes.view().map_values(|s: ModuleScope| s.scope_view()) =~= before.insert(pv(loaded.mod_path), v));
        }
        i += 1;
    }
    proof {
        assert(ms.take(n as int) =~= ms);
    }
    Ok(ResolvedNames { scopes, pub_surface: surface })
}

} // verus!
