//! The computations of module loading: which module files an import may
//! name, what module path a loaded child gets, and the errors the loader
//! reports. Reading files and resolving paths on disk happen outside.

use vstd::prelude::*;

use crate::ast::{ImportTree, ModuleInterface, PathRoot};
use crate::error::{GustError, ParseErrorCode};
use crate::pathmap::{clone_path, join_path, join_spec, path_eq, pv};
use crate::text::{push_str, str_eq};

verus! {

broadcast use vstd::string::group_string_axioms;

/// A parsed module together with where it sits in the module tree.
#[derive(Debug)]
pub struct LoadedModule {
    pub mod_path: Vec<String>,
    pub file_path: String,
    pub program: ModuleInterface,
}

/// All modules reachable from a root file, each loaded once.
#[derive(Debug)]
pub struct ModuleGraph {
    pub root: String,
    pub modules: Vec<LoadedModule>,
}

/// `e` is the loader's error for `file` with message `msg`: a `P0001` parse
/// error at the start of the file.
pub open spec fn is_module_error(e: GustError, msg: Seq<char>, file: Seq<char>) -> bool {
    e matches GustError::ParseError { code, message, start, end, filename, line, col, source_line }
        && code == ParseErrorCode::P0001 && message@ == msg && start == 0 && end == 0
        && filename@ == file && line == 1 && col == 1 && source_line is None
}

/// The loader's error for the file `path`.
pub fn module_error(message: String, path: &str) -> (e: GustError)
    ensures
        is_module_error(e, message@, path@),
{
    let mut filename = String::new();
    push_str(&mut filename, path);
    GustError::ParseError {
        code: ParseErrorCode::P0001,
        message,
        start: 0,
        end: 0,
        filename,
        line: 1,
        col: 1,
        source_line: None,
    }
}

/// The module path that the segments of an import are appended to, for a
/// module whose own path is `parent`.
pub open spec fn child_base(parent: Seq<Seq<char>>, root: PathRoot) -> Seq<Seq<char>> {
    match root {
        PathRoot::Root => Seq::empty(),
        PathRoot::Super => if parent.len() == 0 {
            Seq::empty()
        } else {
            parent.drop_last()
        },
        _ => parent,
    }
}

/// The module path of a child loaded from `parent` through an import rooted
/// at `root` whose module segments are `mod_segs`.
pub fn child_module_path(parent: &Vec<String>, root: &PathRoot, mod_segs: &Vec<String>) -> (r: Vec<String>)
    ensures
        pv(r) == child_base(pv(*parent), *root) + pv(*mod_segs),
{
    let mut path: Vec<String> = match root {
        PathRoot::Root => Vec::new(),
        PathRoot::Super => {
            let mut b: Vec<String> = Vec::new();
            let mut i: usize = 0;
            let n: usize = if parent.len() == 0 { 0 } else { parent.len() - 1 };
            while i < n
                invariant
                    i <= n,
                    n <= parent.len(),
                    pv(b) =~= pv(*parent).take(i as int),
                decreases n - i,
            {
                let ghost before = b;
                b.push(parent[i].clone());
                assert(pv(b) =~= pv(before).push(pv(*parent)[i as int]));
                assert(pv(*parent).take(i + 1) =~= pv(*parent).take(i as int).push(pv(*parent)[i as int]));
                i += 1;
            }
            proof {
                if parent.len() > 0 {
                    assert(pv(*parent).take(n as int) =~= pv(*parent).drop_last());
                } else {
                    assert(pv(b) =~= Seq::<Seq<char>>::empty());
                }
            }
            b
        },
        _ => clone_path(parent),
    };
    assert(pv(path) == child_base(pv(*parent), *root));
    let ghost base = pv(path);
    let mut j: usize = 0;
    while j < mod_segs.len()
        invariant
            j <= mod_segs.len(),
            pv(path) =~= base + pv(*mod_segs).take(j as int),
        decreases mod_segs.len() - j,
    {
        let ghost before = path;
        path.push(mod_segs[j].clone());
        assert(pv(path) =~= pv(before).push(pv(*mod_segs)[j as int]));
        assert(pv(*mod_segs).take(j + 1) =~= pv(*mod_segs).take(j as int).push(pv(*mod_segs)[j as int]));
        j += 1;
    }
    assert(pv(*mod_segs).take(mod_segs.len() as int) =~= pv(*mod_segs));
    path
}

/// The names of an import tree in path order up to its terminal name:
/// `ast::Ast` gives `ast, Ast`; a group or a glob ends the path.
pub open spec fn tree_segments(tree: &ImportTree) -> Seq<Seq<char>>
    decreases tree,
{
    match tree {
        ImportTree::Name { name, .. } => seq![name@],
        ImportTree::Path { name, tree } => seq![name@] + tree_segments(tree),
        ImportTree::Group(_) => Seq::empty(),
        ImportTree::Glob => Seq::empty(),
    }
}

/// The names of an import tree in path order (see [`tree_segments`]).
pub fn import_tree_segments(tree: &ImportTree) -> (r: Vec<String>)
    ensures
        pv(r) == tree_segments(tree),
    decreases tree,
{
    match tree {
        ImportTree::Name { name, .. } => {
            let mut v: Vec<String> = Vec::new();
            v.push(name.clone());
            assert(pv(v) =~= seq![name@]);
            v
        },
        ImportTree::Path { name, tree: rest } => {
            let tail = import_tree_segments(rest);
            let mut v: Vec<String> = Vec::new();
            v.push(name.clone());
            let mut i: usize = 0;
            while i < tail.len()
                invariant
                    i <= tail.len(),
                    pv(v) =~= seq![name@] + pv(tail).take(i as int),
                decreases tail.len() - i,
            {
                let ghost before = v;
                v.push(tail[i].clone());
                assert(pv(v) =~= pv(before).push(pv(tail)[i as int]));
                assert(pv(tail).take(i + 1) =~= pv(tail).take(i as int).push(pv(tail)[i as int]));
                i += 1;
            }
            assert(pv(tail).take(tail.len() as int) =~= pv(tail));
            v
        },
        _ => {
            let v: Vec<String> = Vec::new();
            assert(pv(v) =~= Seq::<Seq<char>>::empty());
            v
        },
    }
}

/// Whether an import tree mentions `super` below its root. The tree
/// grammar has no `super` segment, so this never holds; the root itself is
/// checked separately.
pub fn import_tree_contains_super(tree: &ImportTree) -> (r: bool)
    ensures
        !r,
    decreases tree, 0nat,
{
    match tree {
        ImportTree::Name { .. } => false,
        ImportTree::Glob => false,
        ImportTree::Group(trees) => group_contains_super(trees),
        ImportTree::Path { tree: rest, .. } => import_tree_contains_super(rest),
    }
}

/// Whether any tree of a group mentions `super`.
fn group_contains_super(trees: &Vec<ImportTree>) -> (r: bool)
    ensures
        !r,
    decreases trees, 1nat,
{
    let mut i: usize = 0;
    while i < trees.len()
        invariant
            i <= trees.len(),
        decreases trees.len() - i,
    {
        if import_tree_contains_super(&trees[i]) {
            return true;
        }
        i += 1;
    }
    false
}

/// The module segments an import names, or `None` for a `std::` import,
/// which no file provides: a child root `n` comes before the tree's names.
pub open spec fn import_segments_spec(root: PathRoot, tree: &ImportTree) -> Option<Seq<Seq<char>>> {
    match root {
        PathRoot::Std => None,
        PathRoot::Name(n) => Some(seq![n@] + tree_segments(tree)),
        _ => Some(tree_segments(tree)),
    }
}

/// The module segments an import names (see [`import_segments_spec`]).
pub fn import_module_segments(root: &PathRoot, tree: &ImportTree) -> (r: Option<Vec<String>>)
    ensures
        match import_segments_spec(*root, tree) {
            None => r is None,
            Some(s) => r matches Some(v) && pv(v) == s,
        },
{
    match root {
        PathRoot::Std => None,
        PathRoot::Name(n) => {
            let tail = import_tree_segments(tree);
            let mut v: Vec<String> = Vec::new();
            v.push(n.clone());
            let mut i: usize = 0;
            while i < tail.len()
                invariant
                    i <= tail.len(),
                    pv(v) =~= seq![n@] + pv(tail).take(i as int),
                decreases tail.len() - i,
            {
                let ghost before = v;
                v.push(tail[i].clone());
                assert(pv(v) =~= pv(before).push(pv(tail)[i as int]));
                assert(pv(tail).take(i + 1) =~= pv(tail).take(i as int).push(pv(tail)[i as int]));
                i += 1;
            }
            assert(pv(tail).take(tail.len() as int) =~= pv(tail));
            Some(v)
        },
        _ => Some(import_tree_segments(tree)),
    }
}

/// The directory above `dir`, a directory given by its components; the
/// top directory is its own parent.
pub open spec fn parent_dir_spec(dir: Seq<Seq<char>>) -> Seq<Seq<char>> {
    if dir.len() == 0 {
        dir
    } else {
        dir.drop_last()
    }
}

/// The directory in which an import's module files are looked for: the
/// root directory for `root::`, the directory above the importing file's
/// own (but never above the root) for `super::`, and the importing file's
/// own directory otherwise.
pub open spec fn search_dir_spec(
    root: PathRoot,
    parent_dir: Seq<Seq<char>>,
    root_dir: Seq<Seq<char>>,
) -> Seq<Seq<char>> {
    match root {
        PathRoot::Root => root_dir,
        PathRoot::Super => if parent_dir == root_dir {
            root_dir
        } else {
            parent_dir_spec(parent_dir)
        },
        _ => parent_dir,
    }
}

/// Where the loader looks for the module an import names: the directory
/// to search (see [`search_dir_spec`]) and the segments to look up there,
/// or `None` for a `std::` import. Directories are given by their
/// components; `parent_dir` is the importing file's directory.
pub fn import_search(
    root: &PathRoot,
    tree: &ImportTree,
    parent_dir: &Vec<String>,
    root_dir: &Vec<String>,
) -> (r: Option<(Vec<String>, Vec<String>)>)
    ensures
        match import_segments_spec(*root, tree) {
            None => r is None,
            Some(s) => r matches Some(p) && pv(p.0) == search_dir_spec(*root, pv(*parent_dir), pv(*root_dir))
                && pv(p.1) == s,
        },
{
    let segs = match import_module_segments(root, tree) {
        None => return None,
        Some(s) => s,
    };
    let dir = match root {
        PathRoot::Root => clone_path(root_dir),
        PathRoot::Super => {
            if path_eq(parent_dir, root_dir) {
                clone_path(root_dir)
            } else {
                let mut d = clone_path(parent_dir);
                if d.len() > 0 {
                    d.pop();
                }
                assert(pv(d) =~= parent_dir_spec(pv(*parent_dir)));
                d
            }
        },
        _ => clone_path(parent_dir),
    };
    Some((dir, segs))
}

/// The module paths a file may provide for the segments `segs`, longest
/// first: `a::b::C` is looked for as `a/b/C`, then `a/b`, then `a`.
pub fn candidate_prefixes(segs: &Vec<String>) -> (r: Vec<Vec<String>>)
    ensures
        r.len() == segs.len(),
        forall|k: int| 0 <= k < r.len() ==> pv(#[trigger] r@[k]) == pv(*segs).take(segs.len() - k),
{
    let mut r: Vec<Vec<String>> = Vec::new();
    let mut len: usize = segs.len();
    while len > 0
        invariant
            len <= segs.len(),
            r.len() == segs.len() - len,
            forall|k: int| 0 <= k < r.len() ==> pv(#[trigger] r@[k]) == pv(*segs).take(segs.len() - k),
        decreases len,
    {
        let mut p: Vec<String> = Vec::new();
        let mut i: usize = 0;
        while i < len
            invariant
                i <= len,
                len <= segs.len(),
                pv(p) =~= pv(*segs).take(i as int),
            decreases len - i,
        {
            let ghost before = p;
            p.push(segs[i].clone());
            assert(pv(p) =~= pv(before).push(pv(*segs)[i as int]));
            assert(pv(*segs).take(i + 1) =~= pv(*segs).take(i as int).push(pv(*segs)[i as int]));
            i += 1;
        }
        r.push(p);
        len -= 1;
    }
    r
}

/// The candidate a lookup settles on: the first (so the longest prefix) of
/// those whose file exists, `exists[k]` telling whether candidate `k`'s does.
pub fn first_existing(exists: &Vec<bool>) -> (r: Option<usize>)
    ensures
        match r {
            Some(k) => k < exists.len() && exists@[k as int] && forall|i: int| 0 <= i < k ==> !exists@[i],
            None => forall|i: int| 0 <= i < exists.len() ==> !exists@[i],
        },
{
    let mut k: usize = 0;
    while k < exists.len()
        invariant
            k <= exists.len(),
            forall|i: int| 0 <= i < k ==> !exists@[i],
        decreases exists.len() - k,
    {
        if exists[k] {
            return Some(k);
        }
        k += 1;
    }
    None
}

/// What the loader makes of an import's segments once the file lookup is
/// done: nothing to load for no segments, the file that was found, or an
/// error for the importing file when none was.
pub fn resolve_in_dir(
    segs: &Vec<String>,
    found: Option<(Vec<String>, String)>,
    source_file: &str,
) -> (r: Result<Option<(Vec<String>, String)>, GustError>)
    ensures
        segs.len() == 0 ==> r matches Ok(None),
        segs.len() > 0 && found is Some ==> r == Ok::<Option<(Vec<String>, String)>, GustError>(found),
        segs.len() > 0 && found is None ==> (r matches Err(e) && is_module_error(
            e,
            "cannot find module file for `"@ + join_spec(pv(*segs), "::"@) + "`"@,
            source_file@,
        )),
{
    if segs.len() == 0 {
        return Ok(None);
    }
    match found {
        Some(result) => Ok(Some(result)),
        None => {
            let mut msg = String::new();
            push_str(&mut msg, "cannot find module file for `");
            let joined = join_path(segs, "::");
            push_str(&mut msg, joined.as_str());
            push_str(&mut msg, "`");
            Err(module_error(msg, source_file))
        },
    }
}

/// Whether any import of `program` starts at `super`.
pub open spec fn has_super_import(program: ModuleInterface) -> bool {
    exists|i: int| 0 <= i < program.imports@.len() && (#[trigger] program.imports@[i]).path.root is Super
}

/// The root module cannot import from `super::`.
pub fn validate_super_root(program: &ModuleInterface, mod_path: &Vec<String>, file_path: &str) -> (r: Result<(), GustError>)
    ensures
        mod_path.len() == 0 && has_super_import(*program) ==> (r matches Err(e) && is_module_error(
            e,
            "`super::` is invalid from the root module"@,
            file_path@,
        )),
        !(mod_path.len() == 0 && has_super_import(*program)) ==> r is Ok,
{
    if mod_path.len() > 0 {
        return Ok(());
    }
    let mut i: usize = 0;
    while i < program.imports.len()
        invariant
            i <= program.imports.len(),
            mod_path.len() == 0,
            forall|j: int| 0 <= j < i ==> !((#[trigger] program.imports@[j]).path.root is Super),
        decreases program.imports.len() - i,
    {
        let import = &program.imports[i];
        let at_super = match &import.path.root {
            PathRoot::Super => true,
            _ => false,
        };
        if at_super || import_tree_contains_super(&import.path.tree) {
            assert(program.imports@[i as int].path.root is Super);
            let mut msg = String::new();
            push_str(&mut msg, "`super::` is invalid from the root module");
            return Err(module_error(msg, file_path));
        }
        i += 1;
    }
    Ok(())
}

/// The index of the first occurrence of `x` in `s`, if any.
pub open spec fn first_index(s: Seq<Seq<char>>, x: Seq<char>) -> Option<int>
    decreases s.len(),
{
    if s.len() == 0 {
        None
    } else if s[0] == x {
        Some(0)
    } else {
        match first_index(s.drop_first(), x) {
            Some(i) => Some(i + 1),
            None => None,
        }
    }
}

proof fn lemma_first_index(s: Seq<Seq<char>>, x: Seq<char>)
    ensures
        match first_index(s, x) {
            Some(i) => 0 <= i < s.len() && s[i] == x && forall|j: int| 0 <= j < i ==> s[j] != x,
            None => forall|j: int| 0 <= j < s.len() ==> s[j] != x,
        },
    decreases s.len(),
{
    if s.len() > 0 {
        lemma_first_index(s.drop_first(), x);
        if s[0] != x {
            assert forall|j: int| 0 < j < s.len() implies s[j] == s.drop_first()[j - 1] by {}
        }
    }
}

/// The error for loading `file` while it is already on the loading stack
/// `stack`, if it is: the chain from its first occurrence back to itself.
pub fn circular_dependency(stack: &Vec<String>, file_path: &str) -> (r: Option<GustError>)
    ensures
        match first_index(pv(*stack), file_path@) {
            None => r is None,
            Some(k) => r matches Some(e) && is_module_error(
                e,
                "circular module dependency: "@ + join_spec(pv(*stack).skip(k).push(file_path@), " -> "@),
                file_path@,
            ),
        },
{
    proof {
        lemma_first_index(pv(*stack), file_path@);
    }
    let mut i: usize = 0;
    while i < stack.len()
        invariant
            i <= stack.len(),
            forall|j: int| 0 <= j < i ==> pv(*stack)[j] != file_path@,
        decreases stack.len() - i,
    {
        if str_eq(stack[i].as_str(), file_path) {
            assert(pv(*stack)[i as int] == file_path@);
            proof {
                lemma_first_index(pv(*stack), file_path@);
            }
            assert(first_index(pv(*stack), file_path@) == Some(i as int));
            let mut chain: Vec<String> = Vec::new();
            let mut j: usize = i;
            while j < stack.len()
                invariant
                    i <= j <= stack.len(),
                    pv(chain) =~= pv(*stack).subrange(i as int, j as int),
                decreases stack.len() - j,
            {
                let ghost before = chain;
                chain.push(stack[j].clone());
                assert(pv(chain) =~= pv(before).push(pv(*stack)[j as int]));
                j += 1;
            }
            let mut last = String::new();
            push_str(&mut last, file_path);
            let ghost before = chain;
            chain.push(last);
            assert(pv(chain) =~= pv(*stack).skip(i as int).push(file_path@));
            let mut msg = String::new();
            push_str(&mut msg, "circular module dependency: ");
            let joined = join_path(&chain, " -> ");
            push_str(&mut msg, joined.as_str());
            return Some(module_error(msg, file_path));
        }
        i += 1;
    }
    None
}

} // verus!
