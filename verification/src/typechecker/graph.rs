//! Checking a module graph, module by module in load order: what is carried
//! from one module to the next (the public schemes of the modules checked
//! so far, `std::core` among them) and the checks made before and after a
//! module's own declarations are inferred.

use vstd::prelude::*;

use crate::error::GustError;
use crate::module_loader::{LoadedModule, ModuleGraph};
use crate::name_resolver::ResolvedNames;
use crate::pathmap::pv;
use crate::strmap::StrMap;
use crate::typeinference::TypeScheme;
use super::exports::{GlobalExports, ModuleExports};
use super::modules::{
    annotations_error, annotations_ok, build_import_schemes, check_pub_annotations, filter_pub_schemes,
    import_schemes_outcome, schemes_view,
};
use super::registry::StdPrelude;

verus! {

/// The path under which the standard prelude's schemes are exported.
pub open spec fn std_core_path() -> Seq<Seq<char>> {
    seq!["std"@, "core"@]
}

/// The state of checking a module graph: the exports of every module
/// checked so far.
#[derive(Debug)]
pub struct GraphCheck {
    exports: GlobalExports,
}

impl GraphCheck {
    /// The public schemes of each module checked so far, by module path.
    pub closed spec fn exports_view(&self) -> Map<Seq<Seq<char>>, Map<Seq<char>, TypeScheme>> {
        self.exports.view()
    }

    pub closed spec fn wf(&self) -> bool {
        self.exports.wf()
    }

    /// The state before the first module: only `std::core` has exports, the
    /// schemes of `prelude`.
    pub fn start(prelude: StdPrelude) -> (g: Self)
        requires
            prelude.wf(),
        ensures
            g.wf(),
            g.exports_view() == Map::<Seq<Seq<char>>, Map<Seq<char>, TypeScheme>>::empty().insert(
                std_core_path(),
                prelude.scheme_map(),
            ),
    {
        let mut exports = GlobalExports::new();
        let mut path: Vec<String> = Vec::new();
        path.push(String::from_str("std"));
        path.push(String::from_str("core"));
        proof {
            reveal_strlit("std");
            reveal_strlit("core");
            assert(pv(path) =~= std_core_path());
        }
        let schemes = prelude.into_schemes();
        exports.insert(path, ModuleExports { pub_schemes: schemes });
        GraphCheck { exports }
    }

    /// The exports recorded so far.
    pub fn exports(&self) -> (r: &GlobalExports)
        ensures
            r.view() == self.exports_view(),
            self.wf() ==> r.wf(),
    {
        &self.exports
    }

    /// Before `loaded`'s declarations are inferred: its `pub` declarations
    /// must carry their annotations, and then its imports are resolved
    /// against the exports so far, giving the schemes it imports.
    pub fn enter_module(&self, loaded: &LoadedModule, names: &ResolvedNames, graph: &ModuleGraph) -> (r: Result<
        StrMap<TypeScheme>,
        GustError,
    >)
        requires
            self.wf(),
            names.wf(),
        ensures
            !annotations_ok(*loaded, *names) ==> (r matches Err(e) && annotations_error(*loaded, *names, e)),
            annotations_ok(*loaded, *names) ==> import_schemes_outcome(
                *loaded,
                *names,
                self.exports_view(),
                graph.modules@,
                r,
            ),
    {
        check_pub_annotations(loaded, names)?;
        build_import_schemes(loaded, names, &self.exports, graph)
    }

    /// After `loaded`'s declarations were inferred as `scheme_env`: its
    /// public schemes become its exports, for the modules that follow.
    pub fn leave_module(&mut self, loaded: &LoadedModule, names: &ResolvedNames, scheme_env: &StrMap<TypeScheme>)
        requires
            old(self).wf(),
            names.wf(),
            scheme_env.wf(),
        ensures
            final(self).wf(),
            final(self).exports_view().dom() == old(self).exports_view().dom().insert(pv(loaded.mod_path)),
            forall|p: Seq<Seq<char>>| #[trigger] old(self).exports_view().contains_key(p) && p != pv(loaded.mod_path)
                ==> final(self).exports_view()[p] == old(self).exports_view()[p],
            !names.surface().contains_key(pv(loaded.mod_path)) ==> final(self).exports_view()[pv(loaded.mod_path)]
                == Map::<Seq<char>, TypeScheme>::empty(),
            names.surface().contains_key(pv(loaded.mod_path)) ==> schemes_view(final(self).exports_view()[pv(loaded.mod_path)])
                == schemes_view(scheme_env.view()).restrict(names.surface()[pv(loaded.mod_path)]),
    {
        let pub_schemes = filter_pub_schemes(scheme_env, loaded, names);
        let path = crate::pathmap::clone_path(&loaded.mod_path);
        self.exports.insert(path, ModuleExports { pub_schemes });
    }
}

} // verus!
