//! The public type schemes of every checked module, consulted when a later
//! module imports from it.

use vstd::prelude::*;

use crate::pathmap::{PathMap, pv};
use crate::strmap::StrMap;
use crate::typeinference::TypeScheme;

verus! {

/// The public type schemes of one module.
#[derive(Debug)]
pub struct ModuleExports {
    pub pub_schemes: StrMap<TypeScheme>,
}

/// The exports of every module checked so far, by module path.
#[derive(Debug)]
pub struct GlobalExports {
    modules: PathMap<ModuleExports>,
}

impl GlobalExports {
    /// The path map and every scheme map in it are well formed.
    pub closed spec fn wf(&self) -> bool {
        &&& self.modules.wf()
        &&& forall|p: Seq<Seq<char>>| #[trigger] self.modules.view().contains_key(p) ==> self.modules.view()[p].pub_schemes.wf()
    }

    /// The public schemes of each module.
    pub closed spec fn view(&self) -> Map<Seq<Seq<char>>, Map<Seq<char>, TypeScheme>> {
        self.modules.view().map_values(|e: ModuleExports| e.pub_schemes.view())
    }

    /// No module's exports yet.
    pub fn new() -> (g: Self)
        ensures
            g.wf(),
            g.view() == Map::<Seq<Seq<char>>, Map<Seq<char>, TypeScheme>>::empty(),
    {
        let g = GlobalExports { modules: PathMap::new() };
        assert(g.view() =~= Map::<Seq<Seq<char>>, Map<Seq<char>, TypeScheme>>::empty());
        g
    }

    /// Records (or replaces) the exports of the module at `path`.
    pub fn insert(&mut self, path: Vec<String>, exports: ModuleExports)
        requires
            old(self).wf(),
            exports.pub_schemes.wf(),
        ensures
            final(self).wf(),
            final(self).view() == old(self).view().insert(pv(path), exports.pub_schemes.view()),
    {
        let ghost p = pv(path);
        let ghost v = exports.pub_schemes.view();
        self.modules.insert(path, exports);
        assert(self.view() =~= old(self).view().insert(p, v));
    }

    /// The public scheme `name` of the module at `mod_path`, if both exist.
    pub fn get_scheme(&self, mod_path: &Vec<String>, name: &str) -> (r: Option<&TypeScheme>)
        requires
            self.wf(),
        ensures
            (self.view().contains_key(pv(*mod_path)) && self.view()[pv(*mod_path)].contains_key(name@))
                ==> (r matches Some(s) && *s == self.view()[pv(*mod_path)][name@]),
            !(self.view().contains_key(pv(*mod_path)) && self.view()[pv(*mod_path)].contains_key(name@))
                ==> r is None,
    {
        match self.modules.get(mod_path) {
            Some(exports) => exports.pub_schemes.get(name),
            None => None,
        }
    }

    /// All public schemes of the module at `mod_path`, if it was recorded.
    pub fn all_pub_schemes(&self, mod_path: &Vec<String>) -> (r: Option<&StrMap<TypeScheme>>)
        requires
            self.wf(),
        ensures
            self.view().contains_key(pv(*mod_path)) ==> (r matches Some(m) && m.wf()
                && m.view() == self.view()[pv(*mod_path)]),
            !self.view().contains_key(pv(*mod_path)) ==> r is None,
    {
        match self.modules.get(mod_path) {
            Some(exports) => Some(&exports.pub_schemes),
            None => None,
        }
    }
}

} // verus!
