//! The store of type definitions built during the pre-pass: struct fields,
//! generic struct parameters, methods and enums, with lexical scoping of
//! locally declared structs.

use vstd::prelude::*;

use crate::strmap::StrMap;
use crate::types::Type;
use super::{InferType, TypeVar};

verus! {

/// One variant of an enum: its name and its named fields.
#[derive(Debug)]
pub struct VariantInfo {
    pub name: String,
    pub fields: Vec<(String, InferType)>,
}

/// An enum: its type parameters and its variants.
#[derive(Debug)]
pub struct EnumInfo {
    pub type_params: Vec<TypeVar>,
    pub variants: Vec<VariantInfo>,
}

/// The names (as character sequences) held by a vector of strings.
pub open spec fn names_of(v: Seq<String>) -> Set<Seq<char>> {
    Set::new(|k: Seq<char>| exists|i: int| 0 <= i < v.len() && #[trigger] v[i]@ == k)
}

/// Store of type definitions built during the pre-pass and injected into
/// `InferContext` before inference begins.
#[derive(Debug)]
pub struct TypeRegistry {
    struct_env: StrMap<Vec<(String, InferType)>>,
    /// Ordered type-parameter TypeVars per generic struct (absent for non-generic structs).
    struct_type_params: StrMap<Vec<TypeVar>>,
    /// Which struct names were registered in each lexical scope, so they can be
    /// removed on scope exit. Empty when outside any scoped block.
    struct_scope_stack: Vec<Vec<String>>,
    method_env: StrMap<StrMap<InferType>>,
    enum_env: StrMap<EnumInfo>,
    /// Declared aspects and their method names.
    aspect_env: StrMap<Vec<String>>,
    /// Aspect implementations: implementing type, aspect, and the aspect's
    /// concrete type arguments, in registration order.
    aspect_impls: Vec<(String, String, Vec<Type>)>,
}

impl TypeRegistry {
    /// The internal maps are well formed.
    pub closed spec fn wf(&self) -> bool {
        &&& self.struct_env.wf()
        &&& self.struct_type_params.wf()
        &&& self.method_env.wf()
        &&& self.enum_env.wf()
        &&& self.aspect_env.wf()
        &&& forall|t: Seq<char>| #[trigger] self.method_env.view().contains_key(t) ==> self.method_env.view()[t].wf()
    }

    /// Registered struct fields, by struct name.
    pub closed spec fn structs(&self) -> Map<Seq<char>, Vec<(String, InferType)>> {
        self.struct_env.view()
    }

    /// Registered type parameters of generic structs, by struct name.
    pub closed spec fn struct_params(&self) -> Map<Seq<char>, Vec<TypeVar>> {
        self.struct_type_params.view()
    }

    /// The struct names registered in each open lexical scope, innermost last.
    pub closed spec fn scopes(&self) -> Seq<Seq<String>> {
        self.struct_scope_stack@.map_values(|v: Vec<String>| v@)
    }

    /// The registered type of method `m` of type `t`, if any.
    pub closed spec fn method(&self, t: Seq<char>, m: Seq<char>) -> Option<InferType> {
        if self.method_env.view().contains_key(t) && self.method_env.view()[t].view().contains_key(m) {
            Some(self.method_env.view()[t].view()[m])
        } else {
            None
        }
    }

    /// Registered enums, by name.
    pub closed spec fn enums(&self) -> Map<Seq<char>, EnumInfo> {
        self.enum_env.view()
    }

    /// Declared aspects and their method names, by aspect name.
    pub closed spec fn aspects(&self) -> Map<Seq<char>, Vec<String>> {
        self.aspect_env.view()
    }

    /// Aspect implementations in registration order.
    pub closed spec fn aspect_impl_list(&self) -> Seq<(String, String, Vec<Type>)> {
        self.aspect_impls@
    }

    /// The aspect declarations and implementations are the same in both.
    pub open spec fn same_aspects(&self, other: &Self) -> bool {
        self.aspects() == other.aspects() && self.aspect_impl_list() == other.aspect_impl_list()
    }

    /// Declares aspect `name` with the given method names.
    pub fn register_aspect(&mut self, name: String, method_names: Vec<String>)
        requires
            old(self).wf(),
        ensures
            final(self).wf(),
            final(self).aspects() == old(self).aspects().insert(name@, method_names),
            final(self).aspect_impl_list() == old(self).aspect_impl_list(),
            final(self).structs() == old(self).structs(),
            final(self).struct_params() == old(self).struct_params(),
            final(self).scopes() == old(self).scopes(),
            forall|t: Seq<char>, m: Seq<char>| #[trigger] final(self).method(t, m) == old(self).method(t, m),
            final(self).enums() == old(self).enums(),
    {
        self.aspect_env.insert(name, method_names);
    }

    /// Records that `owner_name` implements aspect `aspect_name` with the given
    /// concrete type arguments.
    pub fn register_aspect_impl(&mut self, owner_name: String, aspect_name: String, type_args: Vec<Type>)
        requires
            old(self).wf(),
        ensures
            final(self).wf(),
            final(self).aspect_impl_list() == old(self).aspect_impl_list().push((owner_name, aspect_name, type_args)),
            final(self).aspects() == old(self).aspects(),
            final(self).structs() == old(self).structs(),
            final(self).struct_params() == old(self).struct_params(),
            final(self).scopes() == old(self).scopes(),
            forall|t: Seq<char>, m: Seq<char>| #[trigger] final(self).method(t, m) == old(self).method(t, m),
            final(self).enums() == old(self).enums(),
    {
        self.aspect_impls.push((owner_name, aspect_name, type_args));
    }

    /// An empty registry.
    pub fn new() -> (r: Self)
        ensures
            r.wf(),
            r.structs() == Map::<Seq<char>, Vec<(String, InferType)>>::empty(),
            r.struct_params() == Map::<Seq<char>, Vec<TypeVar>>::empty(),
            r.scopes() == Seq::<Seq<String>>::empty(),
            forall|t: Seq<char>, m: Seq<char>| #[trigger] r.method(t, m) is None,
            r.enums() == Map::<Seq<char>, EnumInfo>::empty(),
            r.aspects() == Map::<Seq<char>, Vec<String>>::empty(),
            r.aspect_impl_list() == Seq::<(String, String, Vec<Type>)>::empty(),
    {
        let r = Self {
            struct_env: StrMap::new(),
            struct_type_params: StrMap::new(),
            struct_scope_stack: Vec::new(),
            method_env: StrMap::new(),
            enum_env: StrMap::new(),
            aspect_env: StrMap::new(),
            aspect_impls: Vec::new(),
        };
        assert(r.scopes() =~= Seq::<Seq<String>>::empty());
        r
    }

    /// Registers the fields of struct `name`; inside a scope, `name` is
    /// recorded in the innermost one.
    pub fn register_struct_fields(&mut self, name: String, fields: Vec<(String, InferType)>)
        requires
            old(self).wf(),
        ensures
            final(self).wf(),
            final(self).same_aspects(old(self)),
            final(self).structs() == old(self).structs().insert(name@, fields),
            final(self).struct_params() == old(self).struct_params(),
            old(self).scopes().len() == 0 ==> final(self).scopes() == old(self).scopes(),
            old(self).scopes().len() > 0 ==> final(self).scopes() == old(self).scopes().update(
                old(self).scopes().len() - 1,
                old(self).scopes().last().push(name),
            ),
            forall|t: Seq<char>, m: Seq<char>| #[trigger] final(self).method(t, m) == old(self).method(t, m),
            final(self).enums() == old(self).enums(),
    {
        let key = name.clone();
        self.struct_env.insert(key, fields);
        let n = self.struct_scope_stack.len();
        if n > 0 {
            let ghost old_stack = self.struct_scope_stack@;
            let mut scope = self.struct_scope_stack.pop().unwrap();
            scope.push(name);
            self.struct_scope_stack.push(scope);
            proof {
                assert(self.scopes() =~= old(self).scopes().update(
                    old(self).scopes().len() - 1,
                    old(self).scopes().last().push(name),
                ));
            }
        }
    }

    /// Opens a lexical scope for locally declared structs.
    pub fn push_struct_scope(&mut self)
        requires
            old(self).wf(),
        ensures
            final(self).wf(),
            final(self).same_aspects(old(self)),
            final(self).scopes() == old(self).scopes().push(Seq::empty()),
            final(self).structs() == old(self).structs(),
            final(self).struct_params() == old(self).struct_params(),
            forall|t: Seq<char>, m: Seq<char>| #[trigger] final(self).method(t, m) == old(self).method(t, m),
            final(self).enums() == old(self).enums(),
    {
        self.struct_scope_stack.push(Vec::new());
        assert(self.scopes() =~= old(self).scopes().push(Seq::empty()));
    }

    /// Closes the innermost scope, removing the structs registered in it.
    pub fn pop_struct_scope(&mut self)
        requires
            old(self).wf(),
        ensures
            final(self).wf(),
            final(self).same_aspects(old(self)),
            old(self).scopes().len() == 0 ==> final(self).scopes() == old(self).scopes()
                && final(self).structs() == old(self).structs(),
            old(self).scopes().len() > 0 ==> final(self).scopes() == old(self).scopes().drop_last()
                && final(self).structs() == old(self).structs().remove_keys(names_of(old(self).scopes().last())),
            final(self).struct_params() == old(self).struct_params(),
            forall|t: Seq<char>, m: Seq<char>| #[trigger] final(self).method(t, m) == old(self).method(t, m),
            final(self).enums() == old(self).enums(),
    {
        if let Some(names) = self.struct_scope_stack.pop() {
            proof {
                assert(self.scopes() =~= old(self).scopes().drop_last());
            }
            let ghost base = self.struct_env.view();
            proof {
                assert(names_of(names@.take(0)) =~= Set::empty());
                assert(base.remove_keys(Set::empty()) =~= base);
                assert(old(self).scopes().last() == names@);
            }
            let mut i: usize = 0;
            while i < names.len()
                invariant
                    i <= names.len(),
                    old(self).wf(),
                    self.struct_env.wf(),
                    base == old(self).struct_env.view(),
                    self.struct_env.view() == base.remove_keys(names_of(names@.take(i as int))),
                    self.struct_scope_stack@ == old(self).struct_scope_stack@.drop_last(),
                    self.method_env == old(self).method_env,
                    self.enum_env == old(self).enum_env,
                    self.struct_type_params == old(self).struct_type_params,
                    self.aspect_env == old(self).aspect_env,
                    self.aspect_impls == old(self).aspect_impls,
                decreases names.len() - i,
            {
                let _ = self.struct_env.remove(names[i].as_str());
                proof {
                    assert(names_of(names@.take(i as int + 1)) =~= names_of(names@.take(i as int)).insert(names@[i as int]@)) by {
                        assert forall|k: Seq<char>| names_of(names@.take(i as int + 1)).contains(k) <==> names_of(names@.take(i as int)).insert(names@[i as int]@).contains(k) by {
                            if names_of(names@.take(i as int + 1)).contains(k) {
                                let j = choose|j: int| 0 <= j < i + 1 && #[trigger] names@.take(i as int + 1)[j]@ == k;
                                if j < i {
                                    assert(names@.take(i as int)[j]@ == k);
                                }
                            }
                            if names_of(names@.take(i as int)).contains(k) {
                                let j = choose|j: int| 0 <= j < i && #[trigger] names@.take(i as int)[j]@ == k;
                                assert(names@.take(i as int + 1)[j]@ == k);
                            }
                            if k == names@[i as int]@ {
                                assert(names@.take(i as int + 1)[i as int]@ == k);
                            }
                        }
                    }
                    assert(self.struct_env.view() =~= base.remove_keys(names_of(names@.take(i as int + 1))));
                }
                i += 1;
            }
            assert(names@.take(names.len() as int) =~= names@);
            assert(old(self).scopes().last() == names@);
        }
    }

    /// Registers method `method_name` of type `owner_name` with type `fun_ty`.
    pub fn register_method(&mut self, owner_name: String, method_name: String, fun_ty: InferType)
        requires
            old(self).wf(),
        ensures
            final(self).wf(),
            final(self).same_aspects(old(self)),
            forall|t: Seq<char>, m: Seq<char>| #[trigger] final(self).method(t, m) == if t == owner_name@ && m == method_name@ {
                Some(fun_ty)
            } else {
                old(self).method(t, m)
            },
            final(self).structs() == old(self).structs(),
            final(self).struct_params() == old(self).struct_params(),
            final(self).scopes() == old(self).scopes(),
            final(self).enums() == old(self).enums(),
    {
        let existing = self.method_env.remove(owner_name.as_str());
        let mut inner = match existing {
            Some(m) => m,
            None => StrMap::new(),
        };
        inner.insert(method_name, fun_ty);
        self.method_env.insert(owner_name, inner);
    }

    /// Registers the type parameters of generic struct `name`.
    pub fn register_struct_type_params(&mut self, name: String, type_params: Vec<TypeVar>)
        requires
            old(self).wf(),
        ensures
            final(self).wf(),
            final(self).same_aspects(old(self)),
            final(self).struct_params() == old(self).struct_params().insert(name@, type_params),
            final(self).structs() == old(self).structs(),
            final(self).scopes() == old(self).scopes(),
            forall|t: Seq<char>, m: Seq<char>| #[trigger] final(self).method(t, m) == old(self).method(t, m),
            final(self).enums() == old(self).enums(),
    {
        self.struct_type_params.insert(name, type_params);
    }

    /// Registers enum `name`.
    pub fn register_enum(&mut self, name: String, info: EnumInfo)
        requires
            old(self).wf(),
        ensures
            final(self).wf(),
            final(self).same_aspects(old(self)),
            final(self).enums() == old(self).enums().insert(name@, info),
            final(self).structs() == old(self).structs(),
            final(self).struct_params() == old(self).struct_params(),
            final(self).scopes() == old(self).scopes(),
            forall|t: Seq<char>, m: Seq<char>| #[trigger] final(self).method(t, m) == old(self).method(t, m),
    {
        self.enum_env.insert(name, info);
    }

    /// The fields of struct `name`, if registered.
    pub fn struct_fields(&self, name: &str) -> (r: Option<&Vec<(String, InferType)>>)
        requires
            self.wf(),
        ensures
            r is Some <==> self.structs().contains_key(name@),
            r matches Some(f) ==> *f == self.structs()[name@],
    {
        self.struct_env.get(name)
    }

    /// The type parameters of generic struct `name`, if registered.
    pub fn struct_type_params_for(&self, name: &str) -> (r: Option<&Vec<TypeVar>>)
        requires
            self.wf(),
        ensures
            r is Some <==> self.struct_params().contains_key(name@),
            r matches Some(p) ==> *p == self.struct_params()[name@],
    {
        self.struct_type_params.get(name)
    }

    /// The type of method `method_name` of type `owner_name`, if registered.
    pub fn method_type(&self, owner_name: &str, method_name: &str) -> (r: Option<&InferType>)
        requires
            self.wf(),
        ensures
            r is Some <==> self.method(owner_name@, method_name@) is Some,
            r matches Some(t) ==> Some(*t) == self.method(owner_name@, method_name@),
    {
        match self.method_env.get(owner_name) {
            Some(inner) => inner.get(method_name),
            None => None,
        }
    }

    /// The enum `name`, if registered.
    pub fn enum_info(&self, name: &str) -> (r: Option<&EnumInfo>)
        requires
            self.wf(),
        ensures
            r is Some <==> self.enums().contains_key(name@),
            r matches Some(e) ==> *e == self.enums()[name@],
    {
        self.enum_env.get(name)
    }

    /// All registered struct fields.
    pub(crate) fn raw_struct_env(&self) -> (r: &StrMap<Vec<(String, InferType)>>)
        ensures
            r.view() == self.structs(),
            self.wf() ==> r.wf(),
    {
        &self.struct_env
    }

    /// All registered struct type parameters.
    pub(crate) fn raw_struct_type_params(&self) -> (r: &StrMap<Vec<TypeVar>>)
        ensures
            r.view() == self.struct_params(),
            self.wf() ==> r.wf(),
    {
        &self.struct_type_params
    }

    /// All registered methods, by type name.
    pub(crate) fn raw_method_env(&self) -> (r: &StrMap<StrMap<InferType>>)
        ensures
            forall|t: Seq<char>, m: Seq<char>| #[trigger] self.method(t, m) == if r.view().contains_key(t)
                && r.view()[t].view().contains_key(m) {
                Some(r.view()[t].view()[m])
            } else {
                None
            },
            self.wf() ==> r.wf(),
    {
        &self.method_env
    }

    /// All registered enums.
    pub(crate) fn raw_enum_env(&self) -> (r: &StrMap<EnumInfo>)
        ensures
            r.view() == self.enums(),
            self.wf() ==> r.wf(),
    {
        &self.enum_env
    }
}

impl Default for TypeRegistry {
    fn default() -> (r: Self)
        ensures
            r.wf(),
            r.structs() == Map::<Seq<char>, Vec<(String, InferType)>>::empty(),
            r.scopes() == Seq::<Seq<String>>::empty(),
            r.enums() == Map::<Seq<char>, EnumInfo>::empty(),
    {
        Self::new()
    }
}

} // verus!
