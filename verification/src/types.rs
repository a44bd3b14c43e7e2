//! Fully resolved types, as produced by type checking and consumed by evaluation.

use vstd::prelude::*;
use vstd::string::*;

use crate::text::push_str;

verus! {

/// Resolved types — no type variables exist here; generics have been monomorphised.
#[derive(Debug, PartialEq)]
pub enum Type {
    Int,
    Float,
    Bool,
    Str,
    Unit,
    /// The bottom type `!`. Produced by expressions that never return.
    Never,
    Tuple(Vec<Type>),
    Array(Box<Type>),
    Fun(Vec<Type>, Box<Type>),
    /// A named type (struct, enum) with concrete type arguments.
    Named(String, Vec<Type>),
    /// Convenience aliases for `Named("Perhaps", ..)` and `Named("Result", ..)`.
    Perhaps(Box<Type>),
    Result(Box<Type>, Box<Type>),
}

/// Mathematical model of a [`Type`].
pub enum TypeView {
    Int,
    Float,
    Bool,
    Str,
    Unit,
    Never,
    Tuple(Seq<TypeView>),
    Array(Box<TypeView>),
    Fun(Seq<TypeView>, Box<TypeView>),
    Named(Seq<char>, Seq<TypeView>),
    Perhaps(Box<TypeView>),
    Result(Box<TypeView>, Box<TypeView>),
}

pub open spec fn type_model(t: &Type) -> TypeView
    decreases t, 0nat,
{
    match t {
        Type::Int => TypeView::Int,
        Type::Float => TypeView::Float,
        Type::Bool => TypeView::Bool,
        Type::Str => TypeView::Str,
        Type::Unit => TypeView::Unit,
        Type::Never => TypeView::Never,
        Type::Tuple(ts) => TypeView::Tuple(types_model(ts@)),
        Type::Array(e) => TypeView::Array(Box::new(type_model(e))),
        Type::Fun(ps, r) => TypeView::Fun(types_model(ps@), Box::new(type_model(r))),
        Type::Named(n, args) => TypeView::Named(n@, types_model(args@)),
        Type::Perhaps(e) => TypeView::Perhaps(Box::new(type_model(e))),
        Type::Result(a, b) => TypeView::Result(Box::new(type_model(a)), Box::new(type_model(b))),
    }
}

pub open spec fn types_model(s: Seq<Type>) -> Seq<TypeView>
    decreases s, 1nat,
{
    if s.len() == 0 {
        Seq::empty()
    } else {
        types_model(s.drop_last()).push(type_model(&s.last()))
    }
}

impl View for Type {
    type V = TypeView;

    open spec fn view(&self) -> TypeView {
        type_model(self)
    }
}

/// The model of a sequence of types has the same length, element by element.
pub proof fn lemma_types_model(s: Seq<Type>)
    ensures
        types_model(s).len() == s.len(),
        forall|i: int| 0 <= i < s.len() ==> #[trigger] types_model(s)[i] == type_model(&s[i]),
    decreases s.len(),
{
    if s.len() > 0 {
        lemma_types_model(s.drop_last());
    }
}

/// Step lemma: the model of a prefix one longer.
pub proof fn lemma_types_model_take(s: Seq<Type>, i: int)
    requires
        0 <= i < s.len(),
    ensures
        types_model(s.take(i + 1)) == types_model(s.take(i)).push(type_model(&s[i])),
{
    assert(s.take(i + 1).drop_last() =~= s.take(i));
}

/// Builds the model of a sequence of types from their models.
pub proof fn lemma_types_model_push(s: Seq<Type>, t: Type)
    ensures
        types_model(s.push(t)) == types_model(s).push(type_model(&t)),
{
    assert(s.push(t).drop_last() =~= s);
}

/// Clones a resolved type.
pub fn clone_type(t: &Type) -> (r: Type)
    ensures
        r@ == t@,
    decreases t, 0nat,
{
    match t {
        Type::Int => Type::Int,
        Type::Float => Type::Float,
        Type::Bool => Type::Bool,
        Type::Str => Type::Str,
        Type::Unit => Type::Unit,
        Type::Never => Type::Never,
        Type::Tuple(ts) => Type::Tuple(clone_types(ts)),
        Type::Array(e) => Type::Array(Box::new(clone_type(e))),
        Type::Fun(ps, r) => Type::Fun(clone_types(ps), Box::new(clone_type(r))),
        Type::Named(n, args) => Type::Named(n.clone(), clone_types(args)),
        Type::Perhaps(e) => Type::Perhaps(Box::new(clone_type(e))),
        Type::Result(a, b) => Type::Result(Box::new(clone_type(a)), Box::new(clone_type(b))),
    }
}

/// Clones a vector of resolved types.
pub fn clone_types(ts: &Vec<Type>) -> (r: Vec<Type>)
    ensures
        types_model(r@) == types_model(ts@),
    decreases ts, 1nat,
{
    let mut r: Vec<Type> = Vec::new();
    let mut i: usize = 0;
    while i < ts.len()
        invariant
            i <= ts.len(),
            types_model(r@) == types_model(ts@.take(i as int)),
        decreases ts.len() - i,
    {
        let c = clone_type(&ts[i]);
        proof {
            lemma_types_model_take(ts@, i as int);
            lemma_types_model_push(r@, c);
        }
        r.push(c);
        i += 1;
    }
    assert(ts@.take(ts.len() as int) =~= ts@);
    r
}

impl Clone for Type {
    fn clone(&self) -> (r: Self)
        ensures
            r@ == self@,
    {
        clone_type(self)
    }
}

/// Structural equality of resolved types.
pub fn type_eq(a: &Type, b: &Type) -> (r: bool)
    ensures
        r == (a@ == b@),
    decreases a, 0nat,
{
    match (a, b) {
        (Type::Int, Type::Int) => true,
        (Type::Float, Type::Float) => true,
        (Type::Bool, Type::Bool) => true,
        (Type::Str, Type::Str) => true,
        (Type::Unit, Type::Unit) => true,
        (Type::Never, Type::Never) => true,
        (Type::Tuple(x), Type::Tuple(y)) => types_eq(x, y),
        (Type::Array(x), Type::Array(y)) => type_eq(x, y),
        (Type::Fun(px, rx), Type::Fun(py, ry)) => types_eq(px, py) && type_eq(rx, ry),
        (Type::Named(nx, ax), Type::Named(ny, ay)) => *nx == *ny && types_eq(ax, ay),
        (Type::Perhaps(x), Type::Perhaps(y)) => type_eq(x, y),
        (Type::Result(x1, x2), Type::Result(y1, y2)) => type_eq(x1, y1) && type_eq(x2, y2),
        _ => false,
    }
}

/// Element-wise structural equality of two vectors of resolved types.
pub fn types_eq(a: &Vec<Type>, b: &Vec<Type>) -> (r: bool)
    ensures
        r == (types_model(a@) == types_model(b@)),
    decreases a, 1nat,
{
    proof {
        lemma_types_model(a@);
        lemma_types_model(b@);
    }
    if a.len() != b.len() {
        return false;
    }
    let mut i: usize = 0;
    while i < a.len()
        invariant
            i <= a.len(),
            a.len() == b.len(),
            types_model(a@).len() == a.len(),
            types_model(b@).len() == b.len(),
            forall|j: int| 0 <= j < a.len() ==> #[trigger] types_model(a@)[j] == type_model(&a@[j]),
            forall|j: int| 0 <= j < b.len() ==> #[trigger] types_model(b@)[j] == type_model(&b@[j]),
            forall|j: int| 0 <= j < i ==> types_model(a@)[j] == types_model(b@)[j],
        decreases a.len() - i,
    {
        if !type_eq(&a[i], &b[i]) {
            assert(types_model(a@)[i as int] != types_model(b@)[i as int]);
            return false;
        }
        i += 1;
    }
    assert(types_model(a@) =~= types_model(b@));
    true
}


/// The rendering of a type, as printed in messages: `Int`, `String`, `()`,
/// `(Int, Bool)`, `Int[]`, `fun(Int) -> Bool`, `Point<Int>`, `Perhaps<Int>`,
/// `Result<Int, String>`.
pub open spec fn type_text(t: TypeView) -> Seq<char>
    decreases t, 0nat,
{
    match t {
        TypeView::Int => "Int"@,
        TypeView::Float => "Float"@,
        TypeView::Bool => "Bool"@,
        TypeView::Str => "String"@,
        TypeView::Unit => "()"@,
        TypeView::Never => "!"@,
        TypeView::Tuple(ts) => "("@ + types_text(ts) + ")"@,
        TypeView::Array(e) => type_text(*e) + "[]"@,
        TypeView::Fun(ps, r) => "fun("@ + types_text(ps) + ") -> "@ + type_text(*r),
        TypeView::Named(n, args) => if args.len() == 0 {
            n
        } else {
            n + "<"@ + types_text(args) + ">"@
        },
        TypeView::Perhaps(e) => "Perhaps<"@ + type_text(*e) + ">"@,
        TypeView::Result(a, b) => "Result<"@ + type_text(*a) + ", "@ + type_text(*b) + ">"@,
    }
}

/// The renderings of a sequence of types, separated by `, `.
pub open spec fn types_text(s: Seq<TypeView>) -> Seq<char>
    decreases s, 1nat,
{
    if s.len() == 0 {
        Seq::empty()
    } else if s.len() == 1 {
        type_text(s[0])
    } else {
        types_text(s.drop_last()) + ", "@ + type_text(s.last())
    }
}

/// Appends the rendering of `t` to `out`.
pub fn write_type(t: &Type, out: &mut String)
    ensures
        final(out)@ == old(out)@ + type_text(t@),
    decreases t, 0nat,
{
    let ghost o = out@;
    match t {
        Type::Int => push_str(out, "Int"),
        Type::Float => push_str(out, "Float"),
        Type::Bool => push_str(out, "Bool"),
        Type::Str => push_str(out, "String"),
        Type::Unit => push_str(out, "()"),
        Type::Never => push_str(out, "!"),
        Type::Tuple(ts) => {
            push_str(out, "(");
            write_types(ts, out);
            push_str(out, ")");
        },
        Type::Array(e) => {
            write_type(e, out);
            push_str(out, "[]");
        },
        Type::Fun(ps, r) => {
            push_str(out, "fun(");
            write_types(ps, out);
            push_str(out, ") -> ");
            write_type(r, out);
        },
        Type::Named(n, args) => {
            push_str(out, n.as_str());
            if args.len() != 0 {
                proof { lemma_types_model(args@); }
                push_str(out, "<");
                write_types(args, out);
                push_str(out, ">");
            } else {
                proof { lemma_types_model(args@); }
            }
        },
        Type::Perhaps(e) => {
            push_str(out, "Perhaps<");
            write_type(e, out);
            push_str(out, ">");
        },
        Type::Result(a, b) => {
            push_str(out, "Result<");
            write_type(a, out);
            push_str(out, ", ");
            write_type(b, out);
            push_str(out, ">");
        },
    }
    assert(out@ =~= o + type_text(t@));
}

/// Appends the renderings of `ts`, separated by `, `, to `out`.
pub fn write_types(ts: &Vec<Type>, out: &mut String)
    ensures
        final(out)@ == old(out)@ + types_text(types_model(ts@)),
    decreases ts, 1nat,
{
    let ghost o = out@;
    let mut i: usize = 0;
    while i < ts.len()
        invariant
            i <= ts.len(),
            out@ == o + types_text(types_model(ts@.take(i as int))),
        decreases ts.len() - i,
    {
        proof {
            lemma_types_model_take(ts@, i as int);
            lemma_types_model(ts@.take(i as int));
            let m = types_model(ts@.take(i as int));
            assert(m.push(type_model(&ts@[i as int])).drop_last() =~= m);
        }
        if i != 0 {
            push_str(out, ", ");
        }
        write_type(&ts[i], out);
        proof {
            let m = types_model(ts@.take(i as int));
            if i == 0 {
                assert(m.len() == 0);
                assert(out@ =~= o + types_text(m.push(type_model(&ts@[0]))));
            } else {
                assert(out@ =~= o + types_text(m.push(type_model(&ts@[i as int]))));
            }
        }
        i += 1;
    }
    assert(ts@.take(ts.len() as int) =~= ts@);
}

impl Type {
    /// The rendering of this type, as `Display` would print it.
    pub fn to_display_string(&self) -> (s: String)
        ensures
            s@ == type_text(self@),
    {
        let mut s = String::new();
        write_type(self, &mut s);
        assert(s@ =~= type_text(self@));
        s
    }
}

} // verus!
