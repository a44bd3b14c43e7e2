//! Source-level syntax: spans, type expressions, declarations of structs and
//! enums, operators and import paths.

use vstd::prelude::*;

verus! {

/// Source location (byte offsets + resolved line/col into the original source string).
#[derive(Debug, PartialEq)]
pub struct Span {
    pub start: usize,
    pub end: usize,
    pub filename: String,
    pub line: u32,
    pub col: u32,
}

impl Span {
    /// A span over `start..end` in `filename`, with line and column not yet resolved (0).
    pub fn new(start: usize, end: usize, filename: String) -> (s: Span)
        ensures
            s.start == start,
            s.end == end,
            s.filename@ == filename@,
            s.line == 0,
            s.col == 0,
    {
        Span { start, end, filename, line: 0, col: 0 }
    }
}

/// `a` and `b` denote the same source location.
pub open spec fn same_span(a: Span, b: Span) -> bool {
    a.start == b.start && a.end == b.end && a.filename@ == b.filename@ && a.line == b.line && a.col == b.col
}

impl Clone for Span {
    fn clone(&self) -> (r: Self)
        ensures
            r.start == self.start,
            r.end == self.end,
            r.filename@ == self.filename@,
            r.line == self.line,
            r.col == self.col,
    {
        Span {
            start: self.start,
            end: self.end,
            filename: self.filename.clone(),
            line: self.line,
            col: self.col,
        }
    }
}


// ── Types ─────────────────────────────────────────────────────────────────────

/// A type as written in the source.
#[derive(Debug)]
pub enum TypeExpr {
    Named(String, Vec<TypeExpr>),
    Unit,
    Tuple(Vec<TypeExpr>),
    Array(Box<TypeExpr>),
    Fun(Vec<TypeExpr>, Option<Box<TypeExpr>>),
}

/// Mathematical model of a [`TypeExpr`].
pub enum TypeExprView {
    Named(Seq<char>, Seq<TypeExprView>),
    Unit,
    Tuple(Seq<TypeExprView>),
    Array(Box<TypeExprView>),
    Fun(Seq<TypeExprView>, Option<Box<TypeExprView>>),
}

pub open spec fn type_expr_model(t: &TypeExpr) -> TypeExprView
    decreases t, 0nat,
{
    match t {
        TypeExpr::Named(n, args) => TypeExprView::Named(n@, type_exprs_model(args@)),
        TypeExpr::Unit => TypeExprView::Unit,
        TypeExpr::Tuple(ts) => TypeExprView::Tuple(type_exprs_model(ts@)),
        TypeExpr::Array(e) => TypeExprView::Array(Box::new(type_expr_model(e))),
        TypeExpr::Fun(ps, ret) => TypeExprView::Fun(
            type_exprs_model(ps@),
            match ret {
                Some(r) => Some(Box::new(type_expr_model(r))),
                None => None,
            },
        ),
    }
}

pub open spec fn type_exprs_model(s: Seq<TypeExpr>) -> Seq<TypeExprView>
    decreases s, 1nat,
{
    if s.len() == 0 {
        Seq::empty()
    } else {
        type_exprs_model(s.drop_last()).push(type_expr_model(&s.last()))
    }
}

impl View for TypeExpr {
    type V = TypeExprView;

    open spec fn view(&self) -> TypeExprView {
        type_expr_model(self)
    }
}

pub proof fn lemma_type_exprs_model(s: Seq<TypeExpr>)
    ensures
        type_exprs_model(s).len() == s.len(),
        forall|i: int| 0 <= i < s.len() ==> #[trigger] type_exprs_model(s)[i] == type_expr_model(&s[i]),
    decreases s.len(),
{
    if s.len() > 0 {
        lemma_type_exprs_model(s.drop_last());
    }
}

// ── Supporting declarations ───────────────────────────────────────────────────

/// A generic parameter, with an optional bound.
#[derive(Debug)]
pub struct GenericParam {
    pub name: String,
    pub bound: Option<TypeExpr>,
}

/// A function parameter.
#[derive(Debug)]
pub struct Param {
    pub mutable: bool,
    pub name: String,
    pub type_ann: Option<TypeExpr>,
    pub span: Span,
}

/// What registering a method reads of a function declaration: its name,
/// its parameters and its declared return type.
#[derive(Debug)]
pub struct FunSignature {
    pub name: String,
    pub params: Vec<Param>,
    pub return_type: Option<TypeExpr>,
}

/// A field of a struct or of an enum variant.
#[derive(Debug)]
pub struct FieldDef {
    pub name: String,
    pub type_ann: TypeExpr,
    pub span: Span,
}

/// A variant of an enum.
#[derive(Debug)]
pub struct VariantDef {
    pub name: String,
    pub fields: Vec<FieldDef>,
    pub span: Span,
}

/// A struct declaration.
#[derive(Debug)]
pub struct StructDecl {
    pub name: String,
    pub generics: Vec<GenericParam>,
    pub fields: Vec<FieldDef>,
    pub span: Span,
}

/// An enum declaration.
#[derive(Debug)]
pub struct EnumDecl {
    pub name: String,
    pub generics: Vec<GenericParam>,
    pub variants: Vec<VariantDef>,
    pub span: Span,
}

/// An aspect declaration: its name, its generic parameters and its methods.
#[derive(Debug)]
pub struct AspectDecl {
    pub name: String,
    pub generics: Vec<String>,
    pub methods: Vec<FunSignature>,
    pub span: Span,
}

/// An impl block, optionally of an aspect, for a target type.
#[derive(Debug)]
pub struct ImplBlock {
    pub aspect_name: Option<String>,
    pub aspect_type_args: Vec<TypeExpr>,
    pub target_type: TypeExpr,
    pub methods: Vec<FunSignature>,
    pub span: Span,
}

/// A declaration that defines types or their methods.
#[derive(Debug)]
pub enum TypeDecl {
    Struct(StructDecl),
    Enum(EnumDecl),
    Impl(ImplBlock),
    Aspect(AspectDecl),
}

// ── Literals and patterns ─────────────────────────────────────────────────────

/// A literal. A float literal is held by the bits of its IEEE-754 value,
/// which no check reads.
#[derive(Debug)]
pub enum Literal {
    Int(i64),
    Float(u64),
    Bool(bool),
    Str(String),
    Nope,
    Unit,
}

/// A pattern of a match arm or of a destructuring binding.
#[derive(Debug)]
pub enum Pattern {
    Wildcard(Span),
    Nope(Span),
    Literal(Literal, Span),
    Binding(String, Span),
    EnumVariant { path: Vec<String>, fields: Vec<String>, span: Span },
    Tuple(Vec<Pattern>, Span),
}

// ── Operators ─────────────────────────────────────────────────────────────────

#[derive(Debug, Clone, Copy, PartialEq, Eq, Structural)]
pub enum BinOp {
    Add,
    Sub,
    Mul,
    Div,
    Rem,
    Eq,
    Ne,
    Lt,
    Le,
    Gt,
    Ge,
    And,
    Or,
    Range,
    RangeInclusive,
}

#[derive(Debug, Clone, Copy, PartialEq, Eq, Structural)]
pub enum UnaryOp {
    Neg,
    Not,
}

#[derive(Debug, Clone, Copy, PartialEq, Eq, Structural)]
pub enum AssignOp {
    Assign,
    AddAssign,
    SubAssign,
    MulAssign,
    DivAssign,
    RemAssign,
}

// ── Import paths ──────────────────────────────────────────────────────────────

/// Where an import or export path starts.
#[derive(Debug, PartialEq)]
pub enum PathRoot {
    /// `root::` — the root module.
    Root,
    /// `self::` — the current module.
    Self_,
    /// `super::` — the parent module.
    Super,
    /// `std::` — the standard library.
    Std,
    /// A child module of the current one.
    Name(String),
}

/// The tree of an import or export path after its root.
#[derive(Debug)]
pub enum ImportTree {
    /// A terminal name, optionally renamed.
    Name { name: String, alias: Option<String> },
    /// A module segment followed by the rest of the path.
    Path { name: String, tree: Box<ImportTree> },
    /// `{a, b, ...}`.
    Group(Vec<ImportTree>),
    /// `*`.
    Glob,
}


/// An import or export path: its root and the tree after it.
#[derive(Debug)]
pub struct ImportPath {
    pub root: PathRoot,
    pub tree: ImportTree,
}

/// `import <path>;`
#[derive(Debug)]
pub struct ImportDecl {
    pub path: ImportPath,
    pub span: Span,
}

/// `export <path>;` — re-exports names of another module.
#[derive(Debug)]
pub struct ExportDecl {
    pub path: ImportPath,
    pub span: Span,
}

/// Whether a declaration is part of its module's public surface.
#[derive(Debug, Clone, Copy, PartialEq, Eq, Structural)]
pub enum Visibility {
    Public,
    Private,
}

/// The sort of a top-level declaration.
#[derive(Debug, Clone, Copy, PartialEq, Eq, Structural)]
pub enum DeclKind {
    Let,
    Mut,
    Fun,
    Struct,
    Enum,
    Impl,
    Aspect,
    Stmt,
}

/// What module-level checks read of a top-level declaration: its sort, its
/// visibility, its name (empty for declarations without one) and span, and,
/// for a function, its generic parameters, its parameters and its declared
/// return type (empty and `None` for other declarations).
#[derive(Debug)]
pub struct DeclHeader {
    pub kind: DeclKind,
    pub visibility: Visibility,
    pub name: String,
    pub span: Span,
    pub generics: Vec<GenericParam>,
    pub params: Vec<Param>,
    pub return_type: Option<TypeExpr>,
}

/// The module-level shape of a source file: its imports, its exports and
/// the headers of its declarations.
#[derive(Debug)]
pub struct ModuleInterface {
    pub imports: Vec<ImportDecl>,
    pub exports: Vec<ExportDecl>,
    pub decls: Vec<DeclHeader>,
}

} // verus!
