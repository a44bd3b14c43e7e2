//! The syntax tree of expressions, statements and blocks: what the first
//! pass of the type checker walks.

use vstd::prelude::*;

use crate::ast::{
    AspectDecl, AssignOp, BinOp, EnumDecl, GenericParam, ImplBlock, Literal, Param, Pattern, Span, StructDecl,
    TypeExpr, UnaryOp,
};

verus! {

/// An expression.
#[derive(Debug)]
pub enum Expr {
    Literal(Literal, Span),
    Ident(String, Span),
    Path(Vec<String>, Span),
    Tuple(Vec<Expr>, Span),
    Array(Vec<Expr>, Span),
    BinOp(Box<Expr>, BinOp, Box<Expr>, Span),
    UnaryOp(UnaryOp, Box<Expr>, Span),
    Assign { target: AssignTarget, op: AssignOp, value: Box<Expr>, span: Span },
    Call { callee: Box<Expr>, args: Vec<Expr>, span: Span },
    MethodCall { receiver: Box<Expr>, method: String, args: Vec<Expr>, span: Span },
    FieldAccess { object: Box<Expr>, field: String, span: Span },
    TupleAccess { object: Box<Expr>, index: usize, span: Span },
    Index { object: Box<Expr>, index: Box<Expr>, span: Span },
    Cast { expr: Box<Expr>, target_type: TypeExpr, span: Span },
    Ascribe { expr: Box<Expr>, ann: TypeExpr, span: Span },
    Match { scrutinee: Box<Expr>, arms: Vec<MatchArm>, span: Span },
    If { condition: Box<Expr>, then_branch: Block, else_branch: Option<Block>, span: Span },
    Loop { body: Block, span: Span },
    Closure { params: Vec<Param>, return_type: Option<TypeExpr>, body: Block, span: Span },
    StructLiteral { path: Vec<String>, fields: Vec<(String, Expr)>, span: Span },
    PropagateError { expr: Box<Expr>, span: Span },
}

/// An arm of a `match`: a pattern, an optional guard, and a body.
#[derive(Debug)]
pub struct MatchArm {
    pub pattern: Pattern,
    pub guard: Option<Expr>,
    pub body: Block,
    pub span: Span,
}

/// What an assignment writes to.
#[derive(Debug)]
pub enum AssignTarget {
    Ident(String, Span),
    FieldAccess { object: Box<Expr>, field: String, span: Span },
    Index { object: Box<Expr>, index: Box<Expr>, span: Span },
}

/// `{ decl* expr? }`: the tail expression is the block's value.
#[derive(Debug)]
pub struct Block {
    pub stmts: Vec<Decl>,
    pub tail: Option<Box<Expr>>,
    pub span: Span,
}

/// A `let` (immutable) or `mut` (mutable) binding.
#[derive(Debug)]
pub struct BindDecl {
    pub name: String,
    pub type_ann: Option<TypeExpr>,
    pub value: Expr,
    pub span: Span,
}

/// A function declaration with its body.
#[derive(Debug)]
pub struct FunDecl {
    pub name: String,
    pub generics: Vec<GenericParam>,
    pub params: Vec<Param>,
    pub return_type: Option<TypeExpr>,
    pub body: Block,
    pub span: Span,
}

/// An impl block with the bodies of its methods.
#[derive(Debug)]
pub struct ImplDecl {
    pub header: ImplBlock,
    pub methods: Vec<FunDecl>,
}

/// A declaration, at the top level of a program or inside a block.
#[derive(Debug)]
pub enum Decl {
    Let(BindDecl),
    Mut(BindDecl),
    Fun(FunDecl),
    Struct(StructDecl),
    Enum(EnumDecl),
    Impl(ImplDecl),
    Aspect(AspectDecl),
    Stmt(Stmt),
}

/// A statement.
#[derive(Debug)]
pub enum Stmt {
    While { condition: Expr, body: Block, span: Span },
    For { init: Option<ForInit>, condition: Option<Expr>, step: Option<Expr>, body: Block, span: Span },
    ForIn { binding: String, iterable: Expr, body: Block, span: Span },
    Return { value: Option<Expr>, span: Span },
    Break { value: Option<Expr>, span: Span },
    Continue(Span),
    Expr(Expr),
}

/// The initializer of a C-style `for`.
#[derive(Debug)]
pub enum ForInit {
    Mut(BindDecl),
    Expr(Expr),
}

/// A program: its declarations in order.
#[derive(Debug)]
pub struct Program {
    pub decls: Vec<Decl>,
}

} // verus!
