//! Declarations as the type checker hands them to evaluation.

use vstd::prelude::*;

use crate::ast::{FieldDef, GenericParam, Span, VariantDef};
use crate::syntax::{Block, Decl, Expr};
use crate::types::Type;

verus! {

/// A checked struct declaration; evaluation gives it no runtime form.
#[derive(Debug)]
pub struct TypedStructDecl {
    pub name: String,
    pub generics: Vec<GenericParam>,
    pub fields: Vec<FieldDef>,
    pub span: Span,
}

/// A checked enum declaration; evaluation gives it no runtime form.
#[derive(Debug)]
pub struct TypedEnumDecl {
    pub name: String,
    pub generics: Vec<GenericParam>,
    pub variants: Vec<VariantDef>,
    pub span: Span,
}

} // verus!
verus! {

/// An expression of the program with its resolved type: the expression
/// itself, its type, and the typed forms of the expressions and blocks it
/// holds, in the order the second pass builds them.
#[derive(Debug)]
pub struct TypedExpr<'a> {
    pub src: &'a Expr,
    pub ty: Type,
    pub parts: Vec<TypedExpr<'a>>,
    pub blocks: Vec<TypedBlock<'a>>,
}

/// A block with its typed declarations and its typed tail expression.
#[derive(Debug)]
pub struct TypedBlock<'a> {
    pub src: &'a Block,
    pub decls: Vec<TypedDecl<'a>>,
    pub tail: Option<Box<TypedExpr<'a>>>,
}

/// A declaration or statement with the typed forms of the expressions and
/// blocks it holds, in the order the second pass builds them (none for a
/// generic function or a generalized closure, whose bodies stay untyped).
#[derive(Debug)]
pub struct TypedDecl<'a> {
    pub src: &'a Decl,
    pub parts: Vec<TypedExpr<'a>>,
    pub blocks: Vec<TypedBlock<'a>>,
}

} // verus!
