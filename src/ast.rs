//! The parts of an EXPRESS syntax tree that the namespace and the analyses read.
use crate::derive::DeriveClause;
use vstd::prelude::*;

verus! {

/// The expression of a `SUPERTYPE OF ( ... )` clause.
///
/// `ONEOF` with more than two operands nests to the right:
/// `ONEOF(a, b, c)` is `OneOf(a, OneOf(b, c))`, which expands to the same bundles.
#[derive(Debug, PartialEq, Eq)]
pub enum SuperTypeExpr {
    /// A subtype named by reference.
    Reference(String),
    OneOf(Box<SuperTypeExpr>, Box<SuperTypeExpr>),
    And(Box<SuperTypeExpr>, Box<SuperTypeExpr>),
    AndOr(Box<SuperTypeExpr>, Box<SuperTypeExpr>),
}

/// An explicit attribute, `name : [ OPTIONAL ] type ;`.
#[derive(Clone, Debug, PartialEq, Eq)]
pub struct AttributeDecl {
    pub name: String,
    pub optional: bool,
    /// The type as written, without surrounding spaces.
    pub ty: String,
}

/// An `ENTITY` declaration.
#[derive(Debug, PartialEq, Eq)]
pub struct EntityDecl {
    pub name: String,
    /// The names in its `SUBTYPE OF ( ... )` list.
    pub subtype_of: Vec<String>,
    /// Its `SUPERTYPE OF ( ... )` expression, where it has one.
    pub supertype_of: Option<SuperTypeExpr>,
    /// Its explicit attributes, in order.
    pub attributes: Vec<AttributeDecl>,
    /// Its `DERIVE` clause, where it has one.
    pub derive: Option<DeriveClause>,
}

/// A `TYPE` declaration, `TYPE name = underlying ; END_TYPE ;`.
#[derive(Debug, PartialEq, Eq)]
pub struct TypeDecl {
    pub name: String,
    /// The underlying type as written, without surrounding spaces.
    pub underlying: String,
}

/// A `SCHEMA` and the declarations in it, in source order.
#[derive(Debug, PartialEq, Eq)]
pub struct SchemaDecl {
    pub name: String,
    pub entities: Vec<EntityDecl>,
    pub types: Vec<TypeDecl>,
}

/// The schemas of a source text, in source order.
#[derive(Debug, PartialEq, Eq)]
pub struct SyntaxTree {
    pub schemas: Vec<SchemaDecl>,
}

} // verus!
