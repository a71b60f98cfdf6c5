//! The abstract syntax of a schema: items, fields, variants and types,
//! each carrying the source span it was parsed from.

use std::ops::Range;
use vstd::prelude::*;

verus! {

/// A byte range in the schema's source text.
pub type Span = Range<usize>;

/// A syntax node together with the span of source text it came from.
#[derive(Debug)]
pub struct Spanned<T> {
    pub node: T,
    pub span: Span,
}

impl<T: Clone> Clone for Spanned<T> {
    fn clone(&self) -> (res: Self)
        ensures
            res.span == self.span,
            cloned::<T>(self.node, res.node),
    {
        Spanned { node: self.node.clone(), span: self.span.start..self.span.end }
    }
}

impl<T> Spanned<T> {
    /// Pairs a node with its span.
    pub fn new(node: T, span: Span) -> (res: Self)
        ensures
            res.node == node,
            res.span == span,
    {
        Self { node, span }
    }
}

/// A whole schema: its top-level items in source order.
#[derive(Debug, Clone)]
pub struct Schema {
    pub items: Vec<Spanned<Item>>,
}

/// A top-level definition.
#[derive(Debug, Clone)]
pub enum Item {
    Struct(Struct),
    Message(Message),
    Enum(Enum),
    Union(Union),
}

/// A field or payload type.
#[derive(Debug)]
pub enum Type {
    Bool,
    U8,
    U16,
    U32,
    U64,
    I8,
    I16,
    I32,
    I64,
    F32,
    F64,
    String,
    Array(Box<Spanned<Type>>),
    /// A map from keys of the first type to values of the second.
    MapOf(Box<Spanned<Type>>, Box<Spanned<Type>>),
    Named(String),
}

impl Type {
    fn clone_spanned(t: &Spanned<Type>) -> (res: Spanned<Type>)
        ensures
            res == *t,
        decreases t.node, 1nat,
    {
        Spanned { node: t.node.clone(), span: t.span.start..t.span.end }
    }
}

impl Clone for Type {
    fn clone(&self) -> (res: Self)
        ensures
            res == *self,
        decreases self, 0nat,
    {
        match self {
            Type::Bool => Type::Bool,
            Type::U8 => Type::U8,
            Type::U16 => Type::U16,
            Type::U32 => Type::U32,
            Type::U64 => Type::U64,
            Type::I8 => Type::I8,
            Type::I16 => Type::I16,
            Type::I32 => Type::I32,
            Type::I64 => Type::I64,
            Type::F32 => Type::F32,
            Type::F64 => Type::F64,
            Type::String => Type::String,
            Type::Array(inner) => Type::Array(Box::new(Type::clone_spanned(inner))),
            Type::MapOf(key, value) => Type::MapOf(
                Box::new(Type::clone_spanned(key)),
                Box::new(Type::clone_spanned(value)),
            ),
            Type::Named(name) => Type::Named(name.clone()),
        }
    }
}

/// A field of a struct: always present unless marked optional.
#[derive(Debug, Clone)]
pub struct StructField {
    pub name: Spanned<String>,
    pub ty: Spanned<Type>,
    pub optional: bool,
}

/// A struct definition.
#[derive(Debug, Clone)]
pub struct Struct {
    pub name: Spanned<String>,
    pub fields: Vec<Spanned<StructField>>,
}

/// A field of a message, identified on the wire by its index.
#[derive(Debug, Clone)]
pub struct MessageField {
    pub name: Spanned<String>,
    pub ty: Spanned<Type>,
    pub index: Spanned<u32>,
    pub optional: bool,
}

/// A message definition.
#[derive(Debug, Clone)]
pub struct Message {
    pub name: Spanned<String>,
    pub fields: Vec<Spanned<MessageField>>,
}

/// A variant of an enum, identified on the wire by its index.
#[derive(Debug, Clone)]
pub struct EnumVariant {
    pub name: Spanned<String>,
    pub index: Spanned<u32>,
}

/// An enum definition.
#[derive(Debug, Clone)]
pub struct Enum {
    pub name: Spanned<String>,
    pub variants: Vec<Spanned<EnumVariant>>,
}

/// A variant of a union, with an optional payload type.
#[derive(Debug, Clone)]
pub struct UnionVariant {
    pub name: Spanned<String>,
    pub ty: Option<Spanned<Type>>,
    pub index: Spanned<u32>,
}

/// A union definition.
#[derive(Debug, Clone)]
pub struct Union {
    pub name: Spanned<String>,
    pub variants: Vec<Spanned<UnionVariant>>,
}

} // verus!
