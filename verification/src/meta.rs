//! Descriptions of the items that a guarded type is made of: its fields,
//! their types and what surrounds them. Indices for the slots of a type are
//! given in the order of these descriptions.

use vstd::prelude::*;

verus! {

/// Who can see an item.
pub enum Access {
    Private,
    Public { within: Option<In> },
}

/// The scope that a restricted public item is seen in.
pub enum In {
    Super,
    Crate,
    Ancestor { name: &'static str },
}

/// An attribute on an item.
pub enum Attribute {
    Derive(&'static str),
}

/// A bound on a lifetime or a type parameter.
pub enum Constraint {
    Lifetime(&'static str),
    Trait(&'static str),
}

/// The primitive types.
pub enum Primitive {
    Char,
    Bool,
    F32,
    F64,
    U8,
    U16,
    U32,
    U64,
    Usize,
    U128,
    I8,
    I16,
    I32,
    I64,
    Isize,
    I128,
}

/// A field without a name. Its `index` is the slot that it stands in.
pub struct Item {
    pub access: Access,
    pub attributes: &'static [Attribute],
    pub index: usize,
    pub kind: &'static str,
}

/// What a structure or a variant is made of.
pub enum Body {
    Unit,
    Tuple { items: &'static [Item] },
    Fields { fields: &'static [Field] },
}

/// A lifetime parameter.
pub struct Lifetime {
    pub name: &'static str,
    pub attributes: &'static [Attribute],
    pub constraints: &'static [Constraint],
}

/// A type parameter, or a constant one if `constant` names its type.
pub struct Generic {
    pub name: &'static str,
    pub constant: Option<Primitive>,
    pub attributes: &'static [Attribute],
    pub constraints: &'static [Constraint],
}

/// A named field. Its `index` is the slot that it stands in.
pub struct Field {
    pub access: Access,
    pub attributes: &'static [Attribute],
    pub name: &'static str,
    pub index: usize,
    pub kind: &'static str,
}

/// A parameter of a function.
pub struct Parameter {
    pub name: Option<&'static str>,
    pub attributes: &'static [Attribute],
    pub kind: &'static str,
}

/// What a function takes and gives.
pub struct Signature {
    pub lifetimes: &'static [Lifetime],
    pub generics: &'static [Generic],
    pub parameters: &'static [Parameter],
    pub output: &'static str,
}

/// A function with a body.
pub struct Function {
    pub access: Access,
    pub attributes: &'static [Attribute],
    pub name: &'static str,
    pub signature: Signature,
}

/// A constant.
pub struct Constant {
    pub access: Access,
    pub attributes: &'static [Attribute],
    pub name: &'static str,
    pub kind: &'static str,
}

/// A static.
pub struct Static {
    pub access: Access,
    pub attributes: &'static [Attribute],
    pub name: &'static str,
    pub mutable: bool,
    pub kind: &'static str,
}

/// A structure.
pub struct Structure {
    pub attributes: &'static [Attribute],
    pub name: &'static str,
    pub module: &'static str,
    pub lifetimes: &'static [Lifetime],
    pub generics: &'static [Generic],
    pub body: Body,
}

/// A variant of an enumeration.
pub struct Variant {
    pub attributes: &'static [Attribute],
    pub name: &'static str,
    pub body: Body,
}

/// An enumeration.
pub struct Enumeration {
    pub attributes: &'static [Attribute],
    pub name: &'static str,
    pub module: &'static str,
    pub lifetimes: &'static [Lifetime],
    pub generics: &'static [Generic],
    pub variants: &'static [Variant],
}

/// A union, whose fields share one slot.
pub struct Union {
    pub attributes: &'static [Attribute],
    pub name: &'static str,
    pub module: &'static str,
    pub lifetimes: &'static [Lifetime],
    pub generics: &'static [Generic],
    pub fields: &'static [Field],
}

/// An associated type of a trait.
pub struct Associate {
    pub attributes: &'static [Attribute],
    pub name: &'static str,
    pub lifetimes: &'static [Lifetime],
    pub generics: &'static [Generic],
    pub constraints: &'static [Constraint],
}

/// A function of a trait, without a body.
pub struct Definition {
    pub attributes: &'static [Attribute],
    pub name: &'static str,
    pub signature: Signature,
}

/// A trait that another trait builds on.
pub struct Base {
    pub attributes: &'static [Attribute],
    pub name: &'static str,
}

/// A trait.
pub struct Trait {
    pub access: Access,
    pub name: &'static str,
    pub attributes: &'static [Attribute],
    pub bases: &'static [Base],
    pub lifetimes: &'static [Lifetime],
    pub generics: &'static [Generic],
    pub associates: &'static [Associate],
    pub definitions: &'static [Definition],
}

/// An impl block.
pub struct Implementation {
    pub attributes: &'static [Attribute],
    pub target: &'static str,
    pub implements: Option<&'static str>,
    pub constants: &'static [Constant],
    pub statics: &'static [Static],
    pub lifetimes: &'static [Lifetime],
    pub generics: &'static [Generic],
    pub functions: &'static [Function],
}

/// A module and what it holds.
pub struct Module {
    pub access: Access,
    pub attributes: &'static [Attribute],
    pub modules: &'static [Module],
    pub structures: &'static [Structure],
    pub enumerations: &'static [Enumeration],
    pub unions: &'static [Union],
    pub traits: &'static [Trait],
    pub functions: &'static [Function],
}

/// The description of a type.
pub enum Data {
    Primitive(Primitive),
    Structure(Structure),
    Enumeration(Enumeration),
    Union(Union),
}

} // verus!
