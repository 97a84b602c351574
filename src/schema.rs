//! The input of synthesis: a record type's declaration as plain values.
use vstd::prelude::*;

verus! {

/// The delimiter of a token group.
#[derive(PartialEq, Eq, Structural, Clone, Copy, Debug)]
pub enum Delim {
    Paren,
    Bracket,
    Brace,
    Invisible,
}

/// One token tree of an attribute's argument list.
#[derive(Debug, PartialEq, Eq)]
pub enum Token {
    /// An identifier or a keyword.
    Ident(String),
    /// A punctuation character; `true` when it is joined to the next one.
    Punct(char, bool),
    /// A string literal, by its value.
    Str(String),
    /// Any other literal, by its source text.
    Lit(String),
    /// A delimited group of tokens.
    Group(Delim, Vec<Token>),
}

/// What follows an attribute's path.
#[derive(Debug)]
pub enum AttrArgs {
    /// `#[path]`
    Word,
    /// `#[path(...)]` (or with another delimiter), with the tokens inside.
    List(Vec<Token>),
    /// `#[path = value]`
    NameValue,
}

/// One attribute on a field: its path written out (`builder`, `doc`,
/// `serde::rename`) and its arguments.
#[derive(Debug)]
pub struct Attribute {
    pub path: String,
    pub args: AttrArgs,
}

/// A type expression, as far as synthesis looks into it.
#[derive(Debug, PartialEq, Eq)]
pub enum TypeExpr {
    /// A path type such as `Vec<String>` or `std::option::Option<u8>`.
    Path(Vec<Segment>),
    /// Any other type (reference, tuple, array, ...), by its source text.
    Other(String),
}

/// One segment of a path type.
#[derive(Debug, PartialEq, Eq)]
pub struct Segment {
    pub ident: String,
    pub args: SegmentArgs,
}

/// The arguments of a path segment.
#[derive(Debug, PartialEq, Eq)]
pub enum SegmentArgs {
    Bare,
    /// `<A, B, ...>`
    Angle(Vec<GenericArg>),
    /// `(A, B) -> C`, by its source text.
    Paren(String),
}

/// One argument between angle brackets.
#[derive(Debug, PartialEq, Eq)]
pub enum GenericArg {
    Type(TypeExpr),
    /// A lifetime, a constant or a binding, by its source text.
    Other(String),
}

/// A named field: its name, its declared type and its attributes, in order.
#[derive(Debug)]
pub struct FieldSchema {
    pub name: String,
    pub ty: TypeExpr,
    pub attrs: Vec<Attribute>,
}

/// The body of a type declaration.
#[derive(Debug)]
pub enum RecordBody {
    /// A struct with named fields, in declaration order.
    Named(Vec<FieldSchema>),
    /// A tuple struct, a unit struct, an enum or a union.
    Unsupported,
}

/// A type declaration to synthesize a builder for.
#[derive(Debug)]
pub struct RecordSchema {
    pub name: String,
    pub body: RecordBody,
}

} // verus!
