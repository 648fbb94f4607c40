//! The node document that configuration is read from: nodes with a name,
//! positional arguments and named properties, and optional child nodes.
//! Every part carries its span in the document text.

use crate::diag::Span;
use vstd::prelude::*;

verus! {

/// A name, with where it stands.
#[derive(Clone, Debug, PartialEq, Eq)]
pub struct Ident {
    pub value: String,
    pub span: Span,
}

/// The value of an entry. A floating-point number is only marked as such.
#[derive(Clone, Debug, PartialEq, Eq)]
pub enum Value {
    Str(String),
    Int(i128),
    Float,
    Bool(bool),
    Null,
}

/// One entry of a node: an argument when it has no name, else a property.
/// `ty` is a type annotation written before the value.
#[derive(Clone, Debug, PartialEq, Eq)]
pub struct Entry {
    pub name: Option<Ident>,
    pub ty: Option<Ident>,
    pub value: Value,
    pub span: Span,
}

/// A node: its name, entries in document order, and its children.
#[derive(Debug)]
pub struct Node {
    pub name: Ident,
    pub entries: Vec<Entry>,
    pub children: Option<Document>,
    pub span: Span,
}

/// A sequence of nodes, at the top of the text or inside braces.
#[derive(Debug)]
pub struct Document {
    pub nodes: Vec<Node>,
    pub span: Span,
}

} // verus!
