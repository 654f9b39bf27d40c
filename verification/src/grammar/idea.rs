//! The records that a network definition grammar is to produce.
use vstd::prelude::*;

verus! {

/// An identifier: its text.
pub struct Identifier {
    pub content: String,
}

/// An integer literal.
pub struct Integer;

/// A record of a file: a structure or an enumeration.
pub enum Record {
    Struct(Struct),
    Enum(Enum),
}

/// A field of a structure: its type, and its name where it has one.
pub struct StructField {
    pub identifier: Option<String>,
    pub type_label: String,
}

/// A structure.
pub struct Struct;

/// A field of an enumeration: its name and its value.
pub struct EnumField {
    pub identifier: String,
    pub value: usize,
}

/// An enumeration.
pub struct Enum;

} // verus!
