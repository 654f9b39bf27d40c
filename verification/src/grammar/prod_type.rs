//! The type of what a production reads.
use vstd::prelude::*;
use crate::text::{decimal, push_all, push_decimal, chars_of, text_of};

verus! {

/// The type of the value that a production reads into a field.
#[derive(Debug, PartialEq)]
pub enum ProductionType {
    /// Whether a part of the grammar was read at all.
    Bool,
    /// The characters that were read.
    String,
    /// An integer: whether it has a sign, and its size in bytes.
    Int(bool, u8),
    /// A floating-point number: its size in bytes.
    Float(u8),
}

impl ProductionType {
    /// The name of the type in Rust.
    pub open spec fn name(self) -> Seq<char> {
        match self {
            ProductionType::Bool => "bool"@,
            ProductionType::String => "String"@,
            ProductionType::Int(signed, bytes) => (if signed {
                seq!['i']
            } else {
                seq!['u']
            }) + decimal(bytes as nat * 8),
            ProductionType::Float(bytes) => seq!['f'] + decimal(bytes as nat * 8),
        }
    }

    /// Appends the name of the type in Rust to `out`.
    pub fn push_name(&self, out: &mut Vec<char>)
        ensures
            final(out)@ == old(out)@ + self.name(),
    {
        match self {
            ProductionType::Bool => {
                let name = chars_of("bool");
                push_all(out, name.as_slice());
            },
            ProductionType::String => {
                let name = chars_of("String");
                push_all(out, name.as_slice());
            },
            ProductionType::Int(signed, bytes) => {
                out.push(if *signed {
                    'i'
                } else {
                    'u'
                });
                push_decimal(out, (*bytes as u128) * 8);
                assert(out@ == old(out)@ + self.name());
            },
            ProductionType::Float(bytes) => {
                out.push('f');
                push_decimal(out, (*bytes as u128) * 8);
                assert(out@ == old(out)@ + self.name());
            },
        }
    }

    /// The name of the type in Rust: `bool`, `String`, or a letter and the
    /// size in bits.
    pub fn to_string(&self) -> (r: String)
        ensures
            r@ == self.name(),
    {
        let mut out: Vec<char> = Vec::new();
        self.push_name(&mut out);
        text_of(out.as_slice())
    }
}

} // verus!
