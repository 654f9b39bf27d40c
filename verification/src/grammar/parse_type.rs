//! The type of a field: what a production reads, and how often.
use vstd::prelude::*;
use crate::grammar::prod_type::ProductionType;
use crate::grammar::rule::Dimension;
use crate::text::{chars_of, push_all, text_of};

verus! {

/// The type of a field that a grammar fills.
#[derive(Debug, PartialEq)]
pub struct ParseType {
    prod_type: ProductionType,
    dimension: Dimension,
}

impl ParseType {
    /// What the field holds of each reading.
    pub closed spec fn production(&self) -> ProductionType {
        self.prod_type
    }

    /// How often the field is read.
    pub closed spec fn dimension(&self) -> Dimension {
        self.dimension
    }

    /// The name of the type in Rust.
    pub open spec fn name(&self) -> Seq<char> {
        match self.dimension() {
            Dimension::Scalar => self.production().name(),
            Dimension::Option => "Option<"@ + self.production().name() + ">"@,
            Dimension::Many => "Vec<"@ + self.production().name() + ">"@,
        }
    }

    /// The type of a field that is read `dimension` often as `prod_type`.
    pub fn new(dimension: Dimension, prod_type: ProductionType) -> (r: ParseType)
        ensures
            r.production() == prod_type,
            r.dimension() == dimension,
    {
        ParseType { prod_type, dimension }
    }

    /// The name of the type in Rust: the production's type, in `Option` or
    /// `Vec` where it is read optionally or many times.
    pub fn to_string(&self) -> (r: String)
        ensures
            r@ == self.name(),
    {
        let mut out: Vec<char> = Vec::new();
        match self.dimension {
            Dimension::Scalar => {
                self.prod_type.push_name(&mut out);
            },
            Dimension::Option => {
                let open = chars_of("Option<");
                push_all(&mut out, open.as_slice());
                self.prod_type.push_name(&mut out);
                let close = chars_of(">");
                push_all(&mut out, close.as_slice());
            },
            Dimension::Many => {
                let open = chars_of("Vec<");
                push_all(&mut out, open.as_slice());
                self.prod_type.push_name(&mut out);
                let close = chars_of(">");
                push_all(&mut out, close.as_slice());
            },
        }
        text_of(out.as_slice())
    }
}

} // verus!
