//! What the parsers of a network definition file have in common.
use vstd::prelude::*;
use crate::network::comment::{comment_at, Comment, Remark};
use crate::network::field::{network_field_at, struct_field_at, FieldView, NetworkField, StructField};
use crate::network::identifier::{network_identifier_at, NetworkIdentifier};
use crate::network::structure::{network_struct_at, NetworkStruct, StructView};
use crate::network::tag::{tag_at, Tag};

verus! {

/// An element of a network definition file that is read from its source.
pub trait NetworkParser: Sized + View {
    /// What the source holds of the element at `i`, and the position behind
    /// it.
    spec fn read_at(s: Seq<char>, i: int) -> Option<(Self::V, int)>;

    /// Reads the element at `at`.
    fn parse(input: &[char], at: usize) -> (r: Option<(Self, usize)>)
        ensures
            match Self::read_at(input@, at as int) {
                Some((element, end)) => r matches Some((found, e)) && found@ == element && e
                    == end,
                None => r is None,
            },
    ;

    /// Reads the element at `at`, which has to take one character at least.
    fn parse1(input: &[char], at: usize) -> (r: Option<(Self, usize)>)
        ensures
            match Self::read_at(input@, at as int) {
                Some((element, end)) => if end == at {
                    r is None
                } else {
                    r matches Some((found, e)) && found@ == element && e == end
                },
                None => r is None,
            },
    {
        match Self::parse(input, at) {
            Some((found, end)) => if end == at {
                None
            } else {
                Some((found, end))
            },
            None => None,
        }
    }
}

impl NetworkParser for Comment {
    open spec fn read_at(s: Seq<char>, i: int) -> Option<(Remark, int)> {
        Some(comment_at(s, i))
    }

    fn parse(input: &[char], at: usize) -> (r: Option<(Comment, usize)>) {
        Some(Comment::parse(input, at))
    }
}

impl NetworkParser for NetworkIdentifier {
    open spec fn read_at(s: Seq<char>, i: int) -> Option<(Seq<char>, int)> {
        network_identifier_at(s, i)
    }

    fn parse(input: &[char], at: usize) -> (r: Option<(NetworkIdentifier, usize)>) {
        NetworkIdentifier::parse(input, at)
    }
}

impl NetworkParser for Tag {
    open spec fn read_at(s: Seq<char>, i: int) -> Option<(Seq<char>, int)> {
        tag_at(s, i)
    }

    fn parse(input: &[char], at: usize) -> (r: Option<(Tag, usize)>) {
        Tag::parse(input, at)
    }
}

impl NetworkParser for NetworkField {
    open spec fn read_at(s: Seq<char>, i: int) -> Option<(FieldView, int)> {
        network_field_at(s, i)
    }

    fn parse(input: &[char], at: usize) -> (r: Option<(NetworkField, usize)>) {
        NetworkField::parse(input, at)
    }
}

impl NetworkParser for StructField {
    open spec fn read_at(s: Seq<char>, i: int) -> Option<(FieldView, int)> {
        struct_field_at(s, i)
    }

    fn parse(input: &[char], at: usize) -> (r: Option<(StructField, usize)>) {
        StructField::parse(input, at)
    }
}

impl NetworkParser for NetworkStruct {
    open spec fn read_at(s: Seq<char>, i: int) -> Option<(StructView, int)> {
        network_struct_at(s, i)
    }

    fn parse(input: &[char], at: usize) -> (r: Option<(NetworkStruct, usize)>) {
        NetworkStruct::parse(input, at)
    }
}

} // verus!
