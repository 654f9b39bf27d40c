//! The reader of a network definition file: the types that it knows and the
//! structures that it has read.
use vstd::prelude::*;
use crate::network::comment::{comment_end, Comment};
use crate::network::structure::{network_structs_at, struct_views, NetworkStruct, StructView};
use crate::text::{same_str, texts};

verus! {

/// What was read of a network definition file.
#[derive(Debug, PartialEq)]
pub struct NetworkFileReader {
    primitive_types: Vec<String>,
    structures: Vec<NetworkStruct>,
}

/// The names of the types that every file knows.
pub open spec fn default_primitives() -> Seq<Seq<char>> {
    seq![
        "u8"@,
        "i8"@,
        "u16"@,
        "i16"@,
        "u32"@,
        "i32"@,
        "u64"@,
        "i64"@,
        "bool"@,
        "string"@,
    ]
}

/// The first of `structures` from number `from` on that has the name `name`.
pub open spec fn first_named(structures: Seq<StructView>, name: Seq<char>, from: int) -> Option<
    StructView,
>
    decreases structures.len() - from,
{
    if from < 0 || from >= structures.len() {
        None
    } else if structures[from].name == name {
        Some(structures[from])
    } else {
        first_named(structures, name, from + 1)
    }
}

/// A whole file: structures one behind the other, and behind them nothing
/// but whitespace and comments.
pub open spec fn network_file_at(s: Seq<char>, i: int) -> Option<(Seq<StructView>, int)> {
    let structures = network_structs_at(s, i);
    if comment_end(s, structures.1) == s.len() {
        Some((structures.0, s.len() as int))
    } else {
        None
    }
}

impl NetworkFileReader {
    /// The names of the primitive types that the reader knows.
    pub closed spec fn primitive_names(&self) -> Seq<Seq<char>> {
        texts(self.primitive_types@)
    }

    /// The structures that the reader holds.
    pub closed spec fn structure_views(&self) -> Seq<StructView> {
        struct_views(self.structures@)
    }

    /// The names of the types that every file knows: the integers of 8 to 64
    /// bits, `bool` and `string`.
    pub fn get_default_primitives() -> (r: Vec<String>)
        ensures
            texts(r@) == default_primitives(),
    {
        let mut names: Vec<String> = Vec::new();
        names.push("u8".to_string());
        names.push("i8".to_string());
        names.push("u16".to_string());
        names.push("i16".to_string());
        names.push("u32".to_string());
        names.push("i32".to_string());
        names.push("u64".to_string());
        names.push("i64".to_string());
        names.push("bool".to_string());
        names.push("string".to_string());
        assert(texts(names@) =~= default_primitives());
        names
    }

    /// Makes the type `value` known as a primitive type.
    pub fn register_primitive(&mut self, value: &str)
        ensures
            final(self).primitive_names() == old(self).primitive_names().push(value@),
            final(self).structure_views() == old(self).structure_views(),
    {
        self.primitive_types.push(value.to_string());
        assert(texts(self.primitive_types@) =~= texts(old(self).primitive_types@).push(value@));
    }

    /// A copy of the names of the primitive types.
    pub fn primitives(&self) -> (r: Vec<String>)
        ensures
            texts(r@) == self.primitive_names(),
    {
        let mut names: Vec<String> = Vec::new();
        let mut i: usize = 0;
        while i < self.primitive_types.len()
            invariant
                i <= self.primitive_types.len(),
                names.len() == i,
                forall|k: int| 0 <= k < i ==> names[k]@ == self.primitive_types[k]@,
            decreases self.primitive_types.len() - i,
        {
            names.push(self.primitive_types[i].clone());
            i += 1;
        }
        assert(texts(names@) =~= texts(self.primitive_types@));
        names
    }

    /// Adds a structure.
    pub fn register_structure(&mut self, value: NetworkStruct)
        ensures
            final(self).structure_views() == old(self).structure_views().push(value@),
            final(self).primitive_names() == old(self).primitive_names(),
    {
        self.structures.push(value);
        assert(struct_views(self.structures@) =~= struct_views(old(self).structures@).push(
            value@,
        ));
    }

    /// A copy of the first structure of the name `name`.
    pub fn structure(&self, name: &str) -> (r: Option<NetworkStruct>)
        ensures
            match first_named(self.structure_views(), name@, 0) {
                Some(structure) => r matches Some(found) && found@ == structure,
                None => r is None,
            },
    {
        let ghost all = struct_views(self.structures@);
        let mut i: usize = 0;
        while i < self.structures.len()
            invariant
                i <= self.structures.len(),
                all == struct_views(self.structures@),
                first_named(all, name@, 0) == first_named(all, name@, i as int),
            decreases self.structures.len() - i,
        {
            assert(all[i as int] == self.structures[i as int]@);
            if same_str(self.structures[i].name(), name) {
                return Some(self.structures[i].clone());
            }
            i += 1;
        }
        None
    }

    /// Reads a whole file: its structures, and the whitespace and comments
    /// that end it. The reader knows the default primitive types.
    pub fn parse(input: &[char], at: usize) -> (r: Option<(NetworkFileReader, usize)>)
        ensures
            match network_file_at(input@, at as int) {
                Some((structures, end)) => r matches Some((found, e)) && found.structure_views()
                    == structures && found.primitive_names() == default_primitives() && e == end,
                None => r is None,
            },
    {
        let (structures, structures_end) = NetworkStruct::parse_many(input, at);
        let (_, end) = Comment::parse(input, structures_end);
        if end != input.len() {
            return None;
        }
        Some(
            (
                NetworkFileReader {
                    primitive_types: NetworkFileReader::get_default_primitives(),
                    structures,
                },
                end,
            ),
        )
    }
}

} // verus!
