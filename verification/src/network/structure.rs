//! Structures: named lists of fields.
use vstd::prelude::*;
use crate::network::comment::{comment_end, Comment};
use crate::network::field::{field_views, struct_fields_at, FieldView, StructField};
use crate::network::identifier::{network_identifier_at, NetworkIdentifier};
use crate::network::tag::{tag_names, tags_at, Tag};
use crate::text::{chars_of, word_at, word_here};

verus! {

/// A structure of a network definition file: the word `struct`, a name, and
/// fields in braces.
#[derive(Debug, PartialEq)]
pub struct NetworkStruct {
    identity: String,
    fields: Vec<StructField>,
    tags: Vec<Tag>,
}

/// What a structure stands for: its name, its fields and the names of its
/// tags.
pub struct StructView {
    pub name: Seq<char>,
    pub fields: Seq<FieldView>,
    pub tags: Seq<Seq<char>>,
}

impl View for NetworkStruct {
    type V = StructView;

    closed spec fn view(&self) -> StructView {
        StructView {
            name: self.identity@,
            fields: field_views(self.fields@),
            tags: tag_names(self.tags@),
        }
    }
}

/// Structures, each as what it stands for.
pub open spec fn struct_views(structures: Seq<NetworkStruct>) -> Seq<StructView> {
    Seq::new(structures.len(), |i: int| structures[i]@)
}

/// A structure: tags, the word `struct`, a name, `{`, fields and `}`, with
/// whitespace and comments between them where there are any.
pub open spec fn network_struct_at(s: Seq<char>, i: int) -> Option<(StructView, int)> {
    let tags = tags_at(s, comment_end(s, i));
    let word = comment_end(s, tags.1);
    if word_at(s, word, "struct"@) {
        match network_identifier_at(s, word + "struct"@.len()) {
            Some((name, name_end)) => {
                let open = comment_end(s, name_end);
                if 0 <= open < s.len() && s[open] == '{' {
                    let fields = struct_fields_at(s, open + 1);
                    let close = comment_end(s, fields.1);
                    if 0 <= close < s.len() && s[close] == '}' {
                        Some((StructView { name, fields: fields.0, tags: tags.0 }, close + 1))
                    } else {
                        None
                    }
                } else {
                    None
                }
            },
            None => None,
        }
    } else {
        None
    }
}

/// The structures from `i` on, one behind the other, and the position behind
/// the last of them.
pub open spec fn network_structs_at(s: Seq<char>, i: int) -> (Seq<StructView>, int)
    decreases s.len() - i,
{
    match network_struct_at(s, i) {
        Some((structure, next)) => if i < next <= s.len() {
            let rest = network_structs_at(s, next);
            (seq![structure] + rest.0, rest.1)
        } else {
            (Seq::empty(), i)
        },
        None => (Seq::empty(), i),
    }
}

/// A copy of `fields`.
fn copy_fields(fields: &Vec<StructField>) -> (r: Vec<StructField>)
    ensures
        field_views(r@) == field_views(fields@),
{
    let mut r: Vec<StructField> = Vec::new();
    let mut i: usize = 0;
    while i < fields.len()
        invariant
            i <= fields.len(),
            r.len() == i,
            forall|k: int| 0 <= k < i ==> r[k]@ == fields[k]@,
        decreases fields.len() - i,
    {
        r.push(fields[i].clone());
        i += 1;
    }
    assert(field_views(r@) =~= field_views(fields@));
    r
}

impl Clone for NetworkStruct {
    fn clone(&self) -> (r: NetworkStruct)
        ensures
            r@ == self@,
    {
        let mut tags: Vec<Tag> = Vec::new();
        let mut i: usize = 0;
        while i < self.tags.len()
            invariant
                i <= self.tags.len(),
                tags.len() == i,
                forall|k: int| 0 <= k < i ==> tags[k]@ == self.tags[k]@,
            decreases self.tags.len() - i,
        {
            tags.push(self.tags[i].clone());
            i += 1;
        }
        assert(tag_names(tags@) =~= tag_names(self.tags@));
        NetworkStruct { identity: self.identity.clone(), fields: copy_fields(&self.fields), tags }
    }
}

impl NetworkStruct {
    /// The structure's name.
    pub fn name(&self) -> (r: &str)
        ensures
            r@ == self@.name,
    {
        self.identity.as_str()
    }

    /// Copies of the structure's fields, in the order in which they were
    /// written.
    pub fn fields(&self) -> (r: std::vec::IntoIter<StructField>)
        ensures
            field_views(vstd::std_specs::iter::IteratorSpec::remaining(&r)) == self@.fields,
    {
        copy_fields(&self.fields).into_iter()
    }

    /// The structure's tags, in the order in which they were written.
    pub fn tags(&self) -> (r: &Vec<Tag>)
        ensures
            tag_names(r@) == self@.tags,
    {
        &self.tags
    }

    /// Reads a structure.
    pub fn parse(input: &[char], at: usize) -> (r: Option<(NetworkStruct, usize)>)
        ensures
            match network_struct_at(input@, at as int) {
                Some((structure, end)) => r matches Some((found, e)) && found@ == structure && e
                    == end && at < e <= input.len(),
                None => r is None,
            },
    {
        let (_, tags_start) = Comment::parse(input, at);
        let (tags, tags_end) = Tag::parse_many(input, tags_start);
        let (_, word) = Comment::parse(input, tags_end);
        let keyword = chars_of("struct");
        if !word_here(input, word, keyword.as_slice()) {
            return None;
        }
        proof {
            reveal_strlit("struct");
        }
        let (name, name_end) = match NetworkIdentifier::parse(input, word + keyword.len()) {
            Some(found) => found,
            None => {
                return None;
            },
        };
        let (_, open) = Comment::parse(input, name_end);
        if !(open < input.len() && input[open] == '{') {
            return None;
        }
        let (fields, fields_end) = StructField::parse_many(input, open + 1);
        let (_, close) = Comment::parse(input, fields_end);
        if !(close < input.len() && input[close] == '}') {
            return None;
        }
        Some((NetworkStruct { identity: name.identity, fields, tags }, close + 1))
    }

    /// Reads structures as long as one follows the other.
    pub fn parse_many(input: &[char], at: usize) -> (r: (Vec<NetworkStruct>, usize))
        ensures
            (struct_views(r.0@), r.1 as int) == network_structs_at(input@, at as int),
            at <= r.1,
            at <= input.len() ==> r.1 <= input.len(),
    {
        let mut structures: Vec<NetworkStruct> = Vec::new();
        let mut i: usize = at;
        assert(struct_views(structures@) + network_structs_at(input@, at as int).0
            == network_structs_at(input@, at as int).0);
        loop
            invariant
                at <= i,
                at <= input.len() ==> i <= input.len(),
                network_structs_at(input@, at as int) == (
                    struct_views(structures@) + network_structs_at(input@, i as int).0,
                    network_structs_at(input@, i as int).1,
                ),
            ensures
                at <= i,
                at <= input.len() ==> i <= input.len(),
                network_structs_at(input@, at as int) == (struct_views(structures@), i as int),
            decreases input.len() - i,
        {
            let ghost before = struct_views(structures@);
            match NetworkStruct::parse(input, i) {
                Some((structure, next)) => {
                    let ghost rest = network_structs_at(input@, next as int);
                    let ghost view = structure@;
                    structures.push(structure);
                    assert(struct_views(structures@) == before.push(view));
                    assert(before.push(view) + rest.0 == before + (seq![view] + rest.0));
                    i = next;
                },
                None => {
                    assert(before + Seq::<StructView>::empty() == before);
                    break ;
                },
            }
        }
        (structures, i)
    }
}

} // verus!
