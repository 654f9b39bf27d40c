//! Fields: the entries of a structure.
use vstd::prelude::*;
use crate::network::comment::{comment_end, Comment};
use crate::network::identifier::{network_identifier_at, NetworkIdentifier};
use crate::network::tag::{tag_names, tags_at, Tag};
use crate::parser::util::{pair, pair_at};

verus! {

/// What a field stands for: its type, its name, how many array dimensions its
/// type has, and the names of its tags.
pub struct FieldView {
    pub field_type: Seq<char>,
    pub name: Seq<char>,
    pub dimension: nat,
    pub tags: Seq<Seq<char>>,
}

/// The number of `[]` that stand at `i`, one behind the other, and the
/// position behind the last of them.
pub open spec fn brackets_at(s: Seq<char>, i: int) -> (nat, int)
    decreases s.len() - i,
{
    if pair_at(s, i, '[', ']') {
        let rest = brackets_at(s, i + 2);
        (rest.0 + 1, rest.1)
    } else {
        (0, i)
    }
}

/// A field without tags: its type, `[]` for each array dimension, its name
/// and `;`, with whitespace and comments between them where there are any.
pub open spec fn network_field_at(s: Seq<char>, i: int) -> Option<(FieldView, int)> {
    match network_identifier_at(s, i) {
        Some((field_type, type_end)) => {
            let dimensions = brackets_at(s, comment_end(s, type_end));
            match network_identifier_at(s, dimensions.1) {
                Some((name, name_end)) => {
                    let end = comment_end(s, name_end);
                    if 0 <= end < s.len() && s[end] == ';' {
                        Some(
                            (
                                FieldView {
                                    field_type,
                                    name,
                                    dimension: dimensions.0,
                                    tags: Seq::empty(),
                                },
                                end + 1,
                            ),
                        )
                    } else {
                        None
                    }
                },
                None => None,
            }
        },
        None => None,
    }
}

/// A field: its tags, and behind them what a field without tags is.
pub open spec fn struct_field_at(s: Seq<char>, i: int) -> Option<(FieldView, int)> {
    let tags = tags_at(s, i);
    match network_field_at(s, tags.1) {
        Some((field, end)) => Some(
            (
                FieldView {
                    field_type: field.field_type,
                    name: field.name,
                    dimension: field.dimension,
                    tags: tags.0,
                },
                end,
            ),
        ),
        None => None,
    }
}

/// The fields from `i` on, one behind the other, and the position behind the
/// last of them.
pub open spec fn struct_fields_at(s: Seq<char>, i: int) -> (Seq<FieldView>, int)
    decreases s.len() - i,
{
    match struct_field_at(s, i) {
        Some((field, next)) => if i < next <= s.len() {
            let rest = struct_fields_at(s, next);
            (seq![field] + rest.0, rest.1)
        } else {
            (Seq::empty(), i)
        },
        None => (Seq::empty(), i),
    }
}

/// Reads the `[]` at `at`, and counts them.
fn brackets(input: &[char], at: usize) -> (r: (usize, usize))
    ensures
        (r.0 as nat, r.1 as int) == brackets_at(input@, at as int),
        at <= r.1,
        at <= input.len() ==> r.1 <= input.len(),
{
    let mut count: usize = 0;
    let mut i: usize = at;
    while pair(input, i, '[', ']')
        invariant
            at <= i,
            at <= input.len() ==> i <= input.len(),
            count <= i,
            brackets_at(input@, at as int).0 == count + brackets_at(input@, i as int).0,
            brackets_at(input@, at as int).1 == brackets_at(input@, i as int).1,
        decreases input.len() - i,
    {
        count += 1;
        i += 2;
    }
    (count, i)
}

/// A field of a structure, without tags.
#[derive(Debug, PartialEq)]
pub struct NetworkField {
    field_type: String,
    field_name: String,
    array_dimension: usize,
}

impl View for NetworkField {
    type V = FieldView;

    closed spec fn view(&self) -> FieldView {
        FieldView {
            field_type: self.field_type@,
            name: self.field_name@,
            dimension: self.array_dimension as nat,
            tags: Seq::empty(),
        }
    }
}

impl NetworkField {
    /// A field of the type `field_type` and the name `field_name`, which is no
    /// array.
    pub fn new(field_type: String, field_name: String) -> (r: NetworkField)
        ensures
            r@ == (FieldView {
                field_type: field_type@,
                name: field_name@,
                dimension: 0,
                tags: Seq::empty(),
            }),
    {
        NetworkField { field_type, field_name, array_dimension: 0 }
    }

    /// The field's name.
    pub fn name(&self) -> (r: &str)
        ensures
            r@ == self@.name,
    {
        self.field_name.as_str()
    }

    /// The name of the field's type.
    pub fn field_type(&self) -> (r: &str)
        ensures
            r@ == self@.field_type,
    {
        self.field_type.as_str()
    }

    /// The number of array dimensions of the field's type.
    pub fn array_dimension(&self) -> (r: usize)
        ensures
            r == self@.dimension,
    {
        self.array_dimension
    }

    /// Reads a field without tags.
    pub fn parse(input: &[char], at: usize) -> (r: Option<(NetworkField, usize)>)
        ensures
            match network_field_at(input@, at as int) {
                Some((field, end)) => r matches Some((found, e)) && found@ == field && e == end
                    && at < e <= input.len(),
                None => r is None,
            },
    {
        let (field_type, type_end) = match NetworkIdentifier::parse(input, at) {
            Some(found) => found,
            None => {
                return None;
            },
        };
        let (_, dimensions_start) = Comment::parse(input, type_end);
        let (array_dimension, dimensions_end) = brackets(input, dimensions_start);
        let (field_name, name_end) = match NetworkIdentifier::parse(input, dimensions_end) {
            Some(found) => found,
            None => {
                return None;
            },
        };
        let (_, end) = Comment::parse(input, name_end);
        if !(end < input.len() && input[end] == ';') {
            return None;
        }
        Some(
            (
                NetworkField {
                    field_type: field_type.identity,
                    field_name: field_name.identity,
                    array_dimension,
                },
                end + 1,
            ),
        )
    }
}

/// A field of a structure: a type, a name and tags.
#[derive(Debug, PartialEq)]
pub struct StructField {
    field_type: String,
    field_name: String,
    array_dimension: usize,
    tags: Vec<Tag>,
}

impl View for StructField {
    type V = FieldView;

    closed spec fn view(&self) -> FieldView {
        FieldView {
            field_type: self.field_type@,
            name: self.field_name@,
            dimension: self.array_dimension as nat,
            tags: tag_names(self.tags@),
        }
    }
}

/// Fields, each as what it stands for.
pub open spec fn field_views(fields: Seq<StructField>) -> Seq<FieldView> {
    Seq::new(fields.len(), |i: int| fields[i]@)
}

/// Tags by reference, each as its name.
pub open spec fn names_of(tags: Seq<&Tag>) -> Seq<Seq<char>> {
    Seq::new(tags.len(), |i: int| tags[i]@)
}

impl Clone for StructField {
    fn clone(&self) -> (r: StructField)
        ensures
            r@ == self@,
    {
        let mut tags: Vec<Tag> = Vec::new();
        let mut i: usize = 0;
        while i < self.tags.len()
            invariant
                i <= self.tags.len(),
                tags.len() == i,
                forall|k: int| 0 <= k < i ==> tags[k]@ == self.tags[k]@,
            decreases self.tags.len() - i,
        {
            tags.push(self.tags[i].clone());
            i += 1;
        }
        assert(tag_names(tags@) =~= tag_names(self.tags@));
        StructField {
            field_type: self.field_type.clone(),
            field_name: self.field_name.clone(),
            array_dimension: self.array_dimension,
            tags,
        }
    }
}

impl StructField {
    /// The field's name.
    pub fn name(&self) -> (r: &str)
        ensures
            r@ == self@.name,
    {
        self.field_name.as_str()
    }

    /// The name of the field's type.
    pub fn field_type(&self) -> (r: &str)
        ensures
            r@ == self@.field_type,
    {
        self.field_type.as_str()
    }

    /// The number of array dimensions of the field's type.
    pub fn array_dimension(&self) -> (r: usize)
        ensures
            r == self@.dimension,
    {
        self.array_dimension
    }

    /// The field's tags, in the order in which they were written.
    pub fn tags(&self) -> (r: std::slice::Iter<'_, Tag>)
        ensures
            names_of(vstd::std_specs::iter::IteratorSpec::remaining(&r)) == self@.tags,
    {
        let r = self.tags.as_slice().iter();
        assert(names_of(vstd::std_specs::iter::IteratorSpec::remaining(&r)) =~= tag_names(
            self.tags@,
        ));
        r
    }

    /// Reads a field: its tags, its type, its name and `;`.
    pub fn parse(input: &[char], at: usize) -> (r: Option<(StructField, usize)>)
        ensures
            match struct_field_at(input@, at as int) {
                Some((field, end)) => r matches Some((found, e)) && found@ == field && e == end
                    && at < e <= input.len(),
                None => r is None,
            },
    {
        let (tags, tags_end) = Tag::parse_many(input, at);
        match NetworkField::parse(input, tags_end) {
            Some((field, end)) => Some(
                (
                    StructField {
                        field_type: field.field_type,
                        field_name: field.field_name,
                        array_dimension: field.array_dimension,
                        tags,
                    },
                    end,
                ),
            ),
            None => None,
        }
    }

    /// Reads fields as long as one follows the other.
    pub fn parse_many(input: &[char], at: usize) -> (r: (Vec<StructField>, usize))
        ensures
            (field_views(r.0@), r.1 as int) == struct_fields_at(input@, at as int),
            at <= r.1,
            at <= input.len() ==> r.1 <= input.len(),
    {
        let mut fields: Vec<StructField> = Vec::new();
        let mut i: usize = at;
        assert(field_views(fields@) + struct_fields_at(input@, at as int).0 == struct_fields_at(
            input@,
            at as int,
        ).0);
        loop
            invariant
                at <= i,
                at <= input.len() ==> i <= input.len(),
                struct_fields_at(input@, at as int) == (
                    field_views(fields@) + struct_fields_at(input@, i as int).0,
                    struct_fields_at(input@, i as int).1,
                ),
            ensures
                at <= i,
                at <= input.len() ==> i <= input.len(),
                struct_fields_at(input@, at as int) == (field_views(fields@), i as int),
            decreases input.len() - i,
        {
            let ghost before = field_views(fields@);
            match StructField::parse(input, i) {
                Some((field, next)) => {
                    let ghost rest = struct_fields_at(input@, next as int);
                    let ghost view = field@;
                    fields.push(field);
                    assert(field_views(fields@) == before.push(view));
                    assert(before.push(view) + rest.0 == before + (seq![view] + rest.0));
                    i = next;
                },
                None => {
                    assert(before + Seq::<FieldView>::empty() == before);
                    break ;
                },
            }
        }
        (fields, i)
    }
}

} // verus!
