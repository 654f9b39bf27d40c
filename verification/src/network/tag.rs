//! Tags: markers before a structure or a field.
use vstd::prelude::*;
use crate::network::comment::{comment_end, Comment};
use crate::network::identifier::{network_identifier_at, NetworkIdentifier};

verus! {

/// A marker, `@` and a name, that a structure or a field carries.
#[derive(Debug, PartialEq)]
pub struct Tag {
    tag_name: String,
}

impl View for Tag {
    type V = Seq<char>;

    closed spec fn view(&self) -> Seq<char> {
        self.tag_name@
    }
}

/// The names of tags.
pub open spec fn tag_names(tags: Seq<Tag>) -> Seq<Seq<char>> {
    Seq::new(tags.len(), |i: int| tags[i]@)
}

/// A tag behind whitespace and comments: `@` and an identifier, which is the
/// tag's name.
pub open spec fn tag_at(s: Seq<char>, i: int) -> Option<(Seq<char>, int)> {
    let start = comment_end(s, i);
    if 0 <= start < s.len() && s[start] == '@' {
        network_identifier_at(s, start + 1)
    } else {
        None
    }
}

/// The tags from `i` on, one behind the other, and the position behind the
/// last of them.
pub open spec fn tags_at(s: Seq<char>, i: int) -> (Seq<Seq<char>>, int)
    decreases s.len() - i,
{
    match tag_at(s, i) {
        Some((name, next)) => if i < next <= s.len() {
            let rest = tags_at(s, next);
            (seq![name] + rest.0, rest.1)
        } else {
            (Seq::empty(), i)
        },
        None => (Seq::empty(), i),
    }
}

impl Clone for Tag {
    fn clone(&self) -> (r: Tag)
        ensures
            r@ == self@,
    {
        Tag { tag_name: self.tag_name.clone() }
    }
}

impl Tag {
    /// The tag of the name `tag_name`.
    pub fn new(tag_name: String) -> (r: Tag)
        ensures
            r@ == tag_name@,
    {
        Tag { tag_name }
    }

    /// The tag's name.
    pub fn name(&self) -> (r: &str)
        ensures
            r@ == self@,
    {
        self.tag_name.as_str()
    }

    /// Reads a tag, and the whitespace and comments before it.
    pub fn parse(input: &[char], at: usize) -> (r: Option<(Tag, usize)>)
        ensures
            match tag_at(input@, at as int) {
                Some((name, end)) => r matches Some((found, e)) && found@ == name && e == end
                    && at < e <= input.len(),
                None => r is None,
            },
    {
        let (_, start) = Comment::parse(input, at);
        if !(start < input.len() && input[start] == '@') {
            return None;
        }
        match NetworkIdentifier::parse(input, start + 1) {
            Some((name, end)) => Some((Tag::new(name.identity), end)),
            None => None,
        }
    }

    /// Reads tags as long as one follows the other.
    pub fn parse_many(input: &[char], at: usize) -> (r: (Vec<Tag>, usize))
        ensures
            (tag_names(r.0@), r.1 as int) == tags_at(input@, at as int),
            at <= r.1,
            at <= input.len() ==> r.1 <= input.len(),
    {
        let mut tags: Vec<Tag> = Vec::new();
        let mut i: usize = at;
        assert(tag_names(tags@) + tags_at(input@, at as int).0 == tags_at(input@, at as int).0);
        loop
            invariant
                at <= i,
                at <= input.len() ==> i <= input.len(),
                tags_at(input@, at as int) == (
                    tag_names(tags@) + tags_at(input@, i as int).0,
                    tags_at(input@, i as int).1,
                ),
            ensures
                at <= i,
                at <= input.len() ==> i <= input.len(),
                tags_at(input@, at as int) == (tag_names(tags@), i as int),
            decreases input.len() - i,
        {
            let ghost before = tag_names(tags@);
            match Tag::parse(input, i) {
                Some((tag, next)) => {
                    let ghost rest = tags_at(input@, next as int);
                    let ghost name = tag@;
                    tags.push(tag);
                    assert(tag_names(tags@) == before.push(name));
                    assert(before.push(name) + rest.0 == before + (seq![name] + rest.0));
                    i = next;
                },
                None => {
                    assert(before + Seq::<Seq<char>>::empty() == before);
                    break ;
                },
            }
        }
        (tags, i)
    }
}

} // verus!
