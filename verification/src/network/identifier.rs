//! Identifiers of a network definition file.
use vstd::prelude::*;
use vstd::slice::slice_subrange;
use crate::cases::{
    are_words, camel, can_split, constant, flat, kebab, pascal, snake, split_words, splits,
    words_of, CaseStyles,
};
use crate::cases::{
    camel_case as in_camel_case, constant_case as in_constant_case, flat_case as in_flat_case,
    kebab_case as in_kebab_case, pascal_case as in_pascal_case, snake_case as in_snake_case,
};
use crate::network::comment::{comment_end, Comment};
use crate::parser::util::{run_end, skip_run, Class};
use crate::text::{is_letter, letter, text_of, texts};

verus! {

/// An identifier as its words.
#[derive(Debug)]
pub struct Identifier(Vec<String>);

/// A name: ASCII letters, `_` and `-`, one at least, and behind them ASCII
/// letters and digits as far as they go.
pub open spec fn name_at(s: Seq<char>, i: int) -> Option<int> {
    if 0 <= i < s.len() && Class::NameStart.holds(s[i]) {
        Some(run_end(s, run_end(s, i, Class::NameStart), Class::Alphanumeric))
    } else {
        None
    }
}

/// The words of the name at `i`. A name with a digit in it has none.
pub open spec fn identifier_words_at(s: Seq<char>, i: int) -> Option<(Seq<Seq<char>>, int)> {
    match name_at(s, i) {
        Some(end) => if can_split(s.subrange(i, end)) {
            Some((words_of(s.subrange(i, end)), end))
        } else {
            None
        },
        None => None,
    }
}

impl Identifier {
    #[verifier::type_invariant]
    spec fn well_formed(&self) -> bool {
        are_words(texts(self.0@))
    }

    /// The words of the identifier.
    pub closed spec fn parts(&self) -> Seq<Seq<char>> {
        texts(self.0@)
    }

    /// An identifier of no words.
    pub fn new() -> (r: Identifier)
        ensures
            r.parts() == Seq::<Seq<char>>::empty(),
    {
        let words: Vec<String> = Vec::new();
        assert(texts(words@) =~= Seq::<Seq<char>>::empty());
        Identifier(words)
    }

    /// Reads a name, and splits it into the words of an identifier.
    pub fn parse(input: &[char], at: usize) -> (r: Option<(Identifier, usize)>)
        ensures
            match identifier_words_at(input@, at as int) {
                Some((words, end)) => r matches Some((found, e)) && found.parts() == words && e
                    == end && at < e <= input.len(),
                None => r is None,
            },
    {
        if !(at < input.len() && Class::NameStart.has(input[at])) {
            return None;
        }
        proof {
            crate::parser::util::lemma_run_end(input@, at + 1, Class::NameStart);
        }
        let start = skip_run(input, at, Class::NameStart);
        let end = skip_run(input, start, Class::Alphanumeric);
        assert(start > at);
        let name = slice_subrange(input, at, end);
        if !splits(name) {
            return None;
        }
        Some((Identifier(split_words(name)), end))
    }

    /// The identifier in `flatcase`.
    pub fn flat_case(&self) -> (r: String)
        ensures
            r@ == in_flat_case(self.parts()),
    {
        flat(&self.0)
    }

    /// The identifier in `kebab-case`.
    pub fn kebab_case(&self) -> (r: String)
        ensures
            r@ == in_kebab_case(self.parts()),
    {
        kebab(&self.0)
    }

    /// The identifier in `camelCase`.
    pub fn camel_case(&self) -> (r: String)
        ensures
            r@ == in_camel_case(self.parts()),
    {
        camel(&self.0)
    }

    /// The identifier in `PascalCase`.
    pub fn pascal_case(&self) -> (r: String)
        ensures
            r@ == in_pascal_case(self.parts()),
    {
        pascal(&self.0)
    }

    /// The identifier in `snake_case`.
    pub fn snake_case(&self) -> (r: String)
        ensures
            r@ == in_snake_case(self.parts()),
    {
        snake(&self.0)
    }

    /// The identifier in `CONSTANT_CASE`.
    pub fn constant_case(&self) -> (r: String)
        ensures
            r@ == in_constant_case(self.parts()),
    {
        constant(&self.0)
    }
}

impl Clone for Identifier {
    fn clone(&self) -> (r: Identifier)
        ensures
            r.parts() == self.parts(),
    {
        proof {
            use_type_invariant(self);
        }
        Identifier(self.to_split_case())
    }
}

impl CaseStyles for Identifier {
    open spec fn splits(&self) -> bool {
        true
    }

    open spec fn words(&self) -> Seq<Seq<char>> {
        self.parts()
    }

    fn to_split_case(&self) -> (r: Vec<String>) {
        proof {
            use_type_invariant(self);
        }
        let mut words: Vec<String> = Vec::new();
        let mut i: usize = 0;
        while i < self.0.len()
            invariant
                i <= self.0.len(),
                words.len() == i,
                forall|k: int| 0 <= k < i ==> words[k]@ == self.0[k]@,
            decreases self.0.len() - i,
        {
            words.push(self.0[i].clone());
            i += 1;
        }
        assert(texts(words@) =~= texts(self.0@));
        words
    }
}

/// The name of a type, a field, a structure or a tag.
#[derive(Debug, PartialEq)]
pub struct NetworkIdentifier {
    pub identity: String,
}

/// An identifier behind whitespace and comments: an ASCII letter, and ASCII
/// letters and digits as far as they go.
pub open spec fn network_identifier_at(s: Seq<char>, i: int) -> Option<(Seq<char>, int)> {
    let start = comment_end(s, i);
    if 0 <= start < s.len() && is_letter(s[start]) {
        let end = run_end(s, start + 1, Class::Alphanumeric);
        Some((s.subrange(start, end), end))
    } else {
        None
    }
}

impl View for NetworkIdentifier {
    type V = Seq<char>;

    open spec fn view(&self) -> Seq<char> {
        self.identity@
    }
}

impl NetworkIdentifier {
    /// The identifier of the name `identity`.
    pub fn new(identity: String) -> (r: NetworkIdentifier)
        ensures
            r@ == identity@,
    {
        NetworkIdentifier { identity }
    }

    /// Reads an identifier, and the whitespace and comments before it.
    pub fn parse(input: &[char], at: usize) -> (r: Option<(NetworkIdentifier, usize)>)
        ensures
            match network_identifier_at(input@, at as int) {
                Some((name, end)) => r matches Some((found, e)) && found@ == name && e == end
                    && at < e <= input.len(),
                None => r is None,
            },
    {
        let (_, start) = Comment::parse(input, at);
        if !(start < input.len() && letter(input[start])) {
            return None;
        }
        let end = skip_run(input, start + 1, Class::Alphanumeric);
        Some((NetworkIdentifier::new(text_of(slice_subrange(input, start, end))), end))
    }
}

} // verus!
