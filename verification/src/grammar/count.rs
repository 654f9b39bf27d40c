//! The fields that a rule declares, and how often each is read.
use vstd::prelude::*;
use crate::cases::{can_split, snake, snake_case, split_words, splits, words_of};
use crate::grammar::rule::{Dimension, Rule};
use crate::text::chars_of;

verus! {

/// The fields found so far, each with how often it is read. A later entry of
/// a name stands for that name.
#[derive(Debug)]
pub struct Fields {
    entries: Vec<(String, Dimension)>,
}

/// The table that the first `n` entries make.
pub open spec fn listed(entries: Seq<(String, Dimension)>, n: nat) -> Map<Seq<char>, Dimension>
    decreases n,
{
    if n == 0 || n > entries.len() {
        Map::empty()
    } else {
        listed(entries, (n - 1) as nat).insert(entries[n - 1].0@, entries[n - 1].1)
    }
}

/// Whether no field of the table is read optionally.
pub open spec fn none_optional(fields: Map<Seq<char>, Dimension>) -> bool {
    forall|name: Seq<char>| fields.dom().contains(name) ==> #[trigger] fields[name] != Dimension::Option
}

/// The table with one more reading of the field `name` in it: a field that
/// was read once is read many times now, and a new one is read once.
pub open spec fn counted_once(fields: Map<Seq<char>, Dimension>, name: Seq<char>) -> Map<
    Seq<char>,
    Dimension,
> {
    if fields.dom().contains(name) {
        match fields[name] {
            Dimension::Scalar => fields.insert(name, Dimension::Many),
            _ => fields,
        }
    } else {
        fields.insert(name, Dimension::Scalar)
    }
}

/// The table with the fields of `rule` counted into it. An identifier is a
/// reading of the field of its name in snake case; a scope counts its rules
/// in order; an option and a repetition count what they hold.
pub open spec fn counted(rule: Rule, fields: Map<Seq<char>, Dimension>) -> Map<
    Seq<char>,
    Dimension,
>
    decreases rule, 0nat,
{
    match rule {
        Rule::Identifier(name) => counted_once(fields, snake_case(words_of(name@))),
        Rule::Scope(rules) => counted_all(rules@, 0, fields),
        Rule::Option(inner) => counted(*inner, fields),
        Rule::Repetition(inner) => counted(*inner, fields),
        _ => fields,
    }
}

/// The table with the fields of the rules from number `from` on counted into
/// it.
pub open spec fn counted_all(rules: Seq<Rule>, from: nat, fields: Map<Seq<char>, Dimension>) -> Map<
    Seq<char>,
    Dimension,
>
    decreases rules, rules.len() - from,
{
    if from >= rules.len() {
        fields
    } else {
        counted_all(rules, from + 1, counted(rules[from as int], fields))
    }
}

/// Whether the fields of a rule can be counted: it holds no branch, and its
/// identifiers are made of ASCII letters and separators.
pub open spec fn countable(rule: Rule) -> bool
    decreases rule,
{
    match rule {
        Rule::Identifier(name) => can_split(name@),
        Rule::Scope(rules) => forall|i: int|
            0 <= i < rules.len() ==> countable(#[trigger] rules[i]),
        Rule::Option(inner) => countable(*inner),
        Rule::Repetition(inner) => countable(*inner),
        Rule::Branch(_) => false,
        _ => true,
    }
}

/// Counting keeps a table without optional fields as one.
pub proof fn lemma_counted_once(fields: Map<Seq<char>, Dimension>, name: Seq<char>)
    requires
        none_optional(fields),
    ensures
        none_optional(counted_once(fields, name)),
{
    let after = counted_once(fields, name);
    assert forall|key: Seq<char>| after.dom().contains(key) implies #[trigger] after[key]
        != Dimension::Option by {
        if key != name {
            assert(fields.dom().contains(key));
            assert(fields[key] != Dimension::Option);
        } else if fields.dom().contains(name) {
            assert(fields[name] != Dimension::Option);
        }
    }
}

impl View for Fields {
    type V = Map<Seq<char>, Dimension>;

    closed spec fn view(&self) -> Map<Seq<char>, Dimension> {
        listed(self.entries@, self.entries@.len())
    }
}

impl Fields {
    /// No fields.
    pub fn new() -> (r: Fields)
        ensures
            r@ == Map::<Seq<char>, Dimension>::empty(),
    {
        Fields { entries: Vec::new() }
    }

    /// How often the field `name` is read.
    pub fn get(&self, name: &String) -> (r: Option<Dimension>)
        ensures
            match r {
                Some(dimension) => self@.dom().contains(name@) && self@[name@] == dimension,
                None => !self@.dom().contains(name@),
            },
    {
        let mut i: usize = self.entries.len();
        while i > 0
            invariant
                i <= self.entries.len(),
                self@.dom().contains(name@) == listed(self.entries@, i as nat).dom().contains(
                    name@,
                ),
                self@.dom().contains(name@) ==> self@[name@] == listed(
                    self.entries@,
                    i as nat,
                )[name@],
            decreases i,
        {
            if self.entries[i - 1].0 == *name {
                return Some(self.entries[i - 1].1);
            }
            i -= 1;
        }
        None
    }

    /// Whether no field of the table is read optionally.
    pub fn has_none_optional(&self) -> (r: bool)
        ensures
            r == none_optional(self@),
    {
        let mut i: usize = self.entries.len();
        while i > 0
            invariant
                i <= self.entries.len(),
                forall|k: int|
                    i <= k < self.entries.len() ==> (forall|j: int|
                        k < j < self.entries.len() ==> (#[trigger] self.entries[j]).0@
                            != self.entries[k].0@) ==> (#[trigger] self.entries[k]).1
                        != Dimension::Option,
            decreases i,
        {
            i -= 1;
            if self.entries[i].1 == Dimension::Option {
                let mut j: usize = i + 1;
                let mut hidden = false;
                while j < self.entries.len()
                    invariant
                        i < j <= self.entries.len(),
                        hidden == exists|m: int|
                            i < m < j && (#[trigger] self.entries[m]).0@ == self.entries[i as int].0@,
                    decreases self.entries.len() - j,
                {
                    if self.entries[j].0 == self.entries[i].0 {
                        hidden = true;
                    }
                    j += 1;
                }
                if !hidden {
                    proof {
                        Self::lemma_listed_last(self.entries@, self.entries@.len(), i as int);
                    }
                    return false;
                }
            }
        }
        proof {
            assert forall|name: Seq<char>| self@.dom().contains(name) implies #[trigger] self@[name]
                != Dimension::Option by {
                Self::lemma_listed_some(self.entries@, self.entries@.len(), name);
                let k = choose|k: int|
                    0 <= k < self.entries@.len() && self.entries@[k].0@ == name && (forall|j: int|
                        k < j < self.entries@.len() ==> (#[trigger] self.entries@[j]).0@ != name);
                Self::lemma_listed_last(self.entries@, self.entries@.len(), k);
            }
        }
        true
    }

    /// The entry of a name behind which no entry has that name stands for the
    /// name.
    proof fn lemma_listed_last(entries: Seq<(String, Dimension)>, n: nat, k: int)
        requires
            0 <= k < n <= entries.len(),
            forall|j: int| k < j < n ==> (#[trigger] entries[j]).0@ != entries[k].0@,
        ensures
            listed(entries, n).dom().contains(entries[k].0@),
            listed(entries, n)[entries[k].0@] == entries[k].1,
        decreases n,
    {
        if k < n - 1 {
            assert(entries[n - 1].0@ != entries[k].0@);
            Self::lemma_listed_last(entries, (n - 1) as nat, k);
        }
    }

    /// A name of the table has a last entry.
    proof fn lemma_listed_some(entries: Seq<(String, Dimension)>, n: nat, name: Seq<char>)
        requires
            n <= entries.len(),
            listed(entries, n).dom().contains(name),
        ensures
            exists|k: int|
                0 <= k < n && entries[k].0@ == name && (forall|j: int|
                    k < j < n ==> (#[trigger] entries[j]).0@ != name),
        decreases n,
    {
        if n > 0 {
            if entries[n - 1].0@ == name {
                assert(forall|j: int| n - 1 < j < n ==> (#[trigger] entries[j]).0@ != name);
            } else {
                Self::lemma_listed_some(entries, (n - 1) as nat, name);
                let k = choose|k: int|
                    0 <= k < n - 1 && entries[k].0@ == name && (forall|j: int|
                        k < j < n - 1 ==> (#[trigger] entries[j]).0@ != name);
                assert forall|j: int| k < j < n implies (#[trigger] entries[j]).0@ != name by {}
            }
        }
    }

    /// Sets how often the field `name` is read.
    pub fn insert(&mut self, name: String, dimension: Dimension)
        ensures
            final(self)@ == old(self)@.insert(name@, dimension),
    {
        let ghost before = self.entries@;
        self.entries.push((name, dimension));
        proof {
            Self::lemma_listed_prefix(before, self.entries@, before.len());
        }
    }

    /// The table of the first `n` entries depends on those entries alone.
    proof fn lemma_listed_prefix(
        a: Seq<(String, Dimension)>,
        b: Seq<(String, Dimension)>,
        n: nat,
    )
        requires
            n <= a.len(),
            n <= b.len(),
            forall|i: int| 0 <= i < n ==> a[i] == b[i],
        ensures
            listed(a, n) == listed(b, n),
        decreases n,
    {
        if n > 0 {
            Self::lemma_listed_prefix(a, b, (n - 1) as nat);
        }
    }
}

impl Rule {
    /// Whether the fields of the rule can be counted.
    pub fn can_count(&self) -> (r: bool)
        ensures
            r == countable(*self),
        decreases self,
    {
        match self {
            Rule::Identifier(name) => {
                let chars = chars_of(name.as_str());
                splits(chars.as_slice())
            },
            Rule::Scope(rules) => {
                let mut i: usize = 0;
                while i < rules.len()
                    invariant
                        i <= rules.len(),
                        self == Rule::Scope(*rules),
                        forall|k: int| 0 <= k < i ==> countable(#[trigger] rules[k]),
                    decreases rules.len() - i,
                {
                    assert(self matches Rule::Scope(held) && held == rules);
                    assert(decreases_to!(*self => rules@));
                    assert(decreases_to!(rules@ => rules@[i as int]));
                    if !rules[i].can_count() {
                        return false;
                    }
                    i += 1;
                }
                true
            },
            Rule::Option(inner) => inner.can_count(),
            Rule::Repetition(inner) => inner.can_count(),
            Rule::Branch(_) => false,
            _ => true,
        }
    }

    /// Counts the fields that the rule declares into `map`: each with how
    /// often it is read.
    pub fn get_fields(&self, map: &mut Fields)
        requires
            countable(*self),
            none_optional(old(map)@),
        ensures
            final(map)@ == counted(*self, old(map)@),
            none_optional(final(map)@),
        decreases self, 0nat,
    {
        match self {
            Rule::Identifier(ident) => {
                let chars = chars_of(ident.as_str());
                let name = snake(&split_words(chars.as_slice()));
                proof {
                    lemma_counted_once(map@, name@);
                }
                match map.get(&name) {
                    Some(Dimension::Scalar) => {
                        map.insert(name, Dimension::Many);
                    },
                    Some(_) => {},
                    None => {
                        map.insert(name, Dimension::Scalar);
                    },
                }
            },
            Rule::Scope(rules) => {
                let mut i: usize = 0;
                while i < rules.len()
                    invariant
                        i <= rules.len(),
                        self == Rule::Scope(*rules),
                        countable(*self),
                        none_optional(map@),
                        counted(*self, old(map)@) == counted_all(rules@, i as nat, map@),
                    decreases rules.len() - i,
                {
                    assert(countable(rules@[i as int]));
                    rules[i].get_fields(map);
                    i += 1;
                }
            },
            Rule::Option(rule) => {
                rule.get_fields(map);
            },
            Rule::Repetition(rule) => {
                rule.get_fields(map);
            },
            _ => {},
        }
    }
}

} // verus!
