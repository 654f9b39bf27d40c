//! The argument context: the tree of values that a template is rendered
//! against.
use vstd::prelude::*;

verus! {

/// One value of the context.
#[derive(Debug)]
pub enum Argument {
    Null,
    Bool(bool),
    Number(i128),
    String(String),
    Object(Members),
    Array(Vec<Argument>),
}

/// What an [`Argument`] stands for: the same tree over plain values, an
/// object being a map from its keys to its values.
pub enum Value {
    Null,
    Bool(bool),
    Number(int),
    Text(Seq<char>),
    Object(Map<Seq<char>, Value>),
    Array(Seq<Value>),
}

/// A key of an object and the value under it.
#[derive(Debug)]
struct Member {
    key: String,
    value: Argument,
}

/// The members of an object: values under keys, no key twice.
#[derive(Debug)]
pub struct Members {
    entries: Vec<Member>,
}

/// The values of an array, each as what it stands for.
pub open spec fn values_view(items: Seq<Argument>) -> Seq<Value>
    decreases items,
{
    Seq::new(
        items.len(),
        |i: int|
            if 0 <= i < items.len() {
                items[i]@
            } else {
                Value::Null
            },
    )
}

impl View for Argument {
    type V = Value;

    open spec fn view(&self) -> Value
        decreases self,
    {
        match self {
            Argument::Null => Value::Null,
            Argument::Bool(b) => Value::Bool(*b),
            Argument::Number(n) => Value::Number(*n as int),
            Argument::String(text) => Value::Text(text@),
            Argument::Object(members) => Value::Object(members@),
            Argument::Array(items) => Value::Array(values_view(items@)),
        }
    }
}

/// Whether no two of `entries` have the same key.
spec fn keys_unique(entries: Seq<Member>) -> bool {
    forall|i: int, j: int|
        0 <= i < j < entries.len() ==> (#[trigger] entries[i]).key@ != (#[trigger] entries[j]).key@
}

/// The map that the first `n` of `entries` make.
spec fn members_map(entries: Seq<Member>, n: nat) -> Map<Seq<char>, Value>
    decreases entries, n,
{
    if n == 0 || n > entries.len() {
        Map::empty()
    } else {
        members_map(entries, (n - 1) as nat).insert(entries[n - 1].key@, entries[n - 1].value@)
    }
}

/// With no key twice, the map holds each entry under its key and nothing
/// else, and has as many keys as there are entries.
proof fn lemma_members_map(entries: Seq<Member>, n: nat)
    requires
        n <= entries.len(),
        keys_unique(entries),
    ensures
        members_map(entries, n).dom().finite(),
        members_map(entries, n).dom().len() == n,
        forall|k: Seq<char>|
            members_map(entries, n).dom().contains(k) <==> exists|i: int|
                0 <= i < n && (#[trigger] entries[i]).key@ == k,
        forall|i: int|
            0 <= i < n ==> members_map(entries, n)[(#[trigger] entries[i]).key@]
                == entries[i].value@,
    decreases n,
{
    if n > 0 {
        let before = members_map(entries, (n - 1) as nat);
        let last = entries[n - 1];
        lemma_members_map(entries, (n - 1) as nat);
        assert(!before.dom().contains(last.key@));
        let now = members_map(entries, n);
        assert(now == before.insert(last.key@, last.value@));
        assert forall|k: Seq<char>| now.dom().contains(k) implies exists|i: int|
            0 <= i < n && (#[trigger] entries[i]).key@ == k by {
            if k == last.key@ {
                assert(entries[n - 1].key@ == k);
            } else {
                assert(before.dom().contains(k));
                let i = choose|i: int| 0 <= i < n - 1 && (#[trigger] entries[i]).key@ == k;
                assert(0 <= i < n && entries[i].key@ == k);
            }
        }
        assert forall|i: int| 0 <= i < n implies now[(#[trigger] entries[i]).key@]
            == entries[i].value@ by {
            if i < n - 1 {
                assert(entries[i].key@ != entries[n - 1].key@);
            }
        }
    }
}

impl View for Members {
    type V = Map<Seq<char>, Value>;

    closed spec fn view(&self) -> Map<Seq<char>, Value>
        decreases self,
    {
        members_map(self.entries@, self.entries@.len())
    }
}

impl Members {
    #[verifier::type_invariant]
    spec fn unique(&self) -> bool {
        keys_unique(self.entries@)
    }

    /// An object has finitely many keys.
    pub proof fn lemma_finite(&self)
        ensures
            self@.dom().finite(),
    {
        Self::lemma_map_finite(self.entries@, self.entries@.len());
    }

    proof fn lemma_map_finite(entries: Seq<Member>, n: nat)
        ensures
            members_map(entries, n).dom().finite(),
        decreases n,
    {
        if !(n == 0 || n > entries.len()) {
            Self::lemma_map_finite(entries, (n - 1) as nat);
            assert(members_map(entries, n) == members_map(entries, (n - 1) as nat).insert(
                entries[n - 1].key@,
                entries[n - 1].value@,
            ));
            assert(members_map(entries, n).dom() =~= members_map(
                entries,
                (n - 1) as nat,
            ).dom().insert(entries[n - 1].key@));
        } else {
            assert(members_map(entries, n).dom() =~= Set::<Seq<char>>::empty());
        }
    }

    /// No members.
    pub fn new() -> (r: Members)
        ensures
            r@ == Map::<Seq<char>, Value>::empty(),
    {
        Members { entries: Vec::new() }
    }

    /// The number of members.
    pub fn len(&self) -> (r: usize)
        ensures
            self@.dom().finite(),
            r == self@.dom().len(),
    {
        proof {
            use_type_invariant(self);
            lemma_members_map(self.entries@, self.entries@.len());
        }
        self.entries.len()
    }

    /// The place of the member under `key`.
    fn find(&self, key: &String) -> (r: Option<usize>)
        ensures
            match r {
                Some(i) => i < self.entries.len() && self.entries[i as int].key@ == key@,
                None => forall|i: int|
                    0 <= i < self.entries.len() ==> (#[trigger] self.entries[i]).key@ != key@,
            },
    {
        let mut i: usize = 0;
        while i < self.entries.len()
            invariant
                i <= self.entries.len(),
                forall|k: int| 0 <= k < i ==> (#[trigger] self.entries[k]).key@ != key@,
            decreases self.entries.len() - i,
        {
            if self.entries[i].key == *key {
                return Some(i);
            }
            i += 1;
        }
        None
    }

    /// The value under `key`.
    pub fn get(&self, key: &String) -> (r: Option<&Argument>)
        ensures
            match r {
                Some(value) => self@.dom().contains(key@) && value@ == self@[key@],
                None => !self@.dom().contains(key@),
            },
    {
        proof {
            use_type_invariant(self);
            lemma_members_map(self.entries@, self.entries@.len());
        }
        match self.find(key) {
            Some(i) => Some(&self.entries[i].value),
            None => None,
        }
    }

    /// Puts `value` under `key`, in place of what was there.
    pub fn insert(&mut self, key: String, value: Argument)
        ensures
            final(self)@ == old(self)@.insert(key@, value@),
    {
        proof {
            use_type_invariant(&*self);
            lemma_members_map(self.entries@, self.entries@.len());
        }
        let ghost before = self.entries@;
        let ghost added = Member { key, value };
        match self.find(&key) {
            Some(i) => {
                let mut entries: Vec<Member> = Vec::new();
                std::mem::swap(&mut self.entries, &mut entries);
                entries.set(i, Member { key, value });
                proof {
                    let after = entries@;
                    assert(after == before.update(i as int, added));
                    assert(keys_unique(after)) by {
                        assert forall|a: int, b: int| 0 <= a < b < after.len() implies (
                        #[trigger] after[a]).key@ != (#[trigger] after[b]).key@ by {
                            assert(before[a].key@ != before[b].key@);
                        }
                    }
                    lemma_members_map(after, after.len());
                    let m0 = members_map(before, before.len());
                    let m1 = members_map(after, after.len());
                    assert forall|k: Seq<char>| m1.dom().contains(k) <==> m0.insert(
                        added.key@,
                        added.value@,
                    ).dom().contains(k) by {
                        if m1.dom().contains(k) {
                            let a = choose|a: int|
                                0 <= a < after.len() && (#[trigger] after[a]).key@ == k;
                            assert(before[a].key@ == k);
                        }
                        if m0.dom().contains(k) {
                            let a = choose|a: int|
                                0 <= a < before.len() && (#[trigger] before[a]).key@ == k;
                            assert(after[a].key@ == k);
                        }
                        if k == added.key@ {
                            assert(after[i as int].key@ == k);
                        }
                    }
                    assert forall|k: Seq<char>| m1.dom().contains(k) implies m1[k] == m0.insert(
                        added.key@,
                        added.value@,
                    )[k] by {
                        let a = choose|a: int|
                            0 <= a < after.len() && (#[trigger] after[a]).key@ == k;
                        if a != i {
                            assert(before[a].key@ == k);
                            assert(before[a].key@ != before[i as int].key@);
                        }
                    }
                    assert(m1 =~= m0.insert(added.key@, added.value@));
                }
                self.entries = entries;
            },
            None => {
                let mut entries: Vec<Member> = Vec::new();
                std::mem::swap(&mut self.entries, &mut entries);
                entries.push(Member { key, value });
                proof {
                    let after = entries@;
                    assert(after == before.push(added));
                    assert(keys_unique(after)) by {
                        assert forall|a: int, b: int| 0 <= a < b < after.len() implies (
                        #[trigger] after[a]).key@ != (#[trigger] after[b]).key@ by {
                            if b < before.len() {
                                assert(before[a].key@ != before[b].key@);
                            } else {
                                assert(before[a].key@ != added.key@);
                            }
                        }
                    }
                    Self::lemma_map_prefix(before, after, before.len());
                }
                self.entries = entries;
            },
        }
    }

    /// The map of the first `n` entries depends on those entries alone.
    proof fn lemma_map_prefix(a: Seq<Member>, b: Seq<Member>, n: nat)
        requires
            n <= a.len(),
            n <= b.len(),
            forall|i: int| 0 <= i < n ==> a[i] == b[i],
        ensures
            members_map(a, n) == members_map(b, n),
        decreases n,
    {
        if n > 0 {
            Self::lemma_map_prefix(a, b, (n - 1) as nat);
        }
    }

    /// Takes out the member under `key`, and returns its value.
    pub fn remove(&mut self, key: &String) -> (r: Option<Argument>)
        ensures
            final(self)@ == old(self)@.remove(key@),
            match r {
                Some(value) => old(self)@.dom().contains(key@) && value@ == old(self)@[key@],
                None => !old(self)@.dom().contains(key@),
            },
    {
        proof {
            use_type_invariant(&*self);
            lemma_members_map(self.entries@, self.entries@.len());
        }
        let ghost before = self.entries@;
        match self.find(key) {
            Some(i) => {
                let mut entries: Vec<Member> = Vec::new();
                std::mem::swap(&mut self.entries, &mut entries);
                let taken = entries.remove(i);
                proof {
                    let after = entries@;
                    assert(after == before.remove(i as int));
                    assert(taken == before[i as int]);
                    assert(keys_unique(after)) by {
                        assert forall|a: int, b: int| 0 <= a < b < after.len() implies (
                        #[trigger] after[a]).key@ != (#[trigger] after[b]).key@ by {
                            let a0 = if a < i { a } else { a + 1 };
                            let b0 = if b < i { b } else { b + 1 };
                            assert(before[a0].key@ != before[b0].key@);
                        }
                    }
                    lemma_members_map(after, after.len());
                    let m0 = members_map(before, before.len());
                    let m1 = members_map(after, after.len());
                    assert forall|k: Seq<char>| m1.dom().contains(k) <==> m0.remove(
                        key@,
                    ).dom().contains(k) by {
                        if m1.dom().contains(k) {
                            let a = choose|a: int|
                                0 <= a < after.len() && (#[trigger] after[a]).key@ == k;
                            let a0 = if a < i { a } else { a + 1 };
                            assert(before[a0].key@ == k);
                            assert(before[a0].key@ != before[i as int].key@);
                        }
                        if m0.dom().contains(k) && k != key@ {
                            let a0 = choose|a: int|
                                0 <= a < before.len() && (#[trigger] before[a]).key@ == k;
                            let a = if a0 < i { a0 } else { a0 - 1 };
                            assert(after[a].key@ == k);
                        }
                    }
                    assert forall|k: Seq<char>| m1.dom().contains(k) implies m1[k] == m0.remove(
                        key@,
                    )[k] by {
                        let a = choose|a: int|
                            0 <= a < after.len() && (#[trigger] after[a]).key@ == k;
                        let a0 = if a < i { a } else { a + 1 };
                        assert(before[a0].key@ == k);
                    }
                    assert(m1 =~= m0.remove(key@));
                }
                self.entries = entries;
                let Member { key: _, value } = taken;
                Some(value)
            },
            None => {
                assert(self@ =~= old(self)@.remove(key@));
                None
            },
        }
    }
}

/// Entries with the same keys and the same values make the same map.
proof fn lemma_same_entries(a: Seq<Member>, b: Seq<Member>, n: nat)
    requires
        n <= a.len(),
        n <= b.len(),
        forall|i: int| 0 <= i < n ==> a[i].key@ == b[i].key@ && a[i].value@ == b[i].value@,
    ensures
        members_map(a, n) == members_map(b, n),
    decreases n,
{
    if n > 0 {
        lemma_same_entries(a, b, (n - 1) as nat);
    }
}

impl Clone for Members {
    fn clone(&self) -> (r: Members)
        ensures
            r@ == self@,
        decreases self,
    {
        proof {
            use_type_invariant(self);
        }
        let mut entries: Vec<Member> = Vec::new();
        let mut i: usize = 0;
        while i < self.entries.len()
            invariant
                i <= self.entries.len(),
                entries.len() == i,
                forall|k: int|
                    0 <= k < i ==> entries[k].key@ == self.entries[k].key@ && entries[k].value@
                        == self.entries[k].value@,
            decreases self.entries.len() - i,
        {
            assert(decreases_to!(self.entries@ => self.entries@[i as int]));
            let key = self.entries[i].key.clone();
            let value = self.entries[i].value.clone();
            entries.push(Member { key, value });
            i += 1;
        }
        proof {
            lemma_same_entries(entries@, self.entries@, entries@.len());
            assert(keys_unique(entries@)) by {
                assert forall|a: int, b: int| 0 <= a < b < entries.len() implies (
                #[trigger] entries[a]).key@ != (#[trigger] entries[b]).key@ by {
                    assert(self.entries[a].key@ != self.entries[b].key@);
                }
            }
        }
        Members { entries }
    }
}

impl Clone for Argument {
    fn clone(&self) -> (r: Argument)
        ensures
            r@ == self@,
        decreases self,
    {
        match self {
            Argument::Null => Argument::Null,
            Argument::Bool(b) => Argument::Bool(*b),
            Argument::Number(n) => Argument::Number(*n),
            Argument::String(text) => Argument::String(text.clone()),
            Argument::Object(members) => Argument::Object(members.clone()),
            Argument::Array(items) => {
                let mut copies: Vec<Argument> = Vec::new();
                let mut i: usize = 0;
                while i < items.len()
                    invariant
                        i <= items.len(),
                        copies.len() == i,
                        self == Argument::Array(*items),
                        forall|k: int| 0 <= k < i ==> copies[k]@ == items[k]@,
                    decreases items.len() - i,
                {
                    assert(self matches Argument::Array(held) && held == items);
                    assert(decreases_to!(*self => items@));
                    assert(decreases_to!(items@ => items@[i as int]));
                    copies.push(items[i].clone());
                    i += 1;
                }
                assert(values_view(copies@) =~= values_view(items@));
                Argument::Array(copies)
            },
        }
    }
}

} // verus!
