//! Paths into the context: how an alias is replaced by the path it stands
//! for, and how a path is walked down the tree of values.
use vstd::prelude::*;
use crate::context::{values_view, Argument, Value};
use crate::text::{
    chars_of, decimal, index_of, parse_index, push_decimal, push_signed_decimal, signed_decimal,
    text_of, texts,
};

verus! {

/// The aliases in force, the innermost last. Each stands for a path.
#[derive(Debug)]
pub struct Redirects {
    layers: Vec<(String, Vec<String>)>,
}

/// The table that a stack of aliases makes: each name with the path of the
/// innermost alias of that name.
pub open spec fn table(layers: Seq<(Seq<char>, Seq<Seq<char>>)>) -> Map<Seq<char>, Seq<Seq<char>>>
    decreases layers.len(),
{
    if layers.len() == 0 {
        Map::empty()
    } else {
        table(layers.drop_last()).insert(layers.last().0, layers.last().1)
    }
}

/// A table made of a stack of aliases has finitely many names.
pub proof fn lemma_table_finite(layers: Seq<(Seq<char>, Seq<Seq<char>>)>)
    ensures
        table(layers).dom().finite(),
    decreases layers.len(),
{
    if layers.len() > 0 {
        lemma_table_finite(layers.drop_last());
    }
}

impl View for Redirects {
    type V = Seq<(Seq<char>, Seq<Seq<char>>)>;

    closed spec fn view(&self) -> Seq<(Seq<char>, Seq<Seq<char>>)> {
        Seq::new(self.layers@.len(), |i: int| (self.layers@[i].0@, texts(self.layers@[i].1@)))
    }
}

impl Redirects {
    /// No alias.
    pub fn new() -> (r: Redirects)
        ensures
            r@ == Seq::<(Seq<char>, Seq<Seq<char>>)>::empty(),
    {
        let r = Redirects { layers: Vec::new() };
        assert(r@ =~= Seq::<(Seq<char>, Seq<Seq<char>>)>::empty());
        r
    }

    /// The number of aliases, shadowed ones included.
    pub fn len(&self) -> (r: usize)
        ensures
            r == self@.len(),
    {
        self.layers.len()
    }

    /// Puts the alias `name` for `path` on top: it shadows any other of that
    /// name.
    pub fn push(&mut self, name: String, path: Vec<String>)
        ensures
            final(self)@ == old(self)@.push((name@, texts(path@))),
    {
        self.layers.push((name, path));
        assert(self@ =~= old(self)@.push((name@, texts(path@))));
    }

    /// Takes the top alias off: what it shadowed is in force again.
    pub fn pop(&mut self)
        ensures
            final(self)@ == if old(self)@.len() > 0 {
                old(self)@.drop_last()
            } else {
                old(self)@
            },
    {
        self.layers.pop();
        assert(self@ =~= if old(self)@.len() > 0 {
            old(self)@.drop_last()
        } else {
            old(self)@
        });
    }

    /// The path that `name` stands for.
    pub fn get(&self, name: &String) -> (r: Option<&Vec<String>>)
        ensures
            match r {
                Some(path) => table(self@).dom().contains(name@) && table(self@)[name@]
                    == texts(path@),
                None => !table(self@).dom().contains(name@),
            },
    {
        let mut i: usize = self.layers.len();
        assert(self@.take(i as int) == self@);
        while i > 0
            invariant
                i <= self.layers.len(),
                table(self@).dom().contains(name@) == table(self@.take(i as int)).dom().contains(
                    name@,
                ),
                table(self@).dom().contains(name@) ==> table(self@)[name@] == table(
                    self@.take(i as int),
                )[name@],
            decreases i,
        {
            let ghost layers = self@.take(i as int);
            assert(layers.drop_last() == self@.take(i - 1));
            assert(layers.last() == self@[i - 1]);
            if self.layers[i - 1].0 == *name {
                return Some(&self.layers[i - 1].1);
            }
            i -= 1;
        }
        None
    }
}

/// The text `true`.
pub open spec fn true_text() -> Seq<char> {
    "true"@
}

/// What a path resolves to from `value` on. A string, a number, null and
/// `true` end the walk with their text, whatever is left of the path; `false`
/// ends it undefined. An object is left by the key that the next segment
/// names, an array by the index that it names. A path that ends on an object
/// or an array resolves to the empty text.
pub open spec fn walk(value: Value, path: Seq<Seq<char>>) -> Option<Seq<char>>
    decreases path.len(),
{
    match value {
        Value::Null => Some(Seq::empty()),
        Value::Bool(b) => if b {
            Some(true_text())
        } else {
            None
        },
        Value::Number(n) => Some(signed_decimal(n)),
        Value::Text(text) => Some(text),
        Value::Object(members) => if path.len() == 0 {
            Some(Seq::empty())
        } else if members.dom().contains(path[0]) {
            walk(members[path[0]], path.drop_first())
        } else {
            None
        },
        Value::Array(items) => if path.len() == 0 {
            Some(Seq::empty())
        } else {
            match index_of(path[0]) {
                Some(i) => if i < items.len() {
                    walk(items[i as int], path.drop_first())
                } else {
                    None
                },
                None => None,
            }
        },
    }
}

/// The value that a path leads to from `value` on, through objects and
/// arrays alone.
pub open spec fn node_at(value: Value, path: Seq<Seq<char>>) -> Option<Value>
    decreases path.len(),
{
    if path.len() == 0 {
        Some(value)
    } else {
        match value {
            Value::Object(members) => if members.dom().contains(path[0]) {
                node_at(members[path[0]], path.drop_first())
            } else {
                None
            },
            Value::Array(items) => match index_of(path[0]) {
                Some(i) => if i < items.len() {
                    node_at(items[i as int], path.drop_first())
                } else {
                    None
                },
                None => None,
            },
            _ => None,
        }
    }
}

/// The number of members of an object or an array; 0 for any other value.
pub open spec fn size(value: Value) -> nat {
    match value {
        Value::Object(members) => members.dom().len(),
        Value::Array(items) => items.len(),
        _ => 0,
    }
}

/// A path with its aliases replaced: while the first segment is an alias, the
/// path that the alias stands for takes its place. `seen` holds the aliases
/// replaced so far; one that comes up again makes the path undefined, and so
/// does a path with no segment.
pub open spec fn expand(
    redirects: Map<Seq<char>, Seq<Seq<char>>>,
    path: Seq<Seq<char>>,
    seen: Set<Seq<char>>,
) -> Option<Seq<Seq<char>>>
    decreases redirects.dom().difference(seen).len(),
    when redirects.dom().finite()
    via expand_decreases
{
    if path.len() == 0 {
        None
    } else if seen.contains(path[0]) {
        None
    } else if redirects.dom().contains(path[0]) {
        expand(redirects, redirects[path[0]] + path.drop_first(), seen.insert(path[0]))
    } else {
        Some(path)
    }
}

#[via_fn]
proof fn expand_decreases(
    redirects: Map<Seq<char>, Seq<Seq<char>>>,
    path: Seq<Seq<char>>,
    seen: Set<Seq<char>>,
) {
    if path.len() > 0 && !seen.contains(path[0]) && redirects.dom().contains(path[0]) {
        lemma_unseen_shrinks(redirects.dom(), seen, path[0]);
    }
}

/// Marking a name of `names` as seen leaves one unseen name less.
pub proof fn lemma_unseen_shrinks(names: Set<Seq<char>>, seen: Set<Seq<char>>, name: Seq<char>)
    requires
        names.finite(),
        names.contains(name),
        !seen.contains(name),
    ensures
        names.difference(seen.insert(name)).len() < names.difference(seen).len(),
{
    assert(names.difference(seen.insert(name)) =~= names.difference(seen).remove(name));
}

/// What a path resolves to in a context, the aliases of `redirects` being in
/// force: they are replaced first, and the path that is left is walked from
/// the root. `None` is undefined.
pub open spec fn resolve(
    context: Value,
    redirects: Map<Seq<char>, Seq<Seq<char>>>,
    path: Seq<Seq<char>>,
) -> Option<Seq<char>> {
    match expand(redirects, path, Set::empty()) {
        Some(expanded) => walk(context, expanded),
        None => None,
    }
}

/// The path of the member `n` of `variable`.
pub open spec fn member_path(variable: Seq<Seq<char>>, n: nat) -> Seq<Seq<char>> {
    variable.push(decimal(n))
}

/// The number of members that the value at `variable` has; 0 where `variable`
/// leads to no object or array.
pub open spec fn source_size(
    context: Value,
    redirects: Map<Seq<char>, Seq<Seq<char>>>,
    variable: Seq<Seq<char>>,
) -> nat {
    match expand(redirects, variable, Set::empty()) {
        Some(expanded) => match node_at(context, expanded) {
            Some(value) => size(value),
            None => 0,
        },
        None => 0,
    }
}

/// The first number from `n` on whose member of `variable` is undefined,
/// `limit` at most.
pub open spec fn count_from(
    context: Value,
    redirects: Map<Seq<char>, Seq<Seq<char>>>,
    variable: Seq<Seq<char>>,
    n: nat,
    limit: nat,
) -> nat
    decreases limit - n,
{
    if n < limit && resolve(context, redirects, member_path(variable, n)) is Some {
        count_from(context, redirects, variable, n + 1, limit)
    } else {
        n
    }
}

/// How often a loop over `variable` runs: once for each of the members 0, 1,
/// 2, ... of the object or array at `variable`, up to the first that is
/// undefined. A loop over anything else does not run.
pub open spec fn member_count(
    context: Value,
    redirects: Map<Seq<char>, Seq<Seq<char>>>,
    variable: Seq<Seq<char>>,
) -> nat {
    count_from(context, redirects, variable, 0, source_size(context, redirects, variable))
}

/// A copy of `path`.
pub fn copy_path(path: &Vec<String>) -> (r: Vec<String>)
    ensures
        texts(r@) == texts(path@),
        r.len() == path.len(),
{
    let mut r: Vec<String> = Vec::new();
    let mut i: usize = 0;
    while i < path.len()
        invariant
            i <= path.len(),
            r.len() == i,
            forall|k: int| 0 <= k < i ==> r[k]@ == path[k]@,
        decreases path.len() - i,
    {
        r.push(path[i].clone());
        i += 1;
    }
    assert(texts(r@) =~= texts(path@));
    r
}

/// Whether one of `names` is `name`.
fn holds(names: &Vec<String>, name: &String) -> (r: bool)
    ensures
        r == exists|i: int| 0 <= i < names.len() && (#[trigger] names[i])@ == name@,
{
    let mut i: usize = 0;
    while i < names.len()
        invariant
            i <= names.len(),
            forall|k: int| 0 <= k < i ==> (#[trigger] names[k])@ != name@,
        decreases names.len() - i,
    {
        if names[i] == *name {
            return true;
        }
        i += 1;
    }
    false
}

/// Replaces the aliases at the head of `path`. `None` where the path is
/// undefined for that reason alone: it is empty, or an alias leads back to
/// itself.
pub fn expand_path(redirects: &Redirects, path: &Vec<String>) -> (r: Option<Vec<String>>)
    ensures
        match expand(table(redirects@), texts(path@), Set::empty()) {
            Some(expanded) => r matches Some(found) && texts(found@) == expanded,
            None => r is None,
        },
{
    let mut current = copy_path(path);
    let mut seen: Vec<String> = Vec::new();
    let ghost mut seen_names: Set<Seq<char>> = Set::empty();
    proof {
        lemma_table_finite(redirects@);
    }
    loop
        invariant
            table(redirects@).dom().finite(),
            forall|k: Seq<char>|
                seen_names.contains(k) <==> exists|i: int|
                    0 <= i < seen.len() && (#[trigger] seen[i])@ == k,
            expand(table(redirects@), texts(path@), Set::empty()) == expand(
                table(redirects@),
                texts(current@),
                seen_names,
            ),
        decreases table(redirects@).dom().difference(seen_names).len(),
    {
        if current.len() == 0 {
            return None;
        }
        if holds(&seen, &current[0]) {
            return None;
        }
        match redirects.get(&current[0]) {
            Some(target) => {
                let ghost head = current[0]@;
                let ghost before = texts(current@);
                let mut next = copy_path(target);
                let mut i: usize = 1;
                while i < current.len()
                    invariant
                        1 <= i <= current.len(),
                        texts(next@) == texts(target@) + before.subrange(1, i as int),
                        before == texts(current@),
                    decreases current.len() - i,
                {
                    let ghost old_next = texts(next@);
                    next.push(current[i].clone());
                    assert(texts(next@) =~= old_next.push(current[i as int]@));
                    assert(before.subrange(1, i + 1) =~= before.subrange(1, i as int).push(
                        before[i as int],
                    ));
                    i += 1;
                }
                assert(before.subrange(1, i as int) =~= before.drop_first());
                proof {
                    lemma_unseen_shrinks(table(redirects@).dom(), seen_names, head);
                    seen_names = seen_names.insert(head);
                }
                let name = current[0].clone();
                let ghost old_seen = seen@;
                seen.push(name);
                assert forall|k: Seq<char>| seen_names.contains(k) <==> exists|i: int|
                    0 <= i < seen.len() && (#[trigger] seen[i])@ == k by {
                    if k == head {
                        assert(seen[seen.len() - 1]@ == k);
                    } else if seen_names.contains(k) {
                        let i = choose|i: int| 0 <= i < old_seen.len() && (#[trigger] old_seen[i])@ == k;
                        assert(seen[i]@ == k);
                    }
                    if exists|i: int| 0 <= i < seen.len() && (#[trigger] seen[i])@ == k {
                        let i = choose|i: int| 0 <= i < seen.len() && (#[trigger] seen[i])@ == k;
                        if i < old_seen.len() {
                            assert(old_seen[i]@ == k);
                        }
                    }
                }
                current = next;
            },
            None => {
                return Some(current);
            },
        }
    }
}

/// The text of a value at which a path ends.
fn end_text(value: &Argument) -> (r: Option<String>)
    ensures
        match walk(value@, Seq::empty()) {
            Some(text) => r matches Some(found) && found@ == text,
            None => r is None,
        },
{
    match value {
        Argument::Null => Some(String::new()),
        Argument::Bool(b) => if *b {
            Some("true".to_string())
        } else {
            None
        },
        Argument::Number(n) => {
            let mut digits: Vec<char> = Vec::new();
            push_signed_decimal(&mut digits, *n);
            assert(digits@ == signed_decimal(*n as int));
            Some(text_of(digits.as_slice()))
        },
        Argument::String(text) => Some(text.clone()),
        Argument::Object(_) => Some(String::new()),
        Argument::Array(_) => Some(String::new()),
    }
}

/// Walks `path` down from `value`, and returns the text that it resolves to.
pub fn walk_value(value: &Argument, path: &Vec<String>) -> (r: Option<String>)
    ensures
        match walk(value@, texts(path@)) {
            Some(text) => r matches Some(found) && found@ == text,
            None => r is None,
        },
{
    let ghost whole = texts(path@);
    let mut at: &Argument = value;
    let mut i: usize = 0;
    assert(whole.subrange(0, whole.len() as int) == whole);
    while i < path.len()
        invariant
            i <= path.len(),
            whole == texts(path@),
            walk(value@, whole) == walk(at@, whole.subrange(i as int, whole.len() as int)),
        decreases path.len() - i,
    {
        let ghost rest = whole.subrange(i as int, whole.len() as int);
        assert(rest.len() > 0);
        assert(rest[0] == path[i as int]@);
        assert(rest.drop_first() == whole.subrange(i + 1, whole.len() as int));
        match at {
            Argument::Object(members) => match members.get(&path[i]) {
                Some(next) => {
                    at = next;
                },
                None => {
                    return None;
                },
            },
            Argument::Array(items) => {
                let segment = chars_of(path[i].as_str());
                assert(segment@ == rest[0]);
                assert(at@ == Value::Array(values_view(items@)));
                assert(values_view(items@).len() == items.len() <= usize::MAX);
                match parse_index(segment.as_slice()) {
                    Some(index) => {
                        if index < items.len() {
                            at = &items[index];
                        } else {
                            return None;
                        }
                    },
                    None => {
                        return None;
                    },
                }
            },
            _ => {
                return end_text(at);
            },
        }
        i += 1;
    }
    assert(whole.subrange(i as int, whole.len() as int) == Seq::<Seq<char>>::empty());
    end_text(at)
}

/// Resolves `path` in `context`, the aliases of `redirects` being in force.
pub fn resolve_path(context: &Argument, redirects: &Redirects, path: &Vec<String>) -> (r: Option<
    String,
>)
    ensures
        match resolve(context@, table(redirects@), texts(path@)) {
            Some(text) => r matches Some(found) && found@ == text,
            None => r is None,
        },
{
    match expand_path(redirects, path) {
        Some(expanded) => walk_value(context, &expanded),
        None => None,
    }
}

/// The value that `path` leads to from `value` on.
pub fn node<'a>(value: &'a Argument, path: &Vec<String>) -> (r: Option<&'a Argument>)
    ensures
        match node_at(value@, texts(path@)) {
            Some(found) => r matches Some(at) && at@ == found,
            None => r is None,
        },
{
    let ghost whole = texts(path@);
    let mut at: &Argument = value;
    let mut i: usize = 0;
    assert(whole.subrange(0, whole.len() as int) == whole);
    while i < path.len()
        invariant
            i <= path.len(),
            whole == texts(path@),
            node_at(value@, whole) == node_at(at@, whole.subrange(i as int, whole.len() as int)),
        decreases path.len() - i,
    {
        let ghost rest = whole.subrange(i as int, whole.len() as int);
        assert(rest.len() > 0);
        assert(rest[0] == path[i as int]@);
        assert(rest.drop_first() == whole.subrange(i + 1, whole.len() as int));
        match at {
            Argument::Object(members) => match members.get(&path[i]) {
                Some(next) => {
                    at = next;
                },
                None => {
                    return None;
                },
            },
            Argument::Array(items) => {
                let segment = chars_of(path[i].as_str());
                assert(segment@ == rest[0]);
                assert(at@ == Value::Array(values_view(items@)));
                assert(values_view(items@).len() == items.len() <= usize::MAX);
                match parse_index(segment.as_slice()) {
                    Some(index) => {
                        if index < items.len() {
                            at = &items[index];
                        } else {
                            return None;
                        }
                    },
                    None => {
                        return None;
                    },
                }
            },
            _ => {
                return None;
            },
        }
        i += 1;
    }
    assert(whole.subrange(i as int, whole.len() as int) == Seq::<Seq<char>>::empty());
    Some(at)
}

/// The path of the member `n` of `variable`.
pub fn member(variable: &Vec<String>, n: usize) -> (r: Vec<String>)
    ensures
        texts(r@) == member_path(texts(variable@), n as nat),
{
    let mut r = copy_path(variable);
    let mut digits: Vec<char> = Vec::new();
    push_decimal(&mut digits, n as u128);
    assert(digits@ == decimal(n as nat));
    let ghost before = texts(r@);
    r.push(text_of(digits.as_slice()));
    assert(texts(r@) =~= before.push(decimal(n as nat)));
    r
}

/// How often a loop over `variable` runs.
pub fn count_members(context: &Argument, redirects: &Redirects, variable: &Vec<String>) -> (r:
    usize)
    ensures
        r == member_count(context@, table(redirects@), texts(variable@)),
{
    let limit: usize = match expand_path(redirects, variable) {
        Some(expanded) => match node(context, &expanded) {
            Some(Argument::Object(members)) => members.len(),
            Some(Argument::Array(items)) => items.len(),
            _ => 0,
        },
        None => 0,
    };
    assert(limit == source_size(context@, table(redirects@), texts(variable@)));
    let mut n: usize = 0;
    while n < limit
        invariant
            n <= limit,
            member_count(context@, table(redirects@), texts(variable@)) == count_from(
                context@,
                table(redirects@),
                texts(variable@),
                n as nat,
                limit as nat,
            ),
        decreases limit - n,
    {
        let path = member(variable, n);
        if resolve_path(context, redirects, &path).is_none() {
            return n;
        }
        n += 1;
    }
    n
}

} // verus!
