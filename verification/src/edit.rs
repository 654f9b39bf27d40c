//! Changes to the context: the defaults that every context gets, and setting
//! and deleting the value at a path.
use vstd::prelude::*;
use crate::context::{Argument, Members, Value};
use crate::text::texts;

verus! {

/// The object under the key `meta`: the version of the template language,
/// and a flag under the version's name.
pub open spec fn meta_value() -> Value {
    Value::Object(
        Map::<Seq<char>, Value>::empty().insert("version"@, Value::Text("v1"@)).insert(
            "v1"@,
            Value::Text("true"@),
        ),
    )
}

/// A context with the defaults in it: `true` is the text `true`, `false` is
/// undefined, and `meta` is the object above. A context that is no object
/// counts as the empty object.
pub open spec fn with_defaults(context: Value) -> Value {
    let members = match context {
        Value::Object(members) => members,
        _ => Map::empty(),
    };
    Value::Object(
        members.insert("true"@, Value::Text("true"@)).remove("false"@).insert("meta"@, meta_value()),
    )
}

/// Puts the defaults into `context`.
pub fn defaults(context: Argument) -> (r: Argument)
    ensures
        r@ == with_defaults(context@),
{
    let mut members = match context {
        Argument::Object(members) => members,
        _ => Members::new(),
    };
    members.insert("true".to_string(), Argument::String("true".to_string()));
    members.remove(&"false".to_string());
    let mut meta = Members::new();
    meta.insert("version".to_string(), Argument::String("v1".to_string()));
    meta.insert("v1".to_string(), Argument::String("true".to_string()));
    members.insert("meta".to_string(), Argument::Object(meta));
    Argument::Object(members)
}

/// `value` with the text `text` at `path`. Where the path leads through
/// something that is no object, an empty object takes its place; what stood at
/// the end of the path is replaced.
pub open spec fn put(value: Value, path: Seq<Seq<char>>, text: Seq<char>) -> Value
    decreases path.len(),
{
    if path.len() == 0 {
        Value::Text(text)
    } else {
        let members = match value {
            Value::Object(members) => members,
            _ => Map::empty(),
        };
        let below = if members.dom().contains(path[0]) {
            members[path[0]]
        } else {
            Value::Null
        };
        Value::Object(members.insert(path[0], put(below, path.drop_first(), text)))
    }
}

/// Whether `value` is an object without members.
pub open spec fn is_empty_object(value: Value) -> bool {
    match value {
        Value::Object(members) => members.dom() == Set::<Seq<char>>::empty(),
        _ => false,
    }
}

/// `value` without what stands at `path`, and whether anything stood there.
/// The path leads through objects alone. An object that loses its last member
/// this way is taken out of the object that holds it.
pub open spec fn cut(value: Value, path: Seq<Seq<char>>) -> (Value, bool)
    decreases path.len(),
{
    match value {
        Value::Object(members) => if path.len() > 0 && members.dom().contains(path[0]) {
            if path.len() == 1 {
                (Value::Object(members.remove(path[0])), true)
            } else {
                let below = cut(members[path[0]], path.drop_first());
                if !below.1 {
                    (value, false)
                } else if is_empty_object(below.0) {
                    (Value::Object(members.remove(path[0])), true)
                } else {
                    (Value::Object(members.insert(path[0], below.0)), true)
                }
            }
        } else {
            (value, false)
        },
        _ => (value, false),
    }
}

/// Puts `text` at the end of `path`, of which `from` segments lie behind.
pub(crate) fn put_text(value: Argument, path: &Vec<String>, from: usize, text: String) -> (r: Argument)
    requires
        from <= path.len(),
    ensures
        r@ == put(value@, texts(path@).subrange(from as int, path.len() as int), text@),
    decreases path.len() - from,
{
    let ghost rest = texts(path@).subrange(from as int, path.len() as int);
    if from == path.len() {
        return Argument::String(text);
    }
    assert(rest[0] == path[from as int]@);
    assert(rest.drop_first() == texts(path@).subrange(from + 1, path.len() as int));
    let mut members = match value {
        Argument::Object(members) => members,
        _ => Members::new(),
    };
    let ghost before = members@;
    let below = match members.remove(&path[from]) {
        Some(below) => below,
        None => Argument::Null,
    };
    let put_below = put_text(below, path, from + 1, text);
    members.insert(path[from].clone(), put_below);
    assert(members@ =~= before.insert(rest[0], put_below@));
    Argument::Object(members)
}

/// Whether `value` is an object without members.
fn empty_object(value: &Argument) -> (r: bool)
    ensures
        r == is_empty_object(value@),
{
    match value {
        Argument::Object(members) => {
            let n = members.len();
            proof {
                if n == 0 {
                    assert forall|key: Seq<char>| !members@.dom().contains(key) by {
                        if members@.dom().contains(key) {
                            vstd::set::axiom_set_contains_len(members@.dom(), key);
                        }
                    }
                    assert(members@.dom() =~= Set::<Seq<char>>::empty());
                } else {
                    assert(Set::<Seq<char>>::empty().len() == 0);
                }
            }
            n == 0
        },
        _ => false,
    }
}

/// Takes out what stands at the end of `path`, of which `from` segments lie
/// behind, and says whether anything stood there.
pub(crate) fn cut_path(value: Argument, path: &Vec<String>, from: usize) -> (r: (Argument, bool))
    requires
        from <= path.len(),
    ensures
        (r.0@, r.1) == cut(value@, texts(path@).subrange(from as int, path.len() as int)),
    decreases path.len() - from,
{
    let ghost rest = texts(path@).subrange(from as int, path.len() as int);
    match value {
        Argument::Object(members) => {
            let mut members = members;
            let ghost before = members@;
            if from == path.len() {
                return (Argument::Object(members), false);
            }
            assert(rest[0] == path[from as int]@);
            assert(rest.drop_first() == texts(path@).subrange(from + 1, path.len() as int));
            match members.remove(&path[from]) {
                Some(below) => {
                    if from + 1 == path.len() {
                        (Argument::Object(members), true)
                    } else {
                        let ghost old_below = below@;
                        let (rest_below, removed) = cut_path(below, path, from + 1);
                        if !removed {
                            assert(rest_below@ == old_below);
                            members.insert(path[from].clone(), rest_below);
                            assert(members@ =~= before);
                            (Argument::Object(members), false)
                        } else if empty_object(&rest_below) {
                            (Argument::Object(members), true)
                        } else {
                            members.insert(path[from].clone(), rest_below);
                            assert(members@ =~= before.insert(rest[0], rest_below@));
                            (Argument::Object(members), true)
                        }
                    }
                },
                None => {
                    assert(members@ =~= before);
                    (Argument::Object(members), false)
                },
            }
        },
        other => (other, false),
    }
}

} // verus!
