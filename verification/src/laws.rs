//! What holds of parsing, resolving and rendering, whatever the template and
//! the context.
use vstd::prelude::*;
use crate::context::Value;
use crate::edit::{cut, meta_value, put, with_defaults};
use crate::lookup::{
    count_from, expand, member_count, member_path, node_at, resolve, source_size, walk,
};
use crate::text::{decimal, index_of, lemma_decimal_reads_back};
use crate::parser::components::Element;
use crate::parser::util::{
    element_at, foreach_scope_at, identifier_at, ignored_end, ignored_piece_at, lemma_block_close,
    lemma_run_end, pair_at, run_end, scope_at, string_literal_at, surrounded_scope_at,
    template_of, variable_at, Class, MAX_NESTING,
};
use crate::template::{rendered, rendered_all};

verus! {

/// The texts of the literals from number `from` on, one behind the other.
pub open spec fn literal_text(elements: Seq<Element>, from: nat) -> Seq<char>
    decreases elements.len() - from,
{
    if from >= elements.len() {
        Seq::empty()
    } else {
        elements[from as int]->Literal_0 + literal_text(elements, from + 1)
    }
}

/// Whether every element is a string literal.
pub open spec fn all_literals(elements: Seq<Element>) -> bool {
    forall|i: int| 0 <= i < elements.len() ==> (#[trigger] elements[i]) is Literal
}

/// A scope of string literals renders to their texts, one behind the other,
/// whatever the context and the aliases are.
pub proof fn lemma_literals_render(
    elements: Seq<Element>,
    context: Value,
    redirects: Map<Seq<char>, Seq<Seq<char>>>,
)
    requires
        all_literals(elements),
    ensures
        rendered(Element::Scope(elements), context, redirects) == Ok::<
            Seq<char>,
            Seq<Seq<char>>,
        >(literal_text(elements, 0)),
{
    lemma_literals_render_from(elements, 0, context, redirects);
}

proof fn lemma_literals_render_from(
    elements: Seq<Element>,
    from: nat,
    context: Value,
    redirects: Map<Seq<char>, Seq<Seq<char>>>,
)
    requires
        all_literals(elements),
    ensures
        rendered_all(elements, from, context, redirects) == Ok::<Seq<char>, Seq<Seq<char>>>(
            literal_text(elements, from),
        ),
    decreases elements.len() - from,
{
    if from < elements.len() {
        let element = elements[from as int];
        assert(element is Literal);
        assert(element == Element::Literal(element->Literal_0));
        assert(rendered(element, context, redirects) == Ok::<Seq<char>, Seq<Seq<char>>>(
            element->Literal_0,
        ));
        lemma_literals_render_from(elements, from + 1, context, redirects);
    }
}

/// A scope of string literals renders to the same text in any two contexts.
pub proof fn lemma_literals_ignore_context(
    elements: Seq<Element>,
    first: Value,
    second: Value,
    redirects: Map<Seq<char>, Seq<Seq<char>>>,
)
    requires
        all_literals(elements),
    ensures
        rendered(Element::Scope(elements), first, redirects) == rendered(
            Element::Scope(elements),
            second,
            redirects,
        ),
{
    lemma_literals_render(elements, first, redirects);
    lemma_literals_render(elements, second, redirects);
}

/// The empty source is the template of no elements, and that template renders
/// to the empty text.
pub proof fn lemma_empty_source(context: Value, redirects: Map<Seq<char>, Seq<Seq<char>>>)
    ensures
        template_of(Seq::empty()) == Some(Seq::<Element>::empty()),
        rendered(Element::Scope(Seq::empty()), context, redirects) == Ok::<
            Seq<char>,
            Seq<Seq<char>>,
        >(Seq::empty()),
{
    let s = Seq::<char>::empty();
    assert(ignored_piece_at(s, 0) is None);
    assert(ignored_end(s, 0) == 0);
    assert(surrounded_scope_at(s, 0, MAX_NESTING as nat) is None);
    assert(foreach_scope_at(s, 0, MAX_NESTING as nat) is None);
    assert(string_literal_at(s, 0) is None);
    assert(identifier_at(s, 0) is None);
    assert(variable_at(s, 0) is None);
    assert(element_at(s, 0, MAX_NESTING as nat) is None);
    assert(scope_at(s, 0, MAX_NESTING as nat) == (Seq::<Element>::empty(), 0int));
}

/// A variable never fails: it renders to what its path resolves to, or to
/// nothing.
pub proof fn lemma_variable_never_fails(
    path: Seq<Seq<char>>,
    context: Value,
    redirects: Map<Seq<char>, Seq<Seq<char>>>,
)
    ensures
        rendered(Element::Variable(path), context, redirects) is Ok,
        resolve(context, redirects, path) is None ==> rendered(
            Element::Variable(path),
            context,
            redirects,
        ) == Ok::<Seq<char>, Seq<Seq<char>>>(Seq::empty()),
{
}

/// A scope with a requirement on an undefined path, before which nothing
/// fails, fails with that path: nothing of the scope's text is returned.
pub proof fn lemma_failed_requirement(
    elements: Seq<Element>,
    k: int,
    path: Seq<Seq<char>>,
    context: Value,
    redirects: Map<Seq<char>, Seq<Seq<char>>>,
)
    requires
        0 <= k < elements.len(),
        elements[k] == Element::Requires(path),
        resolve(context, redirects, path) is None,
        forall|j: int| 0 <= j < k ==> rendered(#[trigger] elements[j], context, redirects) is Ok,
    ensures
        rendered(Element::Scope(elements), context, redirects) == Err::<
            Seq<char>,
            Seq<Seq<char>>,
        >(path),
{
    lemma_failed_requirement_from(elements, 0, k, path, context, redirects);
}

proof fn lemma_failed_requirement_from(
    elements: Seq<Element>,
    from: nat,
    k: int,
    path: Seq<Seq<char>>,
    context: Value,
    redirects: Map<Seq<char>, Seq<Seq<char>>>,
)
    requires
        from <= k < elements.len(),
        elements[k] == Element::Requires(path),
        resolve(context, redirects, path) is None,
        forall|j: int| 0 <= j < k ==> rendered(#[trigger] elements[j], context, redirects) is Ok,
    ensures
        rendered_all(elements, from, context, redirects) == Err::<Seq<char>, Seq<Seq<char>>>(
            path,
        ),
    decreases k - from,
{
    if from < k {
        assert(rendered(elements[from as int], context, redirects) is Ok);
        lemma_failed_requirement_from(elements, from + 1, k, path, context, redirects);
    }
}

/// The alias that stands `steps` replacements behind `name`: each alias is
/// followed to the first segment of its path.
pub open spec fn follow(
    redirects: Map<Seq<char>, Seq<Seq<char>>>,
    name: Seq<char>,
    steps: nat,
) -> Option<Seq<char>>
    decreases steps,
{
    if steps == 0 {
        Some(name)
    } else if redirects.dom().contains(name) && redirects[name].len() > 0 {
        follow(redirects, redirects[name][0], (steps - 1) as nat)
    } else {
        None
    }
}

/// Whether `name` leads back to itself, at once or through other aliases.
pub open spec fn leads_back(redirects: Map<Seq<char>, Seq<Seq<char>>>, name: Seq<char>) -> bool {
    exists|steps: nat| steps > 0 && follow(redirects, name, steps) == Some(name)
}

/// A path whose first segment leads to an alias that was replaced already is
/// undefined.
pub proof fn lemma_seen_again(
    redirects: Map<Seq<char>, Seq<Seq<char>>>,
    path: Seq<Seq<char>>,
    seen: Set<Seq<char>>,
    steps: nat,
)
    requires
        redirects.dom().finite(),
        path.len() > 0,
        follow(redirects, path[0], steps) matches Some(name) && seen.contains(name),
    ensures
        expand(redirects, path, seen) is None,
    decreases steps,
{
    if steps > 0 && !seen.contains(path[0]) {
        let next = redirects[path[0]] + path.drop_first();
        assert(next[0] == redirects[path[0]][0]);
        lemma_seen_again(redirects, next, seen.insert(path[0]), (steps - 1) as nat);
    }
}

/// A path through an alias that leads back to itself is undefined, in any
/// context.
pub proof fn lemma_cycle_is_undefined(
    context: Value,
    redirects: Map<Seq<char>, Seq<Seq<char>>>,
    path: Seq<Seq<char>>,
)
    requires
        redirects.dom().finite(),
        path.len() > 0,
        leads_back(redirects, path[0]),
    ensures
        resolve(context, redirects, path) is None,
{
    let steps = choose|steps: nat| steps > 0 && follow(redirects, path[0], steps) == Some(path[0]);
    let seen = Set::<Seq<char>>::empty().insert(path[0]);
    let next = redirects[path[0]] + path.drop_first();
    assert(next[0] == redirects[path[0]][0]);
    lemma_seen_again(redirects, next, seen, (steps - 1) as nat);
}

/// The number of aliases that are replaced when `path` is expanded.
pub open spec fn replacements(
    redirects: Map<Seq<char>, Seq<Seq<char>>>,
    path: Seq<Seq<char>>,
    seen: Set<Seq<char>>,
) -> nat
    decreases redirects.dom().difference(seen).len(),
    when redirects.dom().finite()
    via replacements_decreases
{
    if path.len() == 0 || seen.contains(path[0]) || !redirects.dom().contains(path[0]) {
        0
    } else {
        1 + replacements(redirects, redirects[path[0]] + path.drop_first(), seen.insert(path[0]))
    }
}

#[via_fn]
proof fn replacements_decreases(
    redirects: Map<Seq<char>, Seq<Seq<char>>>,
    path: Seq<Seq<char>>,
    seen: Set<Seq<char>>,
) {
    if !(path.len() == 0 || seen.contains(path[0]) || !redirects.dom().contains(path[0])) {
        crate::lookup::lemma_unseen_shrinks(redirects.dom(), seen, path[0]);
    }
}

/// Expanding a path replaces no more aliases than the table holds that were
/// not replaced before: it ends, with a path or undefined.
pub proof fn lemma_replacements_bounded(
    redirects: Map<Seq<char>, Seq<Seq<char>>>,
    path: Seq<Seq<char>>,
    seen: Set<Seq<char>>,
)
    requires
        redirects.dom().finite(),
    ensures
        replacements(redirects, path, seen) <= redirects.dom().difference(seen).len(),
        seen == Set::<Seq<char>>::empty() ==> replacements(redirects, path, seen)
            <= redirects.dom().len(),
    decreases redirects.dom().difference(seen).len(),
{
    if !(path.len() == 0 || seen.contains(path[0]) || !redirects.dom().contains(path[0])) {
        crate::lookup::lemma_unseen_shrinks(redirects.dom(), seen, path[0]);
        lemma_replacements_bounded(
            redirects,
            redirects[path[0]] + path.drop_first(),
            seen.insert(path[0]),
        );
    }
    if seen == Set::<Seq<char>>::empty() {
        assert(redirects.dom().difference(seen) =~= redirects.dom());
    }
}

/// Putting the defaults in twice is putting them in once; `true` and `meta`
/// are then what the defaults say, and `false` is no key.
pub proof fn lemma_defaults_once(context: Value)
    ensures
        with_defaults(with_defaults(context)) == with_defaults(context),
        with_defaults(context) matches Value::Object(members) && members.dom().contains("true"@)
            && members["true"@] == Value::Text("true"@) && members.dom().contains("meta"@)
            && members["meta"@] == meta_value() && !members.dom().contains("false"@),
{
    reveal_strlit("true");
    reveal_strlit("false");
    reveal_strlit("meta");
    assert("true"@.len() == 4 && "false"@.len() == 5 && "meta"@.len() == 4);
    assert("true"@[0] == 't' && "meta"@[0] == 'm');
    assert("true"@ != "false"@);
    assert("meta"@ != "false"@);
    assert("true"@ != "meta"@);
    let once = with_defaults(context)->Object_0;
    let twice = with_defaults(with_defaults(context))->Object_0;
    assert(twice =~= once);
}

/// The defaults take away no key but `false`.
pub proof fn lemma_defaults_keep(context: Value, key: Seq<char>)
    requires
        context matches Value::Object(members) && members.dom().contains(key),
        key != "false"@,
    ensures
        with_defaults(context) matches Value::Object(members) && members.dom().contains(key),
        key != "true"@ && key != "meta"@ ==> with_defaults(context)->Object_0[key]
            == context->Object_0[key],
{
}

/// A loop runs for the members 0, 1, 2, ... of its path as long as they are
/// defined: each one it runs for is defined, and the first it does not run for
/// is undefined or is none of the members.
pub proof fn lemma_member_count(
    context: Value,
    redirects: Map<Seq<char>, Seq<Seq<char>>>,
    variable: Seq<Seq<char>>,
)
    ensures
        member_count(context, redirects, variable) <= source_size(context, redirects, variable),
        forall|k: nat|
            k < member_count(context, redirects, variable) ==> resolve(
                context,
                redirects,
                #[trigger] member_path(variable, k),
            ) is Some,
        member_count(context, redirects, variable) < source_size(context, redirects, variable)
            ==> resolve(
            context,
            redirects,
            member_path(variable, member_count(context, redirects, variable)),
        ) is None,
{
    lemma_count_from(context, redirects, variable, 0, source_size(context, redirects, variable));
}

proof fn lemma_count_from(
    context: Value,
    redirects: Map<Seq<char>, Seq<Seq<char>>>,
    variable: Seq<Seq<char>>,
    n: nat,
    limit: nat,
)
    requires
        n <= limit,
    ensures
        n <= count_from(context, redirects, variable, n, limit) <= limit,
        forall|k: nat|
            n <= k < count_from(context, redirects, variable, n, limit) ==> resolve(
                context,
                redirects,
                #[trigger] member_path(variable, k),
            ) is Some,
        count_from(context, redirects, variable, n, limit) < limit ==> resolve(
            context,
            redirects,
            member_path(variable, count_from(context, redirects, variable, n, limit)),
        ) is None,
    decreases limit - n,
{
    if n < limit && resolve(context, redirects, member_path(variable, n)) is Some {
        lemma_count_from(context, redirects, variable, n + 1, limit);
    }
}

/// What was put at a path is what the path resolves to.
pub proof fn lemma_put_then_walk(value: Value, path: Seq<Seq<char>>, text: Seq<char>)
    ensures
        walk(put(value, path, text), path) == Some(text),
        path.len() > 0 ==> resolve(put(value, path, text), Map::empty(), path) == Some(text),
    decreases path.len(),
{
    if path.len() > 0 {
        let members = match value {
            Value::Object(members) => members,
            _ => Map::empty(),
        };
        let below = if members.dom().contains(path[0]) {
            members[path[0]]
        } else {
            Value::Null
        };
        lemma_put_then_walk(below, path.drop_first(), text);
        assert(Map::<Seq<char>, Seq<Seq<char>>>::empty().dom().finite());
        assert(expand(Map::empty(), path, Set::empty()) == Some(path));
    }
}

/// What was cut from a path is no longer there; and where nothing was cut,
/// nothing changed.
pub proof fn lemma_cut_then_gone(value: Value, path: Seq<Seq<char>>)
    ensures
        cut(value, path).1 ==> node_at(cut(value, path).0, path) is None,
        cut(value, path).1 ==> node_at(value, path) is Some,
        !cut(value, path).1 ==> cut(value, path).0 == value,
    decreases path.len(),
{
    if cut(value, path).1 {
        let members = value->Object_0;
        if path.len() > 1 {
            lemma_cut_then_gone(members[path[0]], path.drop_first());
        } else {
            assert(path.drop_first().len() == 0);
            assert(node_at(members[path[0]], path.drop_first()) == Some(members[path[0]]));
        }
    }
}

/// Segments behind a path are not touched when its aliases are replaced.
pub proof fn lemma_expand_appends(
    redirects: Map<Seq<char>, Seq<Seq<char>>>,
    path: Seq<Seq<char>>,
    tail: Seq<Seq<char>>,
    seen: Set<Seq<char>>,
)
    requires
        redirects.dom().finite(),
        expand(redirects, path, seen) is Some,
    ensures
        expand(redirects, path + tail, seen) == Some(expand(redirects, path, seen)->0 + tail),
    decreases redirects.dom().difference(seen).len(),
{
    let whole = path + tail;
    assert(path.len() > 0);
    assert(whole[0] == path[0]);
    if redirects.dom().contains(path[0]) {
        crate::lookup::lemma_unseen_shrinks(redirects.dom(), seen, path[0]);
        let next = redirects[path[0]] + path.drop_first();
        assert(redirects[path[0]] + whole.drop_first() =~= next + tail);
        lemma_expand_appends(redirects, next, tail, seen.insert(path[0]));
    }
}

/// A path that leads to a value and goes on from there resolves to what the
/// rest of it resolves to from that value.
pub proof fn lemma_walk_from_node(value: Value, path: Seq<Seq<char>>, tail: Seq<Seq<char>>)
    requires
        node_at(value, path) is Some,
    ensures
        walk(value, path + tail) == walk(node_at(value, path)->0, tail),
    decreases path.len(),
{
    let whole = path + tail;
    if path.len() == 0 {
        assert(whole =~= tail);
    } else {
        assert(whole[0] == path[0]);
        assert(whole.drop_first() =~= path.drop_first() + tail);
        match value {
            Value::Object(members) => {
                lemma_walk_from_node(members[path[0]], path.drop_first(), tail);
            },
            Value::Array(items) => {
                lemma_walk_from_node(
                    items[index_of(path[0])->0 as int],
                    path.drop_first(),
                    tail,
                );
            },
            _ => {},
        }
    }
}

/// A finite set of keys that holds the numbers below `n` holds `n` keys at
/// least; and where it holds no more, every key is one of those numbers.
pub proof fn lemma_numbered_keys(keys: Set<Seq<char>>, n: nat)
    requires
        keys.finite(),
        forall|k: nat| k < n ==> keys.contains(#[trigger] decimal(k)),
    ensures
        n <= keys.len(),
        n == keys.len() ==> forall|key: Seq<char>|
            keys.contains(key) ==> exists|k: nat| k < n && key == #[trigger] decimal(k),
    decreases n,
{
    if n == 0 {
        if keys.len() == 0 {
            assert forall|key: Seq<char>| keys.contains(key) implies exists|k: nat|
                k < n && key == #[trigger] decimal(k) by {
                vstd::set::axiom_set_contains_len(keys, key);
            }
        }
    } else {
        let last = decimal((n - 1) as nat);
        let rest = keys.remove(last);
        assert forall|k: nat| k < n - 1 implies rest.contains(#[trigger] decimal(k)) by {
            lemma_decimal_reads_back(k);
            lemma_decimal_reads_back((n - 1) as nat);
        }
        lemma_numbered_keys(rest, (n - 1) as nat);
        if n == keys.len() {
            assert forall|key: Seq<char>| keys.contains(key) implies exists|k: nat|
                k < n && key == #[trigger] decimal(k) by {
                if key == last {
                    assert(key == decimal((n - 1) as nat));
                } else {
                    assert(rest.contains(key));
                    let k = choose|k: nat| k < n - 1 && key == #[trigger] decimal(k);
                    assert(k < n && key == decimal(k));
                }
            }
        }
    }
}

/// A loop over an object or an array ends at the first member that is
/// undefined: the member behind the last round never resolves.
pub proof fn lemma_loop_ends_at_a_gap(
    context: Value,
    redirects: Map<Seq<char>, Seq<Seq<char>>>,
    variable: Seq<Seq<char>>,
)
    requires
        redirects.dom().finite(),
        expand(redirects, variable, Set::empty()) matches Some(expanded) && (node_at(
            context,
            expanded,
        ) matches Some(source) && match source {
            Value::Object(members) => members.dom().finite(),
            Value::Array(_) => true,
            _ => false,
        }),
    ensures
        resolve(
            context,
            redirects,
            member_path(variable, member_count(context, redirects, variable)),
        ) is None,
{
    let count = member_count(context, redirects, variable);
    let expanded = expand(redirects, variable, Set::empty())->0;
    let source = node_at(context, expanded)->0;
    lemma_member_count(context, redirects, variable);
    assert forall|k: nat|
        resolve(context, redirects, #[trigger] member_path(variable, k)) == walk(
            source,
            seq![decimal(k)],
        ) by {
        let tail = seq![decimal(k)];
        assert(member_path(variable, k) =~= variable + tail);
        lemma_expand_appends(redirects, variable, tail, Set::empty());
        lemma_walk_from_node(context, expanded, tail);
    }
    if count == source_size(context, redirects, variable) {
        let tail = seq![decimal(count)];
        assert(tail[0] == decimal(count));
        assert(tail.drop_first().len() == 0);
        lemma_decimal_reads_back(count);
        match source {
            Value::Array(items) => {
                assert(walk(source, tail) is None);
            },
            Value::Object(members) => {
                assert forall|k: nat| k < count implies members.dom().contains(
                    #[trigger] decimal(k),
                ) by {
                    let path = seq![decimal(k)];
                    assert(path[0] == decimal(k));
                    assert(resolve(context, redirects, member_path(variable, k)) is Some);
                    assert(walk(source, path) is Some);
                }
                lemma_numbered_keys(members.dom(), count);
                if members.dom().contains(decimal(count)) {
                    let k = choose|k: nat| k < count && decimal(count) == #[trigger] decimal(k);
                    lemma_decimal_reads_back(k);
                    assert(false);
                }
                assert(walk(source, tail) is None);
            },
            _ => {},
        }
        assert(resolve(context, redirects, member_path(variable, count)) == walk(source, tail));
    }
}

/// An ignored piece is never empty and ends inside the source.
pub proof fn lemma_ignored_piece(s: Seq<char>, i: int)
    requires
        0 <= i <= s.len(),
    ensures
        ignored_piece_at(s, i) matches Some(j) ==> i < j <= s.len(),
{
    lemma_run_end(s, i, Class::Space);
    if pair_at(s, i, '/', '/') {
        lemma_run_end(s, i + 2, Class::LineText);
        lemma_run_end(s, run_end(s, i + 2, Class::LineText), Class::LineBreak);
    }
    if pair_at(s, i, '/', '*') {
        lemma_block_close(s, i + 2);
    }
}

/// Ignored text ends inside the source, and no ignored piece starts where it
/// ends.
pub proof fn lemma_ignored_end(s: Seq<char>, i: int)
    requires
        0 <= i <= s.len(),
    ensures
        i <= ignored_end(s, i) <= s.len(),
        ignored_piece_at(s, ignored_end(s, i)) is None,
    decreases s.len() - i,
{
    lemma_ignored_piece(s, i);
    match ignored_piece_at(s, i) {
        Some(j) => {
            lemma_ignored_end(s, j);
        },
        None => {},
    }
}

/// Whether an element is what a parser makes: it holds no `Ignored`, and its
/// scopes and loops nest `depth` deep at most.
pub open spec fn tidy(element: Element, depth: nat) -> bool
    decreases element,
{
    match element {
        Element::Ignored => false,
        Element::Scope(elements) => depth > 0 && forall|i: int|
            0 <= i < elements.len() ==> tidy(#[trigger] elements[i], (depth - 1) as nat),
        Element::Foreach(_, _, body) => depth > 0 && forall|i: int|
            0 <= i < body.len() ==> tidy(#[trigger] body[i], (depth - 1) as nat),
        _ => true,
    }
}

/// Whether each of `elements` is tidy.
pub open spec fn all_tidy(elements: Seq<Element>, depth: nat) -> bool {
    forall|i: int| 0 <= i < elements.len() ==> tidy(#[trigger] elements[i], depth)
}

/// The elements of a scope in parentheses are tidy, one level below the
/// scope.
pub proof fn lemma_surrounded_scope_is_tidy(s: Seq<char>, i: int, depth: nat)
    ensures
        surrounded_scope_at(s, i, depth) matches Some((elements, _)) ==> depth > 0 && all_tidy(
            elements,
            (depth - 1) as nat,
        ),
    decreases s.len() - i, 0nat,
{
    if depth > 0 && 0 <= i < s.len() && s[i] == '(' {
        lemma_scope_is_tidy(s, i + 1, (depth - 1) as nat);
    }
}

/// A loop that is read is tidy.
pub proof fn lemma_foreach_scope_is_tidy(s: Seq<char>, i: int, depth: nat)
    ensures
        foreach_scope_at(s, i, depth) matches Some((element, _)) ==> tidy(element, depth),
    decreases s.len() - i, 1nat,
{
    if foreach_scope_at(s, i, depth) is Some {
        let name = ignored_end(s, i + 7);
        let name_end = identifier_at(s, name)->0;
        let colon = ignored_end(s, name_end);
        let path = variable_at(s, ignored_end(s, colon + 1))->0;
        let path_end = path.1;
        let body = ignored_end(s, path_end);
        lemma_surrounded_scope_is_tidy(s, body, depth);
    }
}

/// An element that is read is ignored text or tidy.
pub proof fn lemma_element_is_tidy(s: Seq<char>, i: int, depth: nat)
    ensures
        element_at(s, i, depth) matches Some((element, _)) ==> element is Ignored || tidy(
            element,
            depth,
        ),
    decreases s.len() - i, 2nat,
{
    lemma_surrounded_scope_is_tidy(s, i, depth);
    lemma_foreach_scope_is_tidy(s, i, depth);
}

/// The elements of a scope are tidy: ignored text is left out of it, and
/// nothing in it nests deeper than the nesting that was left.
pub proof fn lemma_scope_is_tidy(s: Seq<char>, i: int, depth: nat)
    ensures
        all_tidy(scope_at(s, i, depth).0, depth),
    decreases s.len() - i, 3nat,
{
    lemma_element_is_tidy(s, i, depth);
    match element_at(s, i, depth) {
        Some((element, next)) => {
            if i < next <= s.len() {
                lemma_scope_is_tidy(s, next, depth);
                let rest = scope_at(s, next, depth).0;
                let all = scope_at(s, i, depth).0;
                assert forall|k: int| 0 <= k < all.len() implies tidy(#[trigger] all[k], depth) by {
                    if !(element is Ignored) {
                        if k > 0 {
                            assert(all[k] == rest[k - 1]);
                        }
                    }
                }
            }
        },
        None => {},
    }
}

/// A template that is parsed holds no `Ignored`, and nests no deeper than
/// the grammar lets scopes nest.
pub proof fn lemma_template_is_tidy(s: Seq<char>)
    ensures
        template_of(s) matches Some(elements) ==> tidy(
            Element::Scope(elements),
            (MAX_NESTING + 1) as nat,
        ),
{
    lemma_scope_is_tidy(s, 0, MAX_NESTING as nat);
}

} // verus!
