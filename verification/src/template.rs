//! Rendering: a template is evaluated against a context, and gives its text
//! or the path that failed it.
use vstd::prelude::*;
use crate::context::{Argument, Value};
use crate::edit::{cut, cut_path, defaults, put, put_text, with_defaults};
use crate::lookup::{
    copy_path, count_members, member, member_count, member_path, resolve, resolve_path, table,
    Redirects,
};
use crate::parser::components::{elements_view, Element, TemplateElement};
use crate::parser::util::template_of;
use crate::text::{chars_of, join, push_all, push_joined, text_of, texts};

verus! {

/// `text` put before what `rest` rendered to; a failure stays what it is.
pub open spec fn after(text: Seq<char>, rest: Result<Seq<char>, Seq<Seq<char>>>) -> Result<
    Seq<char>,
    Seq<Seq<char>>,
> {
    match rest {
        Ok(tail) => Ok(text + tail),
        Err(path) => Err(path),
    }
}

/// What an element renders to: its text, or the path that a requirement failed on.
///
/// A literal renders to its text. A variable renders to what its path
/// resolves to, and to nothing when that is undefined. A requirement renders
/// to nothing when its path is defined, and fails with its path when it is
/// not.
/// A scope renders its elements in order, and fails as its first failing
/// element does. A loop renders its body once for each member of its path,
/// its name standing for the path of that member, and fails as the first
/// failing round does.
pub open spec fn rendered(
    element: Element,
    context: Value,
    redirects: Map<Seq<char>, Seq<Seq<char>>>,
) -> Result<Seq<char>, Seq<Seq<char>>>
    decreases element, 0nat, 0nat,
{
    match element {
        Element::Ignored => Ok(Seq::empty()),
        Element::Literal(text) => Ok(text),
        Element::Variable(path) => match resolve(context, redirects, path) {
            Some(text) => Ok(text),
            None => Ok(Seq::empty()),
        },
        Element::Requires(path) => match resolve(context, redirects, path) {
            Some(_) => Ok(Seq::empty()),
            None => Err(path),
        },
        Element::Scope(elements) => rendered_all(elements, 0, context, redirects),
        Element::Foreach(name, variable, body) => rendered_each(
            body,
            name,
            variable,
            0,
            member_count(context, redirects, variable),
            context,
            redirects,
        ),
    }
}

/// What the elements from number `from` on render to, one behind the other.
pub open spec fn rendered_all(
    elements: Seq<Element>,
    from: nat,
    context: Value,
    redirects: Map<Seq<char>, Seq<Seq<char>>>,
) -> Result<Seq<char>, Seq<Seq<char>>>
    decreases elements, 1nat, elements.len() - from,
{
    if from >= elements.len() {
        Ok(Seq::empty())
    } else {
        match rendered(elements[from as int], context, redirects) {
            Ok(text) => after(text, rendered_all(elements, from + 1, context, redirects)),
            Err(path) => Err(path),
        }
    }
}

/// What the rounds `n` to `count` of a loop render to: in round `k` the body
/// is rendered with `name` standing for the member `k` of `variable`.
pub open spec fn rendered_each(
    body: Seq<Element>,
    name: Seq<char>,
    variable: Seq<Seq<char>>,
    n: nat,
    count: nat,
    context: Value,
    redirects: Map<Seq<char>, Seq<Seq<char>>>,
) -> Result<Seq<char>, Seq<Seq<char>>>
    decreases body, 2nat, count - n,
{
    if n >= count {
        Ok(Seq::empty())
    } else {
        match rendered_all(body, 0, context, redirects.insert(name, member_path(variable, n))) {
            Ok(text) => after(
                text,
                rendered_each(body, name, variable, n + 1, count, context, redirects),
            ),
            Err(path) => Err(path),
        }
    }
}

/// The message of a failed requirement: it names the path, a `.` between its
/// segments.
pub open spec fn failure_message(path: Seq<Seq<char>>) -> Seq<char> {
    "The (requiring) variable "@ + join(path, seq!['.']) + " killed the scope."@
}

/// Writes the message of the requirement that `path` did not meet.
pub fn message(path: &Vec<String>) -> (r: String)
    ensures
        r@ == failure_message(texts(path@)),
{
    let mut text: Vec<char> = chars_of("The (requiring) variable ");
    let mut dot: Vec<char> = Vec::new();
    dot.push('.');
    assert(dot@ == seq!['.']);
    push_joined(&mut text, path, dot.as_slice());
    let tail = chars_of(" killed the scope.");
    push_all(&mut text, tail.as_slice());
    text_of(text.as_slice())
}

/// Renders `element` behind what `out` holds. A failure returns the path of
/// the requirement that failed; what `out` holds then is of no use.
pub fn render(
    element: &TemplateElement,
    context: &Argument,
    redirects: &mut Redirects,
    out: &mut Vec<char>,
) -> (r: Result<(), Vec<String>>)
    ensures
        final(redirects)@ == old(redirects)@,
        match rendered(element@, context@, table(old(redirects)@)) {
            Ok(text) => r is Ok && final(out)@ == old(out)@ + text,
            Err(path) => r matches Err(failed) && texts(failed@) == path,
        },
    decreases element, 0nat,
{
    match element {
        TemplateElement::Ignored => {
            assert(out@ + Seq::<char>::empty() == out@);
            Ok(())
        },
        TemplateElement::StringLiteral(text) => {
            let chars = chars_of(text.as_str());
            push_all(out, chars.as_slice());
            Ok(())
        },
        TemplateElement::Variable(path) => {
            match resolve_path(context, redirects, path) {
                Some(text) => {
                    let chars = chars_of(text.as_str());
                    push_all(out, chars.as_slice());
                },
                None => {
                    assert(out@ + Seq::<char>::empty() == out@);
                },
            }
            Ok(())
        },
        TemplateElement::Requires(path) => {
            match resolve_path(context, redirects, path) {
                Some(_) => {
                    assert(out@ + Seq::<char>::empty() == out@);
                    Ok(())
                },
                None => Err(copy_path(path)),
            }
        },
        TemplateElement::Scope(elements) => render_scope(elements, context, redirects, out),
        TemplateElement::Foreach(each) => {
            let count = count_members(context, redirects, &each.variable);
            let ghost body = elements_view(each.scope@);
            let ghost name = each.value@;
            let ghost variable = texts(each.variable@);
            let ghost aliases = table(redirects@);
            let ghost mut done: Seq<char> = Seq::empty();
            let mut n: usize = 0;
            assert(out@ + Seq::<char>::empty() == out@);
            while n < count
                invariant
                    n <= count,
                    redirects@ == old(redirects)@,
                    aliases == table(redirects@),
                    body == elements_view(each.scope@),
                    name == each.value@,
                    variable == texts(each.variable@),
                    out@ == old(out)@ + done,
                    element == TemplateElement::Foreach(*each),
                    count == member_count(context@, aliases, variable),
                    rendered_each(
                        body,
                        name,
                        variable,
                        0,
                        count as nat,
                        context@,
                        aliases,
                    ) == after(
                        done,
                        rendered_each(
                            body,
                            name,
                            variable,
                            n as nat,
                            count as nat,
                            context@,
                            aliases,
                        ),
                    ),
                decreases count - n,
            {
                let ghost layers = redirects@;
                let path = member(&each.variable, n);
                redirects.push(each.value.clone(), path);
                proof {
                    let pushed = layers.push((name, member_path(variable, n as nat)));
                    assert(pushed.drop_last() == layers);
                    assert(table(redirects@) == aliases.insert(
                        name,
                        member_path(variable, n as nat),
                    ));
                }
                let round = render_scope(&each.scope, context, redirects, out);
                redirects.pop();
                assert(redirects@ == layers);
                match round {
                    Ok(()) => {
                        proof {
                            let text = rendered_all(
                                body,
                                0,
                                context@,
                                aliases.insert(name, member_path(variable, n as nat)),
                            )->Ok_0;
                            let rest = rendered_each(
                                body,
                                name,
                                variable,
                                (n + 1) as nat,
                                count as nat,
                                context@,
                                aliases,
                            );
                            match rest {
                                Ok(tail) => {
                                    assert((done + text) + tail == done + (text + tail));
                                },
                                Err(_) => {},
                            }
                            assert(out@ == old(out)@ + (done + text));
                            done = done + text;
                        }
                    },
                    Err(failed) => {
                        return Err(failed);
                    },
                }
                n += 1;
            }
            assert(done + Seq::<char>::empty() == done);
            Ok(())
        },
    }
}

/// Renders the elements of a scope behind what `out` holds, in order, up to
/// the first that fails.
pub fn render_scope(
    elements: &Vec<TemplateElement>,
    context: &Argument,
    redirects: &mut Redirects,
    out: &mut Vec<char>,
) -> (r: Result<(), Vec<String>>)
    ensures
        final(redirects)@ == old(redirects)@,
        match rendered_all(elements_view(elements@), 0, context@, table(old(redirects)@)) {
            Ok(text) => r is Ok && final(out)@ == old(out)@ + text,
            Err(path) => r matches Err(failed) && texts(failed@) == path,
        },
    decreases elements, 1nat,
{
    let ghost all = elements_view(elements@);
    let ghost aliases = table(redirects@);
    let ghost mut done: Seq<char> = Seq::empty();
    let mut i: usize = 0;
    assert(out@ + Seq::<char>::empty() == out@);
    while i < elements.len()
        invariant
            i <= elements.len(),
            redirects@ == old(redirects)@,
            aliases == table(redirects@),
            all == elements_view(elements@),
            out@ == old(out)@ + done,
            rendered_all(all, 0, context@, aliases) == after(
                done,
                rendered_all(all, i as nat, context@, aliases),
            ),
        decreases elements.len() - i,
    {
        assert(all[i as int] == elements[i as int]@);
        match render(&elements[i], context, redirects, out) {
            Ok(()) => {
                proof {
                    let text = rendered(all[i as int], context@, aliases)->Ok_0;
                    let rest = rendered_all(all, (i + 1) as nat, context@, aliases);
                    match rest {
                        Ok(tail) => {
                            assert((done + text) + tail == done + (text + tail));
                        },
                        Err(_) => {},
                    }
                    assert(out@ == old(out)@ + (done + text));
                    done = done + text;
                }
            },
            Err(failed) => {
                return Err(failed);
            },
        }
        i += 1;
    }
    assert(done + Seq::<char>::empty() == done);
    Ok(())
}

/// A template and the context that it is rendered against.
#[derive(Debug)]
pub struct Template {
    element: TemplateElement,
    arguments: Argument,
}

impl Clone for Template {
    fn clone(&self) -> (r: Template)
        ensures
            r.element() == self.element(),
            r.context() == self.context(),
    {
        Template { element: self.element.clone(), arguments: self.arguments.clone() }
    }
}

impl Template {
    /// The template's tree.
    pub closed spec fn element(&self) -> Element {
        self.element@
    }

    /// The template's context.
    pub closed spec fn context(&self) -> Value {
        self.arguments@
    }

    /// A template of nothing, with the context null.
    pub fn new() -> (r: Template)
        ensures
            r.element() == Element::Ignored,
            r.context() == Value::Null,
    {
        Template { element: TemplateElement::Ignored, arguments: Argument::Null }
    }

    /// Parses a template. `None` where the source is no template: a string
    /// literal or a block comment is not closed, an escape is none, a
    /// parenthesis has no partner, or something is left that is no element.
    pub fn from(template: &str) -> (r: Option<Template>)
        ensures
            match template_of(template@) {
                Some(elements) => r matches Some(t) && t.element() == Element::Scope(elements)
                    && t.context() == Value::Null,
                None => r is None,
            },
    {
        match TemplateElement::from_str(template) {
            Some(element) => Some(Template { element, arguments: Argument::Null }),
            None => None,
        }
    }

    /// Replaces the tree.
    pub fn set_template(&mut self, value: TemplateElement)
        ensures
            final(self).element() == value@,
            final(self).context() == old(self).context(),
    {
        self.element = value;
    }

    /// Replaces the context.
    pub fn set_context(&mut self, value: Argument)
        ensures
            final(self).context() == value@,
            final(self).element() == old(self).element(),
    {
        self.arguments = value;
    }

    /// Sets or deletes the value at `key`, and says whether the context was
    /// changed.
    ///
    /// With a text, the text is put at the end of the path, in place of what
    /// stood there; where the path leads through something that is no object,
    /// an empty object takes its place. With `None`, what stands at the end
    /// of the path is deleted, and with it each object that is left empty. An
    /// empty path changes nothing.
    pub fn set_argument(&mut self, key: Vec<String>, value: Option<String>) -> (r: bool)
        ensures
            final(self).element() == old(self).element(),
            match value {
                Some(text) => if key.len() > 0 {
                    r && final(self).context() == put(old(self).context(), texts(key@), text@)
                } else {
                    !r && final(self).context() == old(self).context()
                },
                None => (final(self).context(), r) == cut(old(self).context(), texts(key@)),
            },
    {
        let mut context = Argument::Null;
        std::mem::swap(&mut self.arguments, &mut context);
        assert(texts(key@).subrange(0, key.len() as int) == texts(key@));
        match value {
            Some(text) => {
                if key.len() > 0 {
                    self.arguments = put_text(context, &key, 0, text);
                    true
                } else {
                    self.arguments = context;
                    false
                }
            },
            None => {
                let (rest, removed) = cut_path(context, &key, 0);
                self.arguments = rest;
                removed
            },
        }
    }

    /// Puts the defaults into the context: `true`, `false` and `meta`.
    pub fn override_arguments(&mut self)
        ensures
            final(self).element() == old(self).element(),
            final(self).context() == with_defaults(old(self).context()),
    {
        let mut context = Argument::Null;
        std::mem::swap(&mut self.arguments, &mut context);
        self.arguments = defaults(context);
    }

    /// The text that `key` resolves to in the context, with no alias in
    /// force. `None` is undefined.
    pub fn get_argument(&self, key: Vec<String>) -> (r: Option<String>)
        ensures
            match resolve(self.context(), Map::empty(), texts(key@)) {
                Some(text) => r matches Some(found) && found@ == text,
                None => r is None,
            },
    {
        let redirects = Redirects::new();
        resolve_path(&self.arguments, &redirects, &key)
    }

    /// Renders the template against its context. A requirement that fails gives its
    /// message, which names the path; nothing of the text is returned then.
    pub fn generate(&self) -> (r: Result<String, String>)
        ensures
            match rendered(self.element(), self.context(), Map::empty()) {
                Ok(text) => r matches Ok(found) && found@ == text,
                Err(path) => r matches Err(found) && found@ == failure_message(path),
            },
    {
        let mut redirects = Redirects::new();
        let mut out: Vec<char> = Vec::new();
        match render(&self.element, &self.arguments, &mut redirects, &mut out) {
            Ok(()) => Ok(text_of(out.as_slice())),
            Err(path) => Err(message(&path)),
        }
    }
}

} // verus!
