//! The elements that a parsed template is made of.
use vstd::prelude::*;
use crate::parser::util::{scope, scope_at, template_of, MAX_NESTING};
use crate::text::{chars_of, texts};

verus! {

/// A loop over the members of a context value: `value` is the name that the
/// body uses for the current member of `variable`.
#[derive(Debug, PartialEq)]
pub struct ForeachScope {
    pub value: String,
    pub variable: Vec<String>,
    pub scope: Vec<TemplateElement>,
}

/// One node of a parsed template.
#[derive(Debug, PartialEq)]
pub enum TemplateElement {
    /// Whitespace or a comment. It renders to nothing, and a parsed tree
    /// holds none; it is the element of a template that was never given one.
    Ignored,
    /// A dotted path into the context. It renders to the text that the path
    /// resolves to, and to nothing when the path is undefined.
    Variable(Vec<String>),
    /// A requirement: it renders to nothing, and fails the scope around it
    /// when the path is undefined. The grammar has no word for it: it stands
    /// in trees that are built by hand.
    Requires(Vec<String>),
    /// Verbatim text.
    StringLiteral(String),
    /// A sequence of elements that renders as a whole or not at all.
    Scope(Vec<TemplateElement>),
    /// A scope rendered once for each member of a context value.
    Foreach(ForeachScope),
}

/// What a [`TemplateElement`] stands for: the same tree over plain sequences.
pub enum Element {
    Ignored,
    Variable(Seq<Seq<char>>),
    Requires(Seq<Seq<char>>),
    Literal(Seq<char>),
    Scope(Seq<Element>),
    Foreach(Seq<char>, Seq<Seq<char>>, Seq<Element>),
}

/// The elements of a scope, each as what it stands for.
pub open spec fn elements_view(elements: Seq<TemplateElement>) -> Seq<Element>
    decreases elements,
{
    Seq::new(
        elements.len(),
        |i: int|
            if 0 <= i < elements.len() {
                elements[i]@
            } else {
                Element::Ignored
            },
    )
}

impl View for TemplateElement {
    type V = Element;

    open spec fn view(&self) -> Element
        decreases self,
    {
        match self {
            TemplateElement::Ignored => Element::Ignored,
            TemplateElement::Variable(path) => Element::Variable(texts(path@)),
            TemplateElement::Requires(path) => Element::Requires(texts(path@)),
            TemplateElement::StringLiteral(text) => Element::Literal(text@),
            TemplateElement::Scope(elements) => Element::Scope(elements_view(elements@)),
            TemplateElement::Foreach(each) => Element::Foreach(
                each.value@,
                texts(each.variable@),
                elements_view(each.scope@),
            ),
        }
    }
}

impl TemplateElement {
    /// Parses a whole template into the scope of its elements. Where the
    /// source is no template, the error is the position at which no element
    /// was found.
    pub fn parse(input: &str) -> (r: Result<TemplateElement, usize>)
        ensures
            match template_of(input@) {
                Some(elements) => r matches Ok(found) && found@ == Element::Scope(elements),
                None => r matches Err(position) && position == scope_at(
                    input@,
                    0,
                    MAX_NESTING as nat,
                ).1,
            },
    {
        let source = chars_of(input);
        let (elements, end) = scope(source.as_slice(), 0, MAX_NESTING);
        if end == source.len() {
            Ok(TemplateElement::Scope(elements))
        } else {
            Err(end)
        }
    }

    /// Parses a whole template into the scope of its elements. `None` where
    /// the source is no template.
    pub fn from_str(input: &str) -> (r: Option<TemplateElement>)
        ensures
            match template_of(input@) {
                Some(elements) => r matches Some(found) && found@ == Element::Scope(elements),
                None => r is None,
            },
    {
        match TemplateElement::parse(input) {
            Ok(found) => Some(found),
            Err(_) => None,
        }
    }
}

/// A copy of `elements`.
pub fn copy_elements(elements: &Vec<TemplateElement>) -> (r: Vec<TemplateElement>)
    ensures
        elements_view(r@) == elements_view(elements@),
    decreases elements,
{
    let mut r: Vec<TemplateElement> = Vec::new();
    let mut i: usize = 0;
    while i < elements.len()
        invariant
            i <= elements.len(),
            r.len() == i,
            forall|k: int| 0 <= k < i ==> r[k]@ == elements[k]@,
        decreases elements.len() - i,
    {
        assert(decreases_to!(elements@ => elements@[i as int]));
        r.push(elements[i].clone());
        i += 1;
    }
    assert(elements_view(r@) =~= elements_view(elements@));
    r
}

/// A copy of the strings of `path`.
fn copy_texts(path: &Vec<String>) -> (r: Vec<String>)
    ensures
        texts(r@) == texts(path@),
{
    let mut r: Vec<String> = Vec::new();
    let mut i: usize = 0;
    while i < path.len()
        invariant
            i <= path.len(),
            r.len() == i,
            forall|k: int| 0 <= k < i ==> r[k]@ == path[k]@,
        decreases path.len() - i,
    {
        r.push(path[i].clone());
        i += 1;
    }
    assert(texts(r@) =~= texts(path@));
    r
}

impl Clone for ForeachScope {
    fn clone(&self) -> (r: ForeachScope)
        ensures
            r.value@ == self.value@,
            texts(r.variable@) == texts(self.variable@),
            elements_view(r.scope@) == elements_view(self.scope@),
        decreases self,
    {
        ForeachScope {
            value: self.value.clone(),
            variable: copy_texts(&self.variable),
            scope: copy_elements(&self.scope),
        }
    }
}

impl Clone for TemplateElement {
    fn clone(&self) -> (r: TemplateElement)
        ensures
            r@ == self@,
        decreases self,
    {
        match self {
            TemplateElement::Ignored => TemplateElement::Ignored,
            TemplateElement::Variable(path) => TemplateElement::Variable(copy_texts(path)),
            TemplateElement::Requires(path) => TemplateElement::Requires(copy_texts(path)),
            TemplateElement::StringLiteral(text) => TemplateElement::StringLiteral(text.clone()),
            TemplateElement::Scope(elements) => TemplateElement::Scope(copy_elements(elements)),
            TemplateElement::Foreach(each) => TemplateElement::Foreach(each.clone()),
        }
    }
}

} // verus!
