//! The parts of a grammar as they are written in an attribute.
use vstd::prelude::*;
use crate::grammar::rule::{is_type_name, last_optional, last_repeated, names_type, Pattern};
use crate::grammar::token::{lexemes, Delimiter, Lexeme, Token};

verus! {

/// A grammar of keywords, fields and types, with options and repetitions.
#[derive(Debug, PartialEq)]
pub enum Context {
    Keyword(String),
    Identifier(String),
    TypeReference(String),
    Scope(Vec<Context>),
    Option(Box<Context>),
    Repetition(Box<Context>),
}

/// How often an identifier is defined in a grammar.
#[derive(Clone, Copy, Debug, PartialEq, Eq, Structural)]
pub enum IdentifierCounter {
    /// Once.
    Scalar,
    /// Once or not at all.
    Option,
    /// Any number of times.
    Many,
}

/// Contexts, each as the pattern that it stands for.
pub open spec fn context_patterns(contexts: Seq<Context>) -> Seq<Pattern>
    decreases contexts,
{
    Seq::new(
        contexts.len(),
        |i: int|
            if 0 <= i < contexts.len() {
                contexts[i]@
            } else {
                Pattern::Whitespace
            },
    )
}

impl View for Context {
    type V = Pattern;

    open spec fn view(&self) -> Pattern
        decreases self,
    {
        match self {
            Context::Keyword(word) => Pattern::Keyword(word@),
            Context::Identifier(name) => Pattern::Identifier(name@),
            Context::TypeReference(name) => Pattern::TypeReference(name@),
            Context::Scope(contexts) => Pattern::Scope(context_patterns(contexts@)),
            Context::Option(inner) => Pattern::Option(Box::new((**inner).view())),
            Context::Repetition(inner) => Pattern::Repetition(Box::new((**inner).view())),
        }
    }
}

/// The contexts read from the tokens from number `i` on, behind `contexts`.
/// A literal is a keyword, and a word is a type or a field. `?` and `*` put
/// the context before them in an option or a repetition. A group in
/// parentheses is the scope of its contexts. Nothing else is read.
pub open spec fn contexts_from(tokens: Seq<Lexeme>, i: int, contexts: Seq<Pattern>) -> Seq<Pattern>
    decreases tokens, tokens.len() - i,
{
    if i < 0 || i >= tokens.len() {
        contexts
    } else {
        match tokens[i] {
            Lexeme::Text(text) => contexts_from(
                tokens,
                i + 1,
                contexts.push(Pattern::Keyword(text)),
            ),
            Lexeme::Punct(c) => if c == '?' {
                contexts_from(tokens, i + 1, last_optional(contexts))
            } else if c == '*' {
                contexts_from(tokens, i + 1, last_repeated(contexts))
            } else {
                contexts_from(tokens, i + 1, contexts)
            },
            Lexeme::Ident(word) => contexts_from(
                tokens,
                i + 1,
                contexts.push(
                    if names_type(word) {
                        Pattern::TypeReference(word)
                    } else {
                        Pattern::Identifier(word)
                    },
                ),
            ),
            Lexeme::Group(delimiter, inner) => contexts_from(
                tokens,
                i + 1,
                match delimiter {
                    Delimiter::Parenthesis => contexts.push(context_of(inner)),
                    _ => contexts,
                },
            ),
        }
    }
}

/// The context that tokens declare: the scope of the contexts read from them.
pub open spec fn context_of(tokens: Seq<Lexeme>) -> Pattern
    decreases tokens, tokens.len() + 1,
{
    Pattern::Scope(contexts_from(tokens, 0, Seq::empty()))
}

impl Context {
    /// Reads the context that tokens declare.
    pub fn from(tokens: &[Token]) -> (r: Context)
        ensures
            r@ == context_of(lexemes(tokens@)),
        decreases lexemes(tokens@),
    {
        let ghost all = lexemes(tokens@);
        let mut contexts: Vec<Context> = Vec::new();
        let mut i: usize = 0;
        assert(context_patterns(contexts@) == Seq::<Pattern>::empty());
        while i < tokens.len()
            invariant
                i <= tokens.len(),
                all == lexemes(tokens@),
                contexts_from(all, 0, Seq::empty()) == contexts_from(
                    all,
                    i as int,
                    context_patterns(contexts@),
                ),
            decreases tokens.len() - i,
        {
            assert(all[i as int] == tokens[i as int]@);
            let ghost before = context_patterns(contexts@);
            match &tokens[i] {
                Token::Text(text) => {
                    contexts.push(Context::Keyword(text.clone()));
                    assert(context_patterns(contexts@) == before.push(Pattern::Keyword(text@)));
                },
                Token::Punct(c) => {
                    if *c == '?' {
                        match contexts.pop() {
                            Some(last) => {
                                let ghost rest = context_patterns(contexts@);
                                assert(rest == before.drop_last());
                                assert(last@ == before.last());
                                contexts.push(Context::Option(Box::new(last)));
                                assert(context_patterns(contexts@) == rest.push(
                                    Pattern::Option(Box::new(before.last())),
                                ));
                            },
                            None => {},
                        }
                        assert(context_patterns(contexts@) == last_optional(before));
                    } else if *c == '*' {
                        match contexts.pop() {
                            Some(last) => {
                                let ghost rest = context_patterns(contexts@);
                                assert(rest == before.drop_last());
                                assert(last@ == before.last());
                                contexts.push(Context::Repetition(Box::new(last)));
                                assert(context_patterns(contexts@) == rest.push(
                                    Pattern::Repetition(Box::new(before.last())),
                                ));
                            },
                            None => {},
                        }
                        assert(context_patterns(contexts@) == last_repeated(before));
                    }
                },
                Token::Ident(word) => {
                    if is_type_name(word.as_str()) {
                        contexts.push(Context::TypeReference(word.clone()));
                        assert(context_patterns(contexts@) == before.push(
                            Pattern::TypeReference(word@),
                        ));
                    } else {
                        contexts.push(Context::Identifier(word.clone()));
                        assert(context_patterns(contexts@) == before.push(
                            Pattern::Identifier(word@),
                        ));
                    }
                },
                Token::Group(delimiter, inner) => {
                    match delimiter {
                        Delimiter::Parenthesis => {
                            assert(lexemes(inner@) == all[i as int]->Group_1);
                            let scope = Context::from(inner.as_slice());
                            let ghost view = scope@;
                            contexts.push(scope);
                            assert(context_patterns(contexts@) == before.push(view));
                        },
                        _ => {},
                    }
                },
            }
            i += 1;
        }
        Context::Scope(contexts)
    }
}

} // verus!
