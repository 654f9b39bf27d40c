//! The tokens that a grammar is written in.
use vstd::prelude::*;

verus! {

/// The brackets around a group of tokens.
#[derive(Clone, Copy, Debug, PartialEq, Eq, Structural)]
pub enum Delimiter {
    /// `( ... )`
    Parenthesis,
    /// `{ ... }`
    Brace,
    /// `[ ... ]`
    Bracket,
    /// No brackets at all.
    Invisible,
}

/// One token of a grammar.
#[derive(Debug, PartialEq)]
pub enum Token {
    /// A string or character literal: its value.
    Text(String),
    /// A punctuation character.
    Punct(char),
    /// A word.
    Ident(String),
    /// Tokens in brackets.
    Group(Delimiter, Vec<Token>),
}

/// What a [`Token`] stands for: the same tree over plain sequences.
pub enum Lexeme {
    Text(Seq<char>),
    Punct(char),
    Ident(Seq<char>),
    Group(Delimiter, Seq<Lexeme>),
}

/// Tokens, each as what it stands for.
pub open spec fn lexemes(tokens: Seq<Token>) -> Seq<Lexeme>
    decreases tokens,
{
    Seq::new(
        tokens.len(),
        |i: int|
            if 0 <= i < tokens.len() {
                tokens[i]@
            } else {
                Lexeme::Punct(' ')
            },
    )
}

impl View for Token {
    type V = Lexeme;

    open spec fn view(&self) -> Lexeme
        decreases self,
    {
        match self {
            Token::Text(text) => Lexeme::Text(text@),
            Token::Punct(c) => Lexeme::Punct(*c),
            Token::Ident(word) => Lexeme::Ident(word@),
            Token::Group(delimiter, tokens) => Lexeme::Group(*delimiter, lexemes(tokens@)),
        }
    }
}

} // verus!
