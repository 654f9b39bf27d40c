//! Production rules as trees, and what can be read off them.
use vstd::prelude::*;
use crate::grammar::range::{range_of, readable, RegexpRange};
use crate::grammar::token::{lexemes, Delimiter, Lexeme, Token};
use crate::text::{chars_of, is_lower, is_upper, lower, upper};

verus! {

/// A production rule: the grammar that a type is read by.
#[derive(Debug, PartialEq)]
pub enum Rule {
    /// White space, one character at least.
    Whitespace,
    /// A word or a symbol that has to stand in the input as it is.
    Keyword(String),
    /// A field that is read.
    Identifier(String),
    /// Another type, which is read by its own rule.
    TypeReference(String),
    /// Rules that are read one behind the other.
    Scope(Vec<Rule>),
    /// A rule that may be left out.
    Option(Box<Rule>),
    /// A rule that is read any number of times.
    Repetition(Box<Rule>),
    /// One character of a set.
    Range(RegexpRange),
    /// Rules of which one is read.
    Branch(Vec<Rule>),
}

/// How often a rule reads.
#[derive(Clone, Copy, Debug, PartialEq, Eq, Structural)]
pub enum Dimension {
    /// Once.
    Scalar,
    /// Once or not at all.
    Option,
    /// Any number of times.
    Many,
}

/// A rule in its simplest form. A scope of one rule is that rule. An option
/// around an option or a repetition is what it holds. A repetition around an
/// option or a repetition is a repetition of what that holds.
pub open spec fn optimized(rule: Rule) -> Rule
    decreases rule,
{
    match rule {
        Rule::Scope(rules) => if rules.len() == 1 {
            optimized(rules[0])
        } else {
            rule
        },
        Rule::Option(inner) => match *inner {
            Rule::Option(_) => optimized(*inner),
            Rule::Repetition(_) => optimized(*inner),
            _ => rule,
        },
        Rule::Repetition(inner) => match *inner {
            Rule::Repetition(held) => Rule::Repetition(Box::new(optimized(*held))),
            Rule::Option(held) => Rule::Repetition(Box::new(optimized(*held))),
            _ => Rule::Repetition(Box::new(optimized(*inner))),
        },
        _ => rule,
    }
}

/// How often a rule reads, by its outermost form.
pub open spec fn dimension_of(rule: Rule) -> Dimension {
    match rule {
        Rule::Option(_) => Dimension::Option,
        Rule::Repetition(_) => Dimension::Many,
        _ => Dimension::Scalar,
    }
}

impl Rule {
    /// Does nothing.
    pub fn qualify_type() {
    }

    /// How often the rule reads: optionally, many times, or once.
    pub fn dimension(&self) -> (r: Dimension)
        ensures
            r == dimension_of(*self),
    {
        match self {
            Rule::Option(_) => Dimension::Option,
            Rule::Repetition(_) => Dimension::Many,
            _ => Dimension::Scalar,
        }
    }

    /// The rule in its simplest form.
    pub fn optimize(self) -> (r: Rule)
        ensures
            r == optimized(self),
        decreases self,
    {
        match self {
            Rule::Scope(rules) => {
                let mut rules = rules;
                if rules.len() == 1 {
                    let only = rules.remove(0);
                    only.optimize()
                } else {
                    Rule::Scope(rules)
                }
            },
            Rule::Option(inner) => {
                if inner.dimension() != Dimension::Scalar {
                    let held: Rule = *inner;
                    held.optimize()
                } else {
                    Rule::Option(inner)
                }
            },
            Rule::Repetition(inner) => {
                let held: Rule = *inner;
                match held {
                    Rule::Repetition(deeper) => {
                        let deeper: Rule = *deeper;
                        Rule::Repetition(Box::new(deeper.optimize()))
                    },
                    Rule::Option(deeper) => {
                        let deeper: Rule = *deeper;
                        Rule::Repetition(Box::new(deeper.optimize()))
                    },
                    other => Rule::Repetition(Box::new(other.optimize())),
                }
            },
            other => other,
        }
    }
}

/// What a [`Rule`] stands for: the same tree over plain sequences, a range
/// being its ranges and its selected characters.
pub enum Pattern {
    Whitespace,
    Keyword(Seq<char>),
    Identifier(Seq<char>),
    TypeReference(Seq<char>),
    Scope(Seq<Pattern>),
    Option(Box<Pattern>),
    Repetition(Box<Pattern>),
    Range(Seq<(char, char)>, Seq<char>),
    Branch(Seq<Pattern>),
}

/// Rules, each as what it stands for.
pub open spec fn patterns(rules: Seq<Rule>) -> Seq<Pattern>
    decreases rules,
{
    Seq::new(
        rules.len(),
        |i: int|
            if 0 <= i < rules.len() {
                rules[i]@
            } else {
                Pattern::Whitespace
            },
    )
}

impl View for Rule {
    type V = Pattern;

    open spec fn view(&self) -> Pattern
        decreases self,
    {
        match self {
            Rule::Whitespace => Pattern::Whitespace,
            Rule::Keyword(word) => Pattern::Keyword(word@),
            Rule::Identifier(name) => Pattern::Identifier(name@),
            Rule::TypeReference(name) => Pattern::TypeReference(name@),
            Rule::Scope(rules) => Pattern::Scope(patterns(rules@)),
            Rule::Option(inner) => Pattern::Option(Box::new((**inner).view())),
            Rule::Repetition(inner) => Pattern::Repetition(Box::new((**inner).view())),
            Rule::Range(range) => Pattern::Range(range.ranges(), range.select()),
            Rule::Branch(rules) => Pattern::Branch(patterns(rules@)),
        }
    }
}

/// Whether a word names a type: its first ASCII letter is in upper case. A
/// word without ASCII letters names none.
pub open spec fn names_type(word: Seq<char>) -> bool
    decreases word.len(),
{
    if word.len() == 0 {
        false
    } else if is_upper(word[0]) {
        true
    } else if is_lower(word[0]) {
        false
    } else {
        names_type(word.drop_first())
    }
}

/// Whether a rule can be read from the tokens from number `i` on: no group
/// is in braces or without brackets, and a set can be read from each group in
/// square brackets. The token behind a `-` is read with it, whatever it is.
pub open spec fn legible(tokens: Seq<Lexeme>, i: int) -> bool
    decreases tokens, tokens.len() + 1 - i,
{
    if i < 0 || i >= tokens.len() {
        true
    } else {
        match tokens[i] {
            Lexeme::Punct(c) => if c == '-' {
                legible(tokens, i + 2)
            } else {
                legible(tokens, i + 1)
            },
            Lexeme::Group(delimiter, inner) => (match delimiter {
                Delimiter::Parenthesis => legible(inner, 0),
                Delimiter::Bracket => readable(inner, 0),
                _ => false,
            }) && legible(tokens, i + 1),
            _ => legible(tokens, i + 1),
        }
    }
}

/// `rules` with its last rule in `Option`; unchanged where it has none.
pub open spec fn last_optional(rules: Seq<Pattern>) -> Seq<Pattern> {
    if rules.len() > 0 {
        rules.drop_last().push(Pattern::Option(Box::new(rules.last())))
    } else {
        rules
    }
}

/// `rules` with its last rule in `Repetition`; unchanged where it has none.
pub open spec fn last_repeated(rules: Seq<Pattern>) -> Seq<Pattern> {
    if rules.len() > 0 {
        rules.drop_last().push(Pattern::Repetition(Box::new(rules.last())))
    } else {
        rules
    }
}

/// `rules` without its last rule; unchanged where it has none.
pub open spec fn last_dropped(rules: Seq<Pattern>) -> Seq<Pattern> {
    if rules.len() > 0 {
        rules.drop_last()
    } else {
        rules
    }
}

/// The rules read from the tokens from number `i` on, behind `rules`. A
/// literal is a keyword, `~` is whitespace, and a word is a type or a field.
/// `?` and `*` put the rule before them in an option or a repetition. `-`
/// takes away the rule before it and the token behind it. A group in
/// parentheses is the scope of its rules, one in square brackets a set of
/// characters.
pub open spec fn rules_from(tokens: Seq<Lexeme>, i: int, rules: Seq<Pattern>) -> Seq<Pattern>
    decreases tokens, tokens.len() + 1 - i,
{
    if i < 0 || i >= tokens.len() {
        rules
    } else {
        match tokens[i] {
            Lexeme::Text(text) => rules_from(tokens, i + 1, rules.push(Pattern::Keyword(text))),
            Lexeme::Punct(c) => if c == '~' {
                rules_from(tokens, i + 1, rules.push(Pattern::Whitespace))
            } else if c == '?' {
                rules_from(tokens, i + 1, last_optional(rules))
            } else if c == '*' {
                rules_from(tokens, i + 1, last_repeated(rules))
            } else if c == '-' {
                rules_from(tokens, i + 2, last_dropped(rules))
            } else {
                rules_from(tokens, i + 1, rules)
            },
            Lexeme::Ident(word) => rules_from(
                tokens,
                i + 1,
                rules.push(
                    if names_type(word) {
                        Pattern::TypeReference(word)
                    } else {
                        Pattern::Identifier(word)
                    },
                ),
            ),
            Lexeme::Group(delimiter, inner) => rules_from(
                tokens,
                i + 1,
                match delimiter {
                    Delimiter::Parenthesis => rules.push(rule_of(inner)),
                    Delimiter::Bracket => rules.push(
                        Pattern::Range(range_of(inner).ranges, range_of(inner).select),
                    ),
                    _ => rules,
                },
            ),
        }
    }
}

/// The rule that tokens declare: the scope of the rules read from them.
pub open spec fn rule_of(tokens: Seq<Lexeme>) -> Pattern
    decreases tokens, tokens.len() + 2,
{
    Pattern::Scope(rules_from(tokens, 0, Seq::empty()))
}

/// Whether a word names a type.
pub fn is_type_name(word: &str) -> (r: bool)
    ensures
        r == names_type(word@),
{
    let chars = chars_of(word);
    let mut i: usize = 0;
    assert(chars@.skip(0) == chars@);
    while i < chars.len()
        invariant
            i <= chars.len(),
            chars@ == word@,
            names_type(chars@) == names_type(chars@.skip(i as int)),
        decreases chars.len() - i,
    {
        assert(chars@.skip(i as int).drop_first() == chars@.skip(i + 1));
        assert(chars@.skip(i as int)[0] == chars[i as int]);
        if upper(chars[i]) {
            return true;
        }
        if lower(chars[i]) {
            return false;
        }
        i += 1;
    }
    false
}

impl Rule {
    /// Whether a rule can be read from `tokens`.
    pub fn can_read(tokens: &[Token]) -> (r: bool)
        ensures
            r == legible(lexemes(tokens@), 0),
        decreases lexemes(tokens@),
    {
        let ghost all = lexemes(tokens@);
        let mut i: usize = 0;
        while i < tokens.len()
            invariant
                i <= tokens.len(),
                all == lexemes(tokens@),
                legible(all, 0) == legible(all, i as int),
            decreases tokens.len() - i,
        {
            assert(all[i as int] == tokens[i as int]@);
            match &tokens[i] {
                Token::Punct(c) => {
                    if *c == '-' {
                        if tokens.len() - i < 2 {
                            assert(legible(all, i + 2));
                            return true;
                        }
                        i += 2;
                    } else {
                        i += 1;
                    }
                },
                Token::Group(delimiter, inner) => {
                    assert(lexemes(inner@) == all[i as int]->Group_1);
                    let inside = match delimiter {
                        Delimiter::Parenthesis => Rule::can_read(inner.as_slice()),
                        Delimiter::Bracket => RegexpRange::can_read(inner.as_slice()),
                        _ => false,
                    };
                    if !inside {
                        return false;
                    }
                    i += 1;
                },
                _ => {
                    i += 1;
                },
            }
        }
        true
    }

    /// Reads the rule that tokens declare.
    pub fn from(tokens: &[Token]) -> (r: Rule)
        requires
            legible(lexemes(tokens@), 0),
        ensures
            r@ == rule_of(lexemes(tokens@)),
        decreases lexemes(tokens@),
    {
        let ghost all = lexemes(tokens@);
        let mut rules: Vec<Rule> = Vec::new();
        let mut i: usize = 0;
        assert(patterns(rules@) == Seq::<Pattern>::empty());
        while i < tokens.len()
            invariant
                i <= tokens.len(),
                all == lexemes(tokens@),
                legible(all, i as int) || i == tokens.len(),
                rules_from(all, 0, Seq::empty()) == rules_from(all, i as int, patterns(rules@)),
            decreases tokens.len() - i,
        {
            assert(all[i as int] == tokens[i as int]@);
            let ghost before = patterns(rules@);
            let mut step: usize = 1;
            match &tokens[i] {
                Token::Text(text) => {
                    rules.push(Rule::Keyword(text.clone()));
                    assert(patterns(rules@) == before.push(Pattern::Keyword(text@)));
                },
                Token::Punct(c) => {
                    if *c == '~' {
                        rules.push(Rule::Whitespace);
                        assert(patterns(rules@) == before.push(Pattern::Whitespace));
                    } else if *c == '?' {
                        match rules.pop() {
                            Some(last) => {
                                let ghost rest = patterns(rules@);
                                assert(rest == before.drop_last());
                                assert(last@ == before.last());
                                rules.push(Rule::Option(Box::new(last)));
                                assert(patterns(rules@) == rest.push(
                                    Pattern::Option(Box::new(before.last())),
                                ));
                            },
                            None => {},
                        }
                        assert(patterns(rules@) == last_optional(before));
                    } else if *c == '*' {
                        match rules.pop() {
                            Some(last) => {
                                let ghost rest = patterns(rules@);
                                assert(rest == before.drop_last());
                                assert(last@ == before.last());
                                rules.push(Rule::Repetition(Box::new(last)));
                                assert(patterns(rules@) == rest.push(
                                    Pattern::Repetition(Box::new(before.last())),
                                ));
                            },
                            None => {},
                        }
                        assert(patterns(rules@) == last_repeated(before));
                    } else if *c == '-' {
                        rules.pop();
                        assert(patterns(rules@) == last_dropped(before));
                        step = 2;
                    }
                },
                Token::Ident(word) => {
                    if is_type_name(word.as_str()) {
                        rules.push(Rule::TypeReference(word.clone()));
                        assert(patterns(rules@) == before.push(Pattern::TypeReference(word@)));
                    } else {
                        rules.push(Rule::Identifier(word.clone()));
                        assert(patterns(rules@) == before.push(Pattern::Identifier(word@)));
                    }
                },
                Token::Group(delimiter, inner) => {
                    match delimiter {
                        Delimiter::Parenthesis => {
                            assert(lexemes(inner@) == all[i as int]->Group_1);
                            let scope = Rule::from(inner.as_slice());
                            let ghost view = scope@;
                            rules.push(scope);
                            assert(patterns(rules@) == before.push(view));
                        },
                        Delimiter::Bracket => {
                            let range = RegexpRange::from(inner.as_slice());
                            let ghost view = Pattern::Range(range.ranges(), range.select());
                            rules.push(Rule::Range(range));
                            assert(patterns(rules@) == before.push(view));
                        },
                        _ => {},
                    }
                },
            }
            let ghost now = patterns(rules@);
            assert(rules_from(all, i as int, before) == rules_from(all, i + step, now));
            if step == 2 && tokens.len() - i < 2 {
                assert(rules_from(all, i + 2, now) == now);
                assert(rules_from(all, tokens.len() as int, now) == now);
                i = tokens.len();
            } else {
                i += step;
            }
        }
        Rule::Scope(rules)
    }
}

/// The most rules that a scope can hold for a parser to be generated.
pub const MOST_IN_SCOPE: usize = 20;

/// Whether a parser can be generated for a rule: it is made of whitespace,
/// keywords, options, repetitions and scopes of one to twenty rules.
pub open spec fn generable(rule: Rule) -> bool
    decreases rule,
{
    match rule {
        Rule::Whitespace => true,
        Rule::Keyword(_) => true,
        Rule::Scope(rules) => 1 <= rules.len() <= MOST_IN_SCOPE && forall|i: int|
            0 <= i < rules.len() ==> generable(#[trigger] rules[i]),
        Rule::Option(inner) => generable(*inner),
        Rule::Repetition(inner) => generable(*inner),
        _ => false,
    }
}

impl Rule {
    /// Whether a parser can be generated for the rule.
    pub fn can_generate(&self) -> (r: bool)
        ensures
            r == generable(*self),
        decreases self,
    {
        match self {
            Rule::Whitespace => true,
            Rule::Keyword(_) => true,
            Rule::Scope(rules) => {
                if rules.len() < 1 || rules.len() > MOST_IN_SCOPE {
                    return false;
                }
                let mut i: usize = 0;
                while i < rules.len()
                    invariant
                        i <= rules.len(),
                        self == Rule::Scope(*rules),
                        1 <= rules.len() <= MOST_IN_SCOPE,
                        forall|k: int| 0 <= k < i ==> generable(#[trigger] rules[k]),
                    decreases rules.len() - i,
                {
                    assert(self matches Rule::Scope(held) && held == rules);
                    assert(decreases_to!(*self => rules@));
                    assert(decreases_to!(rules@ => rules@[i as int]));
                    assert(decreases_to!(*self => rules@[i as int]));
                    if !rules[i].can_generate() {
                        return false;
                    }
                    i += 1;
                }
                true
            },
            Rule::Option(inner) => inner.can_generate(),
            Rule::Repetition(inner) => inner.can_generate(),
            _ => false,
        }
    }
}

} // verus!
