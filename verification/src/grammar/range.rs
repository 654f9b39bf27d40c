//! Character ranges of a grammar: a set of characters that one position of
//! the input may hold.
use vstd::prelude::*;
use crate::grammar::token::{lexemes, Lexeme, Token};
use crate::text::{chars_of, push_all, text_of};

verus! {

/// A set of characters: those of some ranges, and those selected one by one.
#[derive(Debug, PartialEq)]
pub struct RegexpRange {
    ranges: Vec<(char, char)>,
    select: String,
}

/// What is read of a set so far: its ranges, its selected characters, and the
/// literal that was read last and is not yet part of either.
pub struct Reading {
    pub ranges: Seq<(char, char)>,
    pub select: Seq<char>,
    pub buffer: Option<Seq<char>>,
}

/// The ranges between the characters of `from` and those of `to`, pair by
/// pair, as far as both go.
pub open spec fn paired(from: Seq<char>, to: Seq<char>) -> Seq<(char, char)> {
    Seq::new(
        if from.len() <= to.len() {
            from.len()
        } else {
            to.len()
        },
        |i: int| (from[i], to[i]),
    )
}

/// The ranges that a word names: `NUM`, `LOWER`, `UPPER` and `ALPHA`.
pub open spec fn named_range(word: Seq<char>) -> Option<(char, char)> {
    if word == "NUM"@ {
        Some(('0', '9'))
    } else if word == "LOWER"@ {
        Some(('a', 'z'))
    } else if word == "UPPER"@ {
        Some(('A', 'Z'))
    } else if word == "ALPHA"@ {
        Some(('a', 'Z'))
    } else {
        None
    }
}

/// Whether a set can be read from the tokens from number `i` on: they are
/// literals, `|`, `-`, and the words `NUM`, `LOWER`, `UPPER`, `ALPHA` and
/// `SPACE`. The token behind a `-` is read with it, whatever it is.
pub open spec fn readable(tokens: Seq<Lexeme>, i: int) -> bool
    decreases tokens.len() + 1 - i,
{
    if i < 0 || i >= tokens.len() {
        true
    } else {
        match tokens[i] {
            Lexeme::Text(_) => readable(tokens, i + 1),
            Lexeme::Punct(c) => if c == '|' {
                readable(tokens, i + 1)
            } else if c == '-' {
                readable(tokens, i + 2)
            } else {
                false
            },
            Lexeme::Ident(word) => (named_range(word) is Some || word == "SPACE"@) && readable(
                tokens,
                i + 1,
            ),
            Lexeme::Group(_, _) => false,
        }
    }
}

/// The set read from the tokens from number `i` on, `so_far` being read
/// already. A literal is kept until the next token is read: behind a `|` or
/// another literal its characters are selected; before a `-` and another
/// literal they begin ranges that end at the characters of that literal. A
/// word names a range, and `SPACE` selects the whitespace characters.
pub open spec fn read_on(tokens: Seq<Lexeme>, i: int, so_far: Reading) -> Reading
    decreases tokens.len() + 1 - i,
{
    if i < 0 || i >= tokens.len() {
        so_far
    } else {
        match tokens[i] {
            Lexeme::Text(text) => read_on(
                tokens,
                i + 1,
                Reading {
                    ranges: so_far.ranges,
                    select: match so_far.buffer {
                        Some(kept) => so_far.select + kept,
                        None => so_far.select,
                    },
                    buffer: Some(text),
                },
            ),
            Lexeme::Punct(c) => if c == '|' {
                read_on(
                    tokens,
                    i + 1,
                    match so_far.buffer {
                        Some(kept) => Reading {
                            ranges: so_far.ranges,
                            select: so_far.select + kept,
                            buffer: None,
                        },
                        None => so_far,
                    },
                )
            } else if c == '-' {
                read_on(
                    tokens,
                    i + 2,
                    if i + 1 < tokens.len() {
                        match (so_far.buffer, tokens[i + 1]) {
                            (Some(from), Lexeme::Text(to)) => Reading {
                                ranges: so_far.ranges + paired(from, to),
                                select: so_far.select,
                                buffer: so_far.buffer,
                            },
                            _ => so_far,
                        }
                    } else {
                        so_far
                    },
                )
            } else {
                so_far
            },
            Lexeme::Ident(word) => read_on(
                tokens,
                i + 1,
                match named_range(word) {
                    Some(range) => Reading {
                        ranges: so_far.ranges.push(range),
                        select: so_far.select,
                        buffer: so_far.buffer,
                    },
                    None => if word == "SPACE"@ {
                        Reading {
                            ranges: so_far.ranges,
                            select: so_far.select + "\r\n\t "@,
                            buffer: so_far.buffer,
                        }
                    } else {
                        so_far
                    },
                },
            ),
            Lexeme::Group(_, _) => so_far,
        }
    }
}

/// What is read so far, from the vectors that hold it.
pub open spec fn reading(
    ranges: Seq<(char, char)>,
    select: Seq<char>,
    buffer: Option<Vec<char>>,
) -> Reading {
    Reading {
        ranges,
        select,
        buffer: match buffer {
            Some(kept) => Some(kept@),
            None => None,
        },
    }
}

/// The set that tokens declare.
pub open spec fn range_of(tokens: Seq<Lexeme>) -> Reading {
    read_on(
        tokens,
        0,
        Reading { ranges: Seq::empty(), select: Seq::empty(), buffer: None },
    )
}

/// Whether the character `c` is in the set of the ranges `ranges` and the
/// selected characters `select`.
pub open spec fn in_set(ranges: Seq<(char, char)>, select: Seq<char>, c: char) -> bool {
    select.contains(c) || exists|i: int|
        0 <= i < ranges.len() && (#[trigger] ranges[i]).0 <= c && c <= ranges[i].1
}

impl RegexpRange {
    /// The ranges: the first and the last character of each.
    pub closed spec fn ranges(&self) -> Seq<(char, char)> {
        self.ranges@
    }

    /// The characters selected one by one.
    pub closed spec fn select(&self) -> Seq<char> {
        self.select@
    }

    /// The empty set.
    pub fn new() -> (r: RegexpRange)
        ensures
            r.ranges() == Seq::<(char, char)>::empty(),
            r.select() == Seq::<char>::empty(),
    {
        RegexpRange { ranges: Vec::new(), select: String::new() }
    }

    /// The ranges of the set.
    pub fn range_list(&self) -> (r: &Vec<(char, char)>)
        ensures
            r@ == self.ranges(),
    {
        &self.ranges
    }

    /// The characters of the set that are selected one by one.
    pub fn selected(&self) -> (r: &str)
        ensures
            r@ == self.select(),
    {
        self.select.as_str()
    }

    /// Whether `c` is in the set: it is selected, or one of the ranges holds
    /// it.
    pub fn contains(&self, c: char) -> (r: bool)
        ensures
            r == in_set(self.ranges(), self.select(), c),
    {
        let select = chars_of(self.select.as_str());
        let mut i: usize = 0;
        while i < select.len()
            invariant
                i <= select.len(),
                select@ == self.select(),
                forall|k: int| 0 <= k < i ==> select[k] != c,
            decreases select.len() - i,
        {
            if select[i] == c {
                assert(self.select().contains(c));
                return true;
            }
            i += 1;
        }
        assert(!self.select().contains(c));
        let mut k: usize = 0;
        while k < self.ranges.len()
            invariant
                k <= self.ranges.len(),
                !self.select().contains(c),
                forall|j: int|
                    0 <= j < k ==> !((#[trigger] self.ranges[j]).0 <= c && c <= self.ranges[j].1),
            decreases self.ranges.len() - k,
        {
            if self.ranges[k].0 <= c && c <= self.ranges[k].1 {
                return true;
            }
            k += 1;
        }
        false
    }

    /// Whether a set can be read from `tokens`.
    pub fn can_read(tokens: &[Token]) -> (r: bool)
        ensures
            r == readable(lexemes(tokens@), 0),
    {
        let ghost all = lexemes(tokens@);
        let mut i: usize = 0;
        while i < tokens.len()
            invariant
                i <= tokens.len(),
                all == lexemes(tokens@),
                readable(all, 0) == readable(all, i as int),
            decreases tokens.len() - i,
        {
            assert(all[i as int] == tokens[i as int]@);
            match &tokens[i] {
                Token::Text(_) => {
                    i += 1;
                },
                Token::Punct(c) => {
                    if *c == '|' {
                        i += 1;
                    } else if *c == '-' {
                        if tokens.len() - i < 2 {
                            assert(readable(all, i + 2));
                            return true;
                        }
                        i += 2;
                    } else {
                        return false;
                    }
                },
                Token::Ident(word) => {
                    let word = chars_of(word.as_str());
                    let num = chars_of("NUM");
                    let lower = chars_of("LOWER");
                    let upper = chars_of("UPPER");
                    let alpha = chars_of("ALPHA");
                    let space = chars_of("SPACE");
                    if !(crate::text::same_text(word.as_slice(), num.as_slice())
                        || crate::text::same_text(word.as_slice(), lower.as_slice())
                        || crate::text::same_text(word.as_slice(), upper.as_slice())
                        || crate::text::same_text(word.as_slice(), alpha.as_slice())
                        || crate::text::same_text(word.as_slice(), space.as_slice())) {
                        return false;
                    }
                    i += 1;
                },
                Token::Group(_, _) => {
                    return false;
                },
            }
        }
        true
    }

    /// Reads the set that tokens declare.
    pub fn from(tokens: &[Token]) -> (r: RegexpRange)
        requires
            readable(lexemes(tokens@), 0),
        ensures
            r.ranges() == range_of(lexemes(tokens@)).ranges,
            r.select() == range_of(lexemes(tokens@)).select,
    {
        let ghost all = lexemes(tokens@);
        let mut ranges: Vec<(char, char)> = Vec::new();
        let mut select: Vec<char> = Vec::new();
        let mut buffer: Option<Vec<char>> = None;
        let mut i: usize = 0;
        while i < tokens.len()
            invariant
                all == lexemes(tokens@),
                readable(all, i as int) || i == tokens.len(),
                i <= tokens.len(),
                range_of(all) == read_on(all, i as int, reading(ranges@, select@, buffer)),
            decreases tokens.len() - i,
        {
            assert(all[i as int] == tokens[i as int]@);
            let ghost before = reading(ranges@, select@, buffer);
            let mut step: usize = 1;
            match &tokens[i] {
                Token::Text(text) => {
                    match &buffer {
                        Some(kept) => {
                            push_all(&mut select, kept.as_slice());
                        },
                        None => {},
                    }
                    buffer = Some(chars_of(text.as_str()));
                },
                Token::Punct(c) => {
                    if *c == '|' {
                        match &buffer {
                            Some(kept) => {
                                push_all(&mut select, kept.as_slice());
                                buffer = None;
                            },
                            None => {},
                        }
                    } else {
                        assert(*c == '-');
                        if i + 1 < tokens.len() {
                            assert(all[i + 1] == tokens[i + 1]@);
                            match (&buffer, &tokens[i + 1]) {
                                (Some(from), Token::Text(to)) => {
                                    let to = chars_of(to.as_str());
                                    let ghost before = ranges@;
                                    let mut k: usize = 0;
                                    while k < from.len() && k < to.len()
                                        invariant
                                            k <= from.len(),
                                            k <= to.len(),
                                            ranges@ == before + paired(from@, to@).take(k as int),
                                        decreases from.len() - k,
                                    {
                                        ranges.push((from[k], to[k]));
                                        assert(paired(from@, to@).take(k + 1) == paired(
                                            from@,
                                            to@,
                                        ).take(k as int).push((from@[k as int], to@[k as int])));
                                        k += 1;
                                    }
                                    assert(paired(from@, to@).take(k as int) == paired(from@, to@));
                                },
                                _ => {},
                            }
                            step = 2;
                        } else {
                            step = 2;
                        }
                    }
                },
                Token::Ident(word) => {
                    let word = chars_of(word.as_str());
                    let num = chars_of("NUM");
                    let lower = chars_of("LOWER");
                    let upper = chars_of("UPPER");
                    let alpha = chars_of("ALPHA");
                    if crate::text::same_text(word.as_slice(), num.as_slice()) {
                        ranges.push(('0', '9'));
                    } else if crate::text::same_text(word.as_slice(), lower.as_slice()) {
                        ranges.push(('a', 'z'));
                    } else if crate::text::same_text(word.as_slice(), upper.as_slice()) {
                        ranges.push(('A', 'Z'));
                    } else if crate::text::same_text(word.as_slice(), alpha.as_slice()) {
                        ranges.push(('a', 'Z'));
                    } else {
                        let space = chars_of("\r\n\t ");
                        push_all(&mut select, space.as_slice());
                    }
                },
                Token::Group(_, _) => {},
            }
            let ghost now = reading(ranges@, select@, buffer);
            assert(read_on(all, i as int, before) == read_on(all, i + step, now));
            if step == 2 && tokens.len() - i < 2 {
                assert(read_on(all, i + 2, now) == now);
                assert(read_on(all, tokens.len() as int, now) == now);
                i = tokens.len();
            } else {
                i += step;
            }
        }
        RegexpRange { ranges, select: text_of(select.as_slice()) }
    }
}

} // verus!
