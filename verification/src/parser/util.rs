//! The parsers for the pieces of a template: whitespace, comments,
//! identifiers, paths and string literals, and the scopes built from them.
//!
//! A parser takes the source as characters and the position to read at. It
//! returns the position behind what it read, and `None` where the source does
//! not hold its piece at that position. What each one reads is defined by a
//! function of the same name with `_at` or `_end` behind it.
use vstd::prelude::*;
use vstd::slice::slice_subrange;
use crate::parser::components::{elements_view, Element, ForeachScope, TemplateElement};
use crate::text::{
    alphanumeric, is_alphanumeric, is_letter, is_line_break, is_space, is_white, letter,
    line_break, space, text_of, texts, white,
};

verus! {

/// A set of characters that a run is made of.
#[derive(Clone, Copy, Debug, PartialEq, Eq, Structural)]
pub enum Class {
    /// Space, tab, carriage return, line feed.
    Space,
    /// Carriage return and line feed.
    LineBreak,
    /// Everything but carriage return and line feed.
    LineText,
    /// ASCII letters and digits.
    Alphanumeric,
    /// ASCII letters, `_` and `-`.
    NameStart,
    /// ASCII letters and `_`.
    Word,
    /// White space, as Unicode defines it.
    White,
}

impl Class {
    /// Whether `c` belongs to the class.
    pub open spec fn holds(self, c: char) -> bool {
        match self {
            Class::Space => is_space(c),
            Class::LineBreak => is_line_break(c),
            Class::LineText => !is_line_break(c),
            Class::Alphanumeric => is_alphanumeric(c),
            Class::NameStart => is_letter(c) || c == '_' || c == '-',
            Class::Word => is_letter(c) || c == '_',
            Class::White => is_white(c),
        }
    }

    /// Whether `c` belongs to the class.
    #[verifier::when_used_as_spec(holds)]
    pub fn has(self, c: char) -> (r: bool)
        ensures
            r == self.holds(c),
    {
        match self {
            Class::Space => space(c),
            Class::LineBreak => line_break(c),
            Class::LineText => !line_break(c),
            Class::Alphanumeric => alphanumeric(c),
            Class::NameStart => letter(c) || c == '_' || c == '-',
            Class::Word => letter(c) || c == '_',
            Class::White => white(c),
        }
    }
}

/// The position behind the longest run of `class` characters that starts at
/// `i`; `i` itself where none starts there.
pub open spec fn run_end(s: Seq<char>, i: int, class: Class) -> int
    decreases s.len() - i,
{
    if 0 <= i < s.len() && class.holds(s[i]) {
        run_end(s, i + 1, class)
    } else {
        i
    }
}

/// A run ends inside the source, holds only characters of its class, and
/// cannot be made longer.
pub proof fn lemma_run_end(s: Seq<char>, i: int, class: Class)
    requires
        0 <= i <= s.len(),
    ensures
        i <= run_end(s, i, class) <= s.len(),
        forall|k: int| i <= k < run_end(s, i, class) ==> class.holds(#[trigger] s[k]),
        run_end(s, i, class) < s.len() ==> !class.holds(s[run_end(s, i, class)]),
    decreases s.len() - i,
{
    if i < s.len() && class.holds(s[i]) {
        lemma_run_end(s, i + 1, class);
    }
}

/// Skips the longest run of `class` characters at `at`.
pub fn skip_run(input: &[char], at: usize, class: Class) -> (end: usize)
    ensures
        end == run_end(input@, at as int, class),
        at <= end,
        at <= input.len() ==> end <= input.len(),
{
    let mut i: usize = at;
    while i < input.len() && class.has(input[i])
        invariant
            at <= i,
            at <= input.len() ==> i <= input.len(),
            run_end(input@, at as int, class) == run_end(input@, i as int, class),
        decreases input.len() - i,
    {
        i += 1;
    }
    i
}

/// Whether the two characters `a`, `b` stand at `i`.
pub open spec fn pair_at(s: Seq<char>, i: int, a: char, b: char) -> bool {
    0 <= i && i + 1 < s.len() && s[i] == a && s[i + 1] == b
}

/// Whether the two characters `a`, `b` stand at `at`.
pub fn pair(input: &[char], at: usize, a: char, b: char) -> (r: bool)
    ensures
        r == pair_at(input@, at as int, a, b),
        r ==> at + 2 <= input.len(),
{
    at < input.len() && input.len() - at >= 2 && input[at] == a && input[at + 1] == b
}

/// A position as the definitions count it.
pub open spec fn position(end: Option<usize>) -> Option<int> {
    match end {
        Some(e) => Some(e as int),
        None => None,
    }
}

/// Whitespace: one or more of space, tab, carriage return and line feed.
pub open spec fn whitespace_at(s: Seq<char>, i: int) -> Option<int> {
    if 0 <= i < s.len() && is_space(s[i]) {
        Some(run_end(s, i, Class::Space))
    } else {
        None
    }
}

/// Reads whitespace: at least one character of it.
pub fn whitespace(input: &[char], at: usize) -> (end: Option<usize>)
    ensures
        position(end) == whitespace_at(input@, at as int),
        end matches Some(e) ==> at < e <= input.len(),
{
    if at < input.len() && space(input[at]) {
        proof {
            lemma_run_end(input@, at + 1, Class::Space);
        }
        Some(skip_run(input, at, Class::Space))
    } else {
        None
    }
}

/// A line comment: `//`, the rest of the line, and the line breaks that end
/// it. The end of the source ends the comment too.
pub open spec fn c_comment_at(s: Seq<char>, i: int) -> Option<int> {
    if pair_at(s, i, '/', '/') {
        Some(run_end(s, run_end(s, i + 2, Class::LineText), Class::LineBreak))
    } else {
        None
    }
}

/// Reads a line comment.
pub fn c_comment(input: &[char], at: usize) -> (end: Option<usize>)
    ensures
        position(end) == c_comment_at(input@, at as int),
        end matches Some(e) ==> at + 2 <= e <= input.len(),
{
    if pair(input, at, '/', '/') {
        let line = skip_run(input, at + 2, Class::LineText);
        Some(skip_run(input, line, Class::LineBreak))
    } else {
        None
    }
}

/// The first position at or behind `i` where `*/` stands.
pub open spec fn block_close(s: Seq<char>, i: int) -> Option<int>
    decreases s.len() - i,
{
    if i < 0 || i + 1 >= s.len() {
        None
    } else if s[i] == '*' && s[i + 1] == '/' {
        Some(i)
    } else {
        block_close(s, i + 1)
    }
}

/// Where `block_close` finds `*/`, none stands before it; where it finds
/// none, none stands behind `i`.
pub proof fn lemma_block_close(s: Seq<char>, i: int)
    requires
        0 <= i,
    ensures
        match block_close(s, i) {
            Some(k) => i <= k && pair_at(s, k, '*', '/') && forall|j: int|
                i <= j < k ==> !pair_at(s, j, '*', '/'),
            None => forall|j: int| i <= j ==> !pair_at(s, j, '*', '/'),
        },
    decreases s.len() - i,
{
    if i + 1 < s.len() && !(s[i] == '*' && s[i + 1] == '/') {
        lemma_block_close(s, i + 1);
    }
}

/// A block comment: `/*` through the first `*/` behind it.
pub open spec fn c_multiline_comment_at(s: Seq<char>, i: int) -> Option<int> {
    if pair_at(s, i, '/', '*') {
        match block_close(s, i + 2) {
            Some(k) => Some(k + 2),
            None => None,
        }
    } else {
        None
    }
}

/// Reads a block comment. One that is never closed is not read.
pub fn c_multiline_comment(input: &[char], at: usize) -> (end: Option<usize>)
    ensures
        position(end) == c_multiline_comment_at(input@, at as int),
        end matches Some(e) ==> at + 4 <= e <= input.len(),
{
    if !pair(input, at, '/', '*') {
        return None;
    }
    let mut i: usize = at + 2;
    while i < input.len() && input.len() - i >= 2
        invariant
            at + 2 <= i <= input.len(),
            pair_at(input@, at as int, '/', '*'),
            block_close(input@, at + 2) == block_close(input@, i as int),
        decreases input.len() - i,
    {
        if input[i] == '*' && input[i + 1] == '/' {
            assert(block_close(input@, i as int) == Some(i as int));
            return Some(i + 2);
        }
        i += 1;
    }
    None
}

/// One piece of ignored text at `i`: whitespace, a line comment or a block
/// comment.
pub open spec fn ignored_piece_at(s: Seq<char>, i: int) -> Option<int> {
    if whitespace_at(s, i) is Some {
        whitespace_at(s, i)
    } else if c_comment_at(s, i) is Some {
        c_comment_at(s, i)
    } else {
        c_multiline_comment_at(s, i)
    }
}

/// The position behind all the ignored text that starts at `i`: pieces are
/// read one behind the other until none is found.
pub open spec fn ignored_end(s: Seq<char>, i: int) -> int
    decreases s.len() - i,
{
    match ignored_piece_at(s, i) {
        Some(j) => if i < j <= s.len() {
            ignored_end(s, j)
        } else {
            i
        },
        None => i,
    }
}

/// Reads all the whitespace and comments at `at`, none included. A position
/// behind the end of the source is returned as it is.
pub fn read_ignored(input: &[char], at: usize) -> (end: usize)
    ensures
        end == ignored_end(input@, at as int),
        at <= end,
        at <= input.len() ==> end <= input.len(),
{
    let mut i: usize = at;
    loop
        invariant
            at <= i,
            at <= input.len() ==> i <= input.len(),
            ignored_end(input@, at as int) == ignored_end(input@, i as int),
        ensures
            i == ignored_end(input@, at as int),
            at <= i,
            at <= input.len() ==> i <= input.len(),
        decreases input.len() - i,
    {
        let piece = match whitespace(input, i) {
            Some(e) => Some(e),
            None => match c_comment(input, i) {
                Some(e) => Some(e),
                None => c_multiline_comment(input, i),
            },
        };
        assert(position(piece) == ignored_piece_at(input@, i as int));
        match piece {
            Some(e) => {
                i = e;
            },
            None => {
                break ;
            },
        }
    }
    i
}

/// A character that an identifier may begin with: an ASCII letter, `_` or `-`.
pub open spec fn is_identifier_start(c: char) -> bool {
    is_letter(c) || c == '_' || c == '-'
}

/// An identifier: one character that may begin it, then ASCII letters and
/// digits as far as they go.
pub open spec fn identifier_at(s: Seq<char>, i: int) -> Option<int> {
    if 0 <= i < s.len() && is_identifier_start(s[i]) {
        Some(run_end(s, i + 1, Class::Alphanumeric))
    } else {
        None
    }
}

/// Reads an identifier. Its text stands between `at` and the position
/// returned.
pub fn identifier(input: &[char], at: usize) -> (end: Option<usize>)
    ensures
        position(end) == identifier_at(input@, at as int),
        end matches Some(e) ==> at < e <= input.len(),
{
    if at < input.len() && (letter(input[at]) || input[at] == '_' || input[at] == '-') {
        Some(skip_run(input, at + 1, Class::Alphanumeric))
    } else {
        None
    }
}

/// The segments that follow the first one of a path: each a `.` and an
/// identifier. A `.` that no identifier follows is not part of the path.
pub open spec fn path_tail_at(s: Seq<char>, i: int) -> (Seq<Seq<char>>, int)
    decreases s.len() - i,
{
    if 0 <= i < s.len() && s[i] == '.' {
        match identifier_at(s, i + 1) {
            Some(e) => if i + 1 < e <= s.len() {
                let rest = path_tail_at(s, e);
                (seq![s.subrange(i + 1, e)] + rest.0, rest.1)
            } else {
                (Seq::empty(), i)
            },
            None => (Seq::empty(), i),
        }
    } else {
        (Seq::empty(), i)
    }
}

/// A path: identifiers with a `.` between them, at least one.
pub open spec fn variable_at(s: Seq<char>, i: int) -> Option<(Seq<Seq<char>>, int)> {
    match identifier_at(s, i) {
        Some(e) => {
            let rest = path_tail_at(s, e);
            Some((seq![s.subrange(i, e)] + rest.0, rest.1))
        },
        None => None,
    }
}

/// Reads a path, and returns its segments.
pub fn variable(input: &[char], at: usize) -> (r: Option<(Vec<String>, usize)>)
    ensures
        match variable_at(input@, at as int) {
            Some((path, end)) => r matches Some((segments, e)) && texts(segments@) == path && e
                == end && at < e <= input.len() && segments.len() >= 1,
            None => r is None,
        },
{
    let first = match identifier(input, at) {
        Some(e) => e,
        None => {
            return None;
        },
    };
    let mut segments: Vec<String> = Vec::new();
    segments.push(text_of(slice_subrange(input, at, first)));
    assert(texts(segments@) == seq![input@.subrange(at as int, first as int)]);
    let mut i: usize = first;
    loop
        invariant
            at < i <= input.len(),
            segments.len() >= 1,
            variable_at(input@, at as int) == Some(
                (
                    texts(segments@) + path_tail_at(input@, i as int).0,
                    path_tail_at(input@, i as int).1,
                ),
            ),
        ensures
            at < i <= input.len(),
            segments.len() >= 1,
            variable_at(input@, at as int) == Some((texts(segments@), i as int)),
        decreases input.len() - i,
    {
        if !(i < input.len() && input[i] == '.') {
            assert(texts(segments@) + Seq::<Seq<char>>::empty() == texts(segments@));
            break ;
        }
        match identifier(input, i + 1) {
            Some(e) => {
                let ghost before = texts(segments@);
                let ghost tail = path_tail_at(input@, e as int);
                segments.push(text_of(slice_subrange(input, i + 1, e)));
                assert(texts(segments@) == before.push(input@.subrange(i + 1, e as int)));
                assert(texts(segments@) + tail.0 == before + (seq![
                    input@.subrange(i + 1, e as int),
                ] + tail.0));
                i = e;
            },
            None => {
                assert(texts(segments@) + Seq::<Seq<char>>::empty() == texts(segments@));
                break ;
            },
        }
    }
    Some((segments, i))
}

/// The character that an escape stands for, by the character behind the
/// backslash.
pub open spec fn escape_of(c: char) -> Option<char> {
    if c == 'n' {
        Some('\n')
    } else if c == 't' {
        Some('\t')
    } else if c == '\\' {
        Some('\\')
    } else if c == '"' {
        Some('"')
    } else {
        None
    }
}

/// The rest of an escape, the backslash read already: one of `n`, `t`, `\`
/// and `"`.
pub open spec fn escape_string_literal_at(s: Seq<char>, i: int) -> Option<(char, int)> {
    if 0 <= i < s.len() {
        match escape_of(s[i]) {
            Some(c) => Some((c, i + 1)),
            None => None,
        }
    } else {
        None
    }
}

/// Reads the rest of an escape, the backslash read already, and returns the
/// character that it stands for.
pub fn escape_string_literal(input: &[char], at: usize) -> (r: Option<(char, usize)>)
    ensures
        match escape_string_literal_at(input@, at as int) {
            Some((c, end)) => r == Some((c, end as usize)) && end == at + 1 && at < input.len(),
            None => r is None,
        },
{
    if at >= input.len() {
        return None;
    }
    let c = input[at];
    if c == 'n' {
        Some(('\n', at + 1))
    } else if c == 't' {
        Some(('\t', at + 1))
    } else if c == '\\' {
        Some(('\\', at + 1))
    } else if c == '"' {
        Some(('"', at + 1))
    } else {
        None
    }
}

/// `text` put before what `rest` holds.
pub open spec fn prefixed(text: Seq<char>, rest: Option<(Seq<char>, int)>) -> Option<
    (Seq<char>, int),
> {
    match rest {
        Some((tail, end)) => Some((text + tail, end)),
        None => None,
    }
}

/// The text of a string literal from `i` to the quote that closes it: each
/// character stands for itself, but for the escapes. Without a closing quote,
/// or with an escape that is none, there is no literal.
pub open spec fn literal_body_at(s: Seq<char>, i: int) -> Option<(Seq<char>, int)>
    decreases s.len() - i,
{
    if i < 0 || i >= s.len() {
        None
    } else if s[i] == '"' {
        Some((Seq::empty(), i + 1))
    } else if s[i] == '\\' {
        match escape_string_literal_at(s, i + 1) {
            Some((c, _)) => prefixed(seq![c], literal_body_at(s, i + 2)),
            None => None,
        }
    } else {
        prefixed(seq![s[i]], literal_body_at(s, i + 1))
    }
}

/// A string literal: a quote, the text, a quote.
pub open spec fn string_literal_at(s: Seq<char>, i: int) -> Option<(Seq<char>, int)> {
    if 0 <= i < s.len() && s[i] == '"' {
        literal_body_at(s, i + 1)
    } else {
        None
    }
}

/// Reads a string literal, and returns its text with the escapes resolved.
pub fn string_literal(input: &[char], at: usize) -> (r: Option<(String, usize)>)
    ensures
        match string_literal_at(input@, at as int) {
            Some((text, end)) => r matches Some((t, e)) && t@ == text && e == end && at + 2 <= e
                <= input.len(),
            None => r is None,
        },
{
    if !(at < input.len() && input[at] == '"') {
        return None;
    }
    let mut text: Vec<char> = Vec::new();
    let mut i: usize = at + 1;
    assert(prefixed(text@, literal_body_at(input@, i as int)) == literal_body_at(input@, i as int))
        by {
        match literal_body_at(input@, i as int) {
            Some((tail, end)) => {
                assert(text@ + tail == tail);
            },
            None => {},
        }
    }
    while i < input.len()
        invariant
            at < i <= input.len(),
            input@[at as int] == '"',
            string_literal_at(input@, at as int) == prefixed(
                text@,
                literal_body_at(input@, i as int),
            ),
        decreases input.len() - i,
    {
        let c = input[i];
        let ghost before = text@;
        if c == '"' {
            assert(before + Seq::<char>::empty() == before);
            return Some((text_of(text.as_slice()), i + 1));
        } else if c == '\\' {
            match escape_string_literal(input, i + 1) {
                Some((escaped, _)) => {
                    text.push(escaped);
                    proof {
                        match literal_body_at(input@, i + 2) {
                            Some((tail, end)) => {
                                assert(before.push(escaped) + tail == before + (seq![escaped]
                                    + tail));
                            },
                            None => {},
                        }
                    }
                    i += 2;
                },
                None => {
                    return None;
                },
            }
        } else {
            text.push(c);
            proof {
                match literal_body_at(input@, i + 1) {
                    Some((tail, end)) => {
                        assert(before.push(c) + tail == before + (seq![c] + tail));
                    },
                    None => {},
                }
            }
            i += 1;
        }
    }
    None
}

/// How deep scopes may nest. A `(` that would open a deeper one is not read.
pub const MAX_NESTING: usize = 128;

/// The word that begins a loop.
pub open spec fn foreach_word() -> Seq<char> {
    seq!['f', 'o', 'r', 'e', 'a', 'c', 'h']
}

/// Whether the word `foreach` stands at `i`.
pub open spec fn foreach_word_at(s: Seq<char>, i: int) -> bool {
    0 <= i && i + 7 <= s.len() && s.subrange(i, i + 7) == foreach_word()
}

/// Whether the word `foreach` stands at `at`.
fn foreach_word_here(input: &[char], at: usize) -> (r: bool)
    ensures
        r == foreach_word_at(input@, at as int),
        r ==> at + 7 <= input.len(),
{
    if at > input.len() || input.len() - at < 7 {
        return false;
    }
    let r = input[at] == 'f' && input[at + 1] == 'o' && input[at + 2] == 'r' && input[at + 3]
        == 'e' && input[at + 4] == 'a' && input[at + 5] == 'c' && input[at + 6] == 'h';
    proof {
        let word = input@.subrange(at as int, at + 7);
        if r {
            assert(word =~= foreach_word());
        } else {
            assert(word[0] == input@[at as int]);
            assert(word[1] == input@[at + 1]);
            assert(word[2] == input@[at + 2]);
            assert(word[3] == input@[at + 3]);
            assert(word[4] == input@[at + 4]);
            assert(word[5] == input@[at + 5]);
            assert(word[6] == input@[at + 6]);
        }
    }
    r
}

/// A scope in parentheses, `depth` levels of nesting being left: `(`, a
/// scope, `)`.
pub open spec fn surrounded_scope_at(s: Seq<char>, i: int, depth: nat) -> Option<
    (Seq<Element>, int),
>
    decreases s.len() - i, 0nat,
{
    if depth > 0 && 0 <= i < s.len() && s[i] == '(' {
        let inner = scope_at(s, i + 1, (depth - 1) as nat);
        if 0 <= inner.1 < s.len() && s[inner.1] == ')' {
            Some((inner.0, inner.1 + 1))
        } else {
            None
        }
    } else {
        None
    }
}

/// A loop: `foreach`, an identifier, `:`, a path and a scope in parentheses,
/// with ignored text between them where there is any. The element is the
/// loop's name, path and body.
pub open spec fn foreach_scope_at(s: Seq<char>, i: int, depth: nat) -> Option<(Element, int)>
    decreases s.len() - i, 1nat,
{
    if foreach_word_at(s, i) {
        let name = ignored_end(s, i + 7);
        match identifier_at(s, name) {
            Some(name_end) => {
                let colon = ignored_end(s, name_end);
                if 0 <= colon < s.len() && s[colon] == ':' {
                    match variable_at(s, ignored_end(s, colon + 1)) {
                        Some((path, path_end)) => {
                            let body = ignored_end(s, path_end);
                            if i < body <= s.len() {
                                match surrounded_scope_at(s, body, depth) {
                                    Some((elements, end)) => Some(
                                        (
                                            Element::Foreach(
                                                s.subrange(name, name_end),
                                                path,
                                                elements,
                                            ),
                                            end,
                                        ),
                                    ),
                                    None => None,
                                }
                            } else {
                                None
                            }
                        },
                        None => None,
                    }
                } else {
                    None
                }
            },
            None => None,
        }
    } else {
        None
    }
}

/// One element at `i`, the first of these that is found there: a scope in
/// parentheses, a loop, ignored text, a string literal, a path. Ignored text
/// is the element `Ignored`.
pub open spec fn element_at(s: Seq<char>, i: int, depth: nat) -> Option<(Element, int)>
    decreases s.len() - i, 2nat,
{
    match surrounded_scope_at(s, i, depth) {
        Some((elements, end)) => Some((Element::Scope(elements), end)),
        None => match foreach_scope_at(s, i, depth) {
            Some(each) => Some(each),
            None => if ignored_end(s, i) > i {
                Some((Element::Ignored, ignored_end(s, i)))
            } else {
                match string_literal_at(s, i) {
                    Some((text, end)) => Some((Element::Literal(text), end)),
                    None => match variable_at(s, i) {
                        Some((path, end)) => Some((Element::Variable(path), end)),
                        None => None,
                    },
                }
            },
        },
    }
}

/// The elements from `i` on, as far as one follows the other, without the
/// ignored text; and the position behind the last of them.
pub open spec fn scope_at(s: Seq<char>, i: int, depth: nat) -> (Seq<Element>, int)
    decreases s.len() - i, 3nat,
{
    match element_at(s, i, depth) {
        Some((element, next)) => if i < next <= s.len() {
            let rest = scope_at(s, next, depth);
            if element is Ignored {
                rest
            } else {
                (seq![element] + rest.0, rest.1)
            }
        } else {
            (Seq::empty(), i)
        },
        None => (Seq::empty(), i),
    }
}

/// The elements of a whole template: the scope at the start of the source,
/// which has to reach its end.
pub open spec fn template_of(s: Seq<char>) -> Option<Seq<Element>> {
    let all = scope_at(s, 0, MAX_NESTING as nat);
    if all.1 == s.len() {
        Some(all.0)
    } else {
        None
    }
}

/// Reads a scope in parentheses, `depth` levels of nesting being left, and
/// returns its elements.
pub fn surrounded_scope(input: &[char], at: usize, depth: usize) -> (r: Option<
    (Vec<TemplateElement>, usize),
>)
    ensures
        match surrounded_scope_at(input@, at as int, depth as nat) {
            Some((elements, end)) => r matches Some((found, e)) && elements_view(found@)
                == elements && e == end && at + 2 <= e <= input.len(),
            None => r is None,
        },
    decreases input.len() - at, 0nat,
{
    if !(depth > 0 && at < input.len() && input[at] == '(') {
        return None;
    }
    let (elements, end) = scope(input, at + 1, depth - 1);
    if end < input.len() && input[end] == ')' {
        Some((elements, end + 1))
    } else {
        None
    }
}

/// Reads a loop, `depth` levels of nesting being left.
pub fn foreach_scope(input: &[char], at: usize, depth: usize) -> (r: Option<(ForeachScope, usize)>)
    ensures
        match foreach_scope_at(input@, at as int, depth as nat) {
            Some((element, end)) => r matches Some((each, e)) && TemplateElement::Foreach(each)@
                == element && e == end && at < e <= input.len(),
            None => r is None,
        },
    decreases input.len() - at, 1nat,
{
    if !foreach_word_here(input, at) {
        return None;
    }
    let name = read_ignored(input, at + 7);
    let name_end = match identifier(input, name) {
        Some(e) => e,
        None => {
            return None;
        },
    };
    let colon = read_ignored(input, name_end);
    if !(colon < input.len() && input[colon] == ':') {
        return None;
    }
    let (variable, path_end) = match variable(input, read_ignored(input, colon + 1)) {
        Some(found) => found,
        None => {
            return None;
        },
    };
    let body = read_ignored(input, path_end);
    match surrounded_scope(input, body, depth) {
        Some((scope, end)) => {
            let value = text_of(slice_subrange(input, name, name_end));
            Some((ForeachScope { value, variable, scope }, end))
        },
        None => None,
    }
}

/// Reads one element, `depth` levels of nesting being left.
fn element(input: &[char], at: usize, depth: usize) -> (r: Option<(TemplateElement, usize)>)
    ensures
        match element_at(input@, at as int, depth as nat) {
            Some((element, end)) => r matches Some((found, e)) && found@ == element && e == end
                && at < e <= input.len(),
            None => r is None,
        },
    decreases input.len() - at, 2nat,
{
    match surrounded_scope(input, at, depth) {
        Some((elements, end)) => {
            return Some((TemplateElement::Scope(elements), end));
        },
        None => {},
    }
    match foreach_scope(input, at, depth) {
        Some((each, end)) => {
            return Some((TemplateElement::Foreach(each), end));
        },
        None => {},
    }
    let ignored = read_ignored(input, at);
    if ignored > at {
        return Some((TemplateElement::Ignored, ignored));
    }
    match string_literal(input, at) {
        Some((text, end)) => {
            return Some((TemplateElement::StringLiteral(text), end));
        },
        None => {},
    }
    match variable(input, at) {
        Some((path, end)) => Some((TemplateElement::Variable(path), end)),
        None => None,
    }
}

/// Reads the elements of a scope, `depth` levels of nesting being left: one
/// element behind the other until none is found. The parentheses around a
/// nested scope are read by `surrounded_scope`; this reads none of its own.
pub fn scope(input: &[char], at: usize, depth: usize) -> (r: (Vec<TemplateElement>, usize))
    ensures
        elements_view(r.0@) == scope_at(input@, at as int, depth as nat).0,
        r.1 == scope_at(input@, at as int, depth as nat).1,
        at <= r.1,
        at <= input.len() ==> r.1 <= input.len(),
    decreases input.len() - at, 3nat,
{
    let mut elements: Vec<TemplateElement> = Vec::new();
    let mut i: usize = at;
    assert(elements_view(elements@) == Seq::<Element>::empty());
    loop
        invariant
            at <= i,
            at <= input.len() ==> i <= input.len(),
            scope_at(input@, at as int, depth as nat) == (
                elements_view(elements@) + scope_at(input@, i as int, depth as nat).0,
                scope_at(input@, i as int, depth as nat).1,
            ),
        ensures
            at <= i,
            at <= input.len() ==> i <= input.len(),
            scope_at(input@, at as int, depth as nat) == (elements_view(elements@), i as int),
        decreases input.len() - i,
    {
        let ghost before = elements_view(elements@);
        match element(input, i, depth) {
            Some((found, next)) => {
                let ghost rest = scope_at(input@, next as int, depth as nat);
                let ghost found_view = found@;
                match found {
                    TemplateElement::Ignored => {},
                    found => {
                        elements.push(found);
                        assert(elements_view(elements@) == before.push(found_view));
                        assert(before.push(found_view) + rest.0 == before + (seq![found_view]
                            + rest.0));
                    },
                }
                i = next;
            },
            None => {
                assert(before + Seq::<Element>::empty() == before);
                break ;
            },
        }
    }
    (elements, i)
}

} // verus!
