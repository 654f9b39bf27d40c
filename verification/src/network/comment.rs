//! Whitespace and comments of a network definition file, and the
//! documentation that comments carry.
use vstd::prelude::*;
use vstd::slice::slice_subrange;
use crate::parser::util::{block_close, pair, pair_at, run_end, skip_run, Class};
use crate::text::{chars_of, push_all, text_of, trim, trimmed};

verus! {

/// What stands between the elements of a file: whitespace or a comment.
#[derive(Debug, PartialEq)]
pub enum Comment {
    Whitespace,
    Singleline(String),
    Multiline(String),
    DocSingleline(String),
}

/// What a [`Comment`] stands for.
pub enum Remark {
    Whitespace,
    Singleline(Seq<char>),
    Multiline(Seq<char>),
    DocSingleline(Seq<char>),
}

impl View for Comment {
    type V = Remark;

    open spec fn view(&self) -> Remark {
        match self {
            Comment::Whitespace => Remark::Whitespace,
            Comment::Singleline(text) => Remark::Singleline(text@),
            Comment::Multiline(text) => Remark::Multiline(text@),
            Comment::DocSingleline(text) => Remark::DocSingleline(text@),
        }
    }
}

/// The comments of a sequence, each as what it stands for.
pub open spec fn remarks(comments: Seq<Comment>) -> Seq<Remark> {
    Seq::new(comments.len(), |i: int| comments[i]@)
}

/// The number of characters of `s` before its first line feed.
pub open spec fn first_feed(s: Seq<char>) -> nat
    decreases s.len(),
{
    if s.len() == 0 || s[0] == '\n' {
        0
    } else {
        1 + first_feed(s.drop_first())
    }
}

/// A line of a comment without the white space around it. With `stars`, a
/// `*` that begins the line, and the white space behind it, are left out too.
pub open spec fn clean(line: Seq<char>, stars: bool) -> Seq<char> {
    let text = trimmed(line);
    if stars && text.len() > 0 && text[0] == '*' {
        trimmed(text.drop_first())
    } else {
        text
    }
}

/// The lines of a comment, each cleaned, one behind the other with nothing
/// between them.
pub open spec fn cleaned_lines(s: Seq<char>, stars: bool) -> Seq<char>
    decreases s.len(),
{
    let n = first_feed(s);
    if n >= s.len() {
        clean(s, stars)
    } else {
        clean(s.take(n as int), stars) + cleaned_lines(s.skip(n as int + 1), stars)
    }
}

/// The documentation that a comment carries.
pub open spec fn documentation(remark: Remark) -> Option<Seq<char>> {
    match remark {
        Remark::Whitespace => None,
        Remark::Singleline(text) => Some(trimmed(text)),
        Remark::Multiline(text) => Some(cleaned_lines(text, true)),
        Remark::DocSingleline(text) => Some(cleaned_lines(text, false)),
    }
}

/// Appends a cleaned line to `out`.
fn push_clean(out: &mut Vec<char>, line: &[char], stars: bool)
    ensures
        final(out)@ == old(out)@ + clean(line@, stars),
{
    let (start, end) = trim(line);
    let text = slice_subrange(line, start, end);
    if stars && text.len() > 0 && text[0] == '*' {
        let rest = slice_subrange(text, 1, text.len());
        assert(rest@ == text@.drop_first());
        let (from, to) = trim(rest);
        push_all(out, slice_subrange(rest, from, to));
    } else {
        push_all(out, text);
    }
}

/// The lines of `text`, each cleaned, one behind the other.
fn clean_lines(text: &[char], stars: bool) -> (out: Vec<char>)
    ensures
        out@ == cleaned_lines(text@, stars),
{
    let mut out: Vec<char> = Vec::new();
    let mut i: usize = 0;
    assert(text@.skip(0) == text@);
    assert(out@ + cleaned_lines(text@, stars) == cleaned_lines(text@, stars));
    loop
        invariant_except_break
            i <= text.len(),
            cleaned_lines(text@, stars) == out@ + cleaned_lines(text@.skip(i as int), stars),
        ensures
            out@ == cleaned_lines(text@, stars),
        decreases text.len() - i,
    {
        let ghost rest = text@.skip(i as int);
        let mut j: usize = i;
        assert(text@.skip(j as int) == rest);
        while j < text.len() && text[j] != '\n'
            invariant
                i <= j <= text.len(),
                first_feed(rest) == (j - i) + first_feed(text@.skip(j as int)),
                rest == text@.skip(i as int),
            decreases text.len() - j,
        {
            assert(text@.skip(j as int).drop_first() == text@.skip(j + 1));
            j += 1;
        }
        assert(first_feed(rest) == j - i) by {
            if j < text.len() {
                assert(text@.skip(j as int)[0] == '\n');
            }
        }
        let line = slice_subrange(text, i, j);
        let ghost before = out@;
        push_clean(&mut out, line, stars);
        if j >= text.len() {
            assert(line@ == rest);
            break ;
        }
        proof {
            assert(line@ == rest.take(j - i));
            assert(rest.skip(j - i + 1) == text@.skip(j + 1));
            let tail = cleaned_lines(text@.skip(j + 1), stars);
            assert((before + clean(line@, stars)) + tail == before + (clean(line@, stars) + tail));
        }
        i = j + 1;
    }
    out
}

/// Whitespace as a comment: it may be empty.
pub open spec fn whitespace_at(s: Seq<char>, i: int) -> (Remark, int) {
    (Remark::Whitespace, run_end(s, i, Class::Space))
}

/// A line comment: `//`, the rest of the line, which is its text, and the
/// line breaks that end it.
pub open spec fn c_comment_at(s: Seq<char>, i: int) -> Option<(Remark, int)> {
    if pair_at(s, i, '/', '/') {
        let line = run_end(s, i + 2, Class::LineText);
        Some((Remark::Singleline(s.subrange(i + 2, line)), run_end(s, line, Class::LineBreak)))
    } else {
        None
    }
}

/// A documentation comment: `///` and the rest of the line, which is its
/// text and is not empty. The line break is no part of it.
pub open spec fn c_comment_docs_at(s: Seq<char>, i: int) -> Option<(Remark, int)> {
    if pair_at(s, i, '/', '/') && i + 2 < s.len() && s[i + 2] == '/' && run_end(
        s,
        i + 3,
        Class::LineText,
    ) > i + 3 {
        let line = run_end(s, i + 3, Class::LineText);
        Some((Remark::DocSingleline(s.subrange(i + 3, line)), line))
    } else {
        None
    }
}

/// A block comment: `/*`, its text, and the first `*/` behind that.
pub open spec fn c_multiline_comment_at(s: Seq<char>, i: int) -> Option<(Remark, int)> {
    if pair_at(s, i, '/', '*') {
        match block_close(s, i + 2) {
            Some(k) => Some((Remark::Multiline(s.subrange(i + 2, k)), k + 2)),
            None => None,
        }
    } else {
        None
    }
}

/// One piece at `i`, the first of these that is found there and is not
/// empty: whitespace, a documentation comment, a line comment, a block
/// comment.
pub open spec fn piece_at(s: Seq<char>, i: int) -> Option<(Remark, int)> {
    if whitespace_at(s, i).1 > i {
        Some(whitespace_at(s, i))
    } else if c_comment_docs_at(s, i) is Some {
        c_comment_docs_at(s, i)
    } else if c_comment_at(s, i) is Some {
        c_comment_at(s, i)
    } else {
        c_multiline_comment_at(s, i)
    }
}

/// The pieces from `i` on, one behind the other, and the position behind the
/// last of them.
pub open spec fn pieces_at(s: Seq<char>, i: int) -> (Seq<Remark>, int)
    decreases s.len() - i,
{
    match piece_at(s, i) {
        Some((piece, next)) => if i < next <= s.len() {
            let rest = pieces_at(s, next);
            (seq![piece] + rest.0, rest.1)
        } else {
            (Seq::empty(), i)
        },
        None => (Seq::empty(), i),
    }
}

/// The one comment that a run of pieces amounts to. The pieces are read from
/// the last to the first, `docs` being the documentation lines read so far:
/// a block comment ends the reading, and so does a line comment once
/// documentation was read; documentation lines are gathered.
pub open spec fn summary(pieces: Seq<Remark>, docs: Option<Seq<char>>) -> Remark
    decreases pieces.len(),
{
    if pieces.len() == 0 {
        match docs {
            Some(lines) => Remark::DocSingleline(lines),
            None => Remark::Whitespace,
        }
    } else {
        let rest = pieces.drop_last();
        match (pieces.last(), docs) {
            (Remark::Multiline(text), None) => Remark::Multiline(text),
            (Remark::DocSingleline(text), None) => summary(rest, Some(text)),
            (Remark::Singleline(_), Some(lines)) => Remark::DocSingleline(lines),
            (Remark::Multiline(_), Some(lines)) => Remark::Multiline(lines),
            (Remark::DocSingleline(text), Some(lines)) => summary(rest, Some(lines + text)),
            _ => summary(rest, docs),
        }
    }
}

/// All the whitespace and comments at `i` as one comment, and the position
/// behind them.
pub open spec fn comment_at(s: Seq<char>, i: int) -> (Remark, int) {
    (summary(pieces_at(s, i).0, None), pieces_at(s, i).1)
}

/// The position behind all the whitespace and comments at `i`.
pub open spec fn comment_end(s: Seq<char>, i: int) -> int {
    pieces_at(s, i).1
}

impl Comment {
    /// The documentation that the comment carries: its text without the
    /// white space around its lines. Whitespace carries none.
    pub fn read_comment(&self) -> (r: Option<String>)
        ensures
            match documentation(self@) {
                Some(text) => r matches Some(found) && found@ == text,
                None => r is None,
            },
    {
        match self {
            Comment::Whitespace => None,
            Comment::Singleline(text) => {
                let chars = chars_of(text.as_str());
                let (start, end) = trim(chars.as_slice());
                Some(text_of(slice_subrange(chars.as_slice(), start, end)))
            },
            Comment::Multiline(text) => {
                let chars = chars_of(text.as_str());
                let lines = clean_lines(chars.as_slice(), true);
                Some(text_of(lines.as_slice()))
            },
            Comment::DocSingleline(text) => {
                let chars = chars_of(text.as_str());
                let lines = clean_lines(chars.as_slice(), false);
                Some(text_of(lines.as_slice()))
            },
        }
    }

    /// Reads whitespace, none included.
    pub fn whitespace(input: &[char], at: usize) -> (r: (Comment, usize))
        ensures
            (r.0@, r.1 as int) == whitespace_at(input@, at as int),
            at <= r.1,
            at <= input.len() ==> r.1 <= input.len(),
    {
        (Comment::Whitespace, skip_run(input, at, Class::Space))
    }

    /// Reads a line comment.
    pub fn c_comment(input: &[char], at: usize) -> (r: Option<(Comment, usize)>)
        ensures
            match c_comment_at(input@, at as int) {
                Some((remark, end)) => r matches Some((found, e)) && found@ == remark && e == end
                    && at + 2 <= e <= input.len(),
                None => r is None,
            },
    {
        if !pair(input, at, '/', '/') {
            return None;
        }
        let line = skip_run(input, at + 2, Class::LineText);
        let text = text_of(slice_subrange(input, at + 2, line));
        Some((Comment::Singleline(text), skip_run(input, line, Class::LineBreak)))
    }

    /// Reads a documentation comment.
    pub fn c_comment_docs(input: &[char], at: usize) -> (r: Option<(Comment, usize)>)
        ensures
            match c_comment_docs_at(input@, at as int) {
                Some((remark, end)) => r matches Some((found, e)) && found@ == remark && e == end
                    && at + 4 <= e <= input.len(),
                None => r is None,
            },
    {
        if !(pair(input, at, '/', '/') && at + 2 < input.len() && input[at + 2] == '/') {
            return None;
        }
        let line = skip_run(input, at + 3, Class::LineText);
        if line == at + 3 {
            return None;
        }
        let text = text_of(slice_subrange(input, at + 3, line));
        Some((Comment::DocSingleline(text), line))
    }

    /// Reads a block comment. One that is never closed is not read.
    pub fn c_multiline_comment(input: &[char], at: usize) -> (r: Option<(Comment, usize)>)
        ensures
            match c_multiline_comment_at(input@, at as int) {
                Some((remark, end)) => r matches Some((found, e)) && found@ == remark && e == end
                    && at + 4 <= e <= input.len(),
                None => r is None,
            },
    {
        if !pair(input, at, '/', '*') {
            return None;
        }
        let mut i: usize = at + 2;
        while i < input.len() && input.len() - i >= 2
            invariant
                at + 2 <= i <= input.len(),
                pair_at(input@, at as int, '/', '*'),
                block_close(input@, at + 2) == block_close(input@, i as int),
            decreases input.len() - i,
        {
            if input[i] == '*' && input[i + 1] == '/' {
                assert(block_close(input@, i as int) == Some(i as int));
                let text = text_of(slice_subrange(input, at + 2, i));
                return Some((Comment::Multiline(text), i + 2));
            }
            i += 1;
        }
        None
    }

    /// Reads one piece of whitespace or comment, which is not empty.
    fn piece(input: &[char], at: usize) -> (r: Option<(Comment, usize)>)
        ensures
            match piece_at(input@, at as int) {
                Some((remark, end)) => r matches Some((found, e)) && found@ == remark && e == end
                    && at < e <= input.len(),
                None => r is None,
            },
    {
        let (space, end) = Comment::whitespace(input, at);
        if end > at {
            return Some((space, end));
        }
        match Comment::c_comment_docs(input, at) {
            Some(found) => {
                return Some(found);
            },
            None => {},
        }
        match Comment::c_comment(input, at) {
            Some(found) => {
                return Some(found);
            },
            None => {},
        }
        Comment::c_multiline_comment(input, at)
    }

    /// Reads all the whitespace and comments at `at`, and returns the one
    /// comment that they amount to: the documentation of what follows, where
    /// there is any.
    pub fn parse(input: &[char], at: usize) -> (r: (Comment, usize))
        ensures
            (r.0@, r.1 as int) == comment_at(input@, at as int),
            r.1 == comment_end(input@, at as int),
            at <= r.1,
            at <= input.len() ==> r.1 <= input.len(),
    {
        let mut comments: Vec<Comment> = Vec::new();
        let mut i: usize = at;
        assert(remarks(comments@) + pieces_at(input@, at as int).0 == pieces_at(
            input@,
            at as int,
        ).0);
        loop
            invariant
                at <= i,
                at <= input.len() ==> i <= input.len(),
                pieces_at(input@, at as int) == (
                    remarks(comments@) + pieces_at(input@, i as int).0,
                    pieces_at(input@, i as int).1,
                ),
            ensures
                at <= i,
                at <= input.len() ==> i <= input.len(),
                pieces_at(input@, at as int) == (remarks(comments@), i as int),
            decreases input.len() - i,
        {
            let ghost before = remarks(comments@);
            match Comment::piece(input, i) {
                Some((found, next)) => {
                    let ghost rest = pieces_at(input@, next as int);
                    let ghost remark = found@;
                    comments.push(found);
                    assert(remarks(comments@) == before.push(remark));
                    assert(before.push(remark) + rest.0 == before + (seq![remark] + rest.0));
                    i = next;
                },
                None => {
                    assert(before + Seq::<Remark>::empty() == before);
                    break ;
                },
            }
        }
        let ghost all = remarks(comments@);
        let mut docs: Option<Vec<char>> = None;
        loop
            invariant
                at <= i,
                at <= input.len() ==> i <= input.len(),
                pieces_at(input@, at as int) == (all, i as int),
                summary(all, None) == summary(
                    remarks(comments@),
                    match docs {
                        Some(lines) => Some(lines@),
                        None => None,
                    },
                ),
            ensures
                comments.len() == 0,
                summary(all, None) == summary(
                    Seq::empty(),
                    match docs {
                        Some(lines) => Some(lines@),
                        None => None,
                    },
                ),
            decreases comments.len(),
        {
            let ghost pieces = remarks(comments@);
            let last = match comments.pop() {
                Some(last) => last,
                None => {
                    assert(pieces == Seq::<Remark>::empty());
                    break ;
                },
            };
            assert(remarks(comments@) == pieces.drop_last());
            assert(last@ == pieces.last());
            match last {
                Comment::Multiline(text) => match docs {
                    None => {
                        return (Comment::Multiline(text), i);
                    },
                    Some(lines) => {
                        return (Comment::Multiline(text_of(lines.as_slice())), i);
                    },
                },
                Comment::DocSingleline(text) => {
                    let chars = chars_of(text.as_str());
                    match docs {
                        None => {
                            docs = Some(chars);
                        },
                        Some(lines) => {
                            let mut lines = lines;
                            push_all(&mut lines, chars.as_slice());
                            docs = Some(lines);
                        },
                    }
                },
                Comment::Singleline(_) => match docs {
                    Some(lines) => {
                        return (Comment::DocSingleline(text_of(lines.as_slice())), i);
                    },
                    None => {},
                },
                Comment::Whitespace => {},
            }
        }
        match docs {
            Some(lines) => (Comment::DocSingleline(text_of(lines.as_slice())), i),
            None => (Comment::Whitespace, i),
        }
    }
}

} // verus!
