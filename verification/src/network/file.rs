//! The outline of a network definition file: one structure without fields.
use vstd::prelude::*;
use crate::parser::util::{run_end, skip_run, Class};
use crate::text::{chars_of, is_white, word_at, word_here};

verus! {

/// A network definition file that was recognized. It holds nothing.
#[derive(Debug, PartialEq)]
pub struct NetworkFile {}

/// The position behind the white space at `i`.
pub open spec fn trim_at(s: Seq<char>, i: int) -> int {
    run_end(s, i, Class::White)
}

/// Skips the white space at `at`, none included.
pub fn trim(input: &[char], at: usize) -> (end: usize)
    ensures
        end == trim_at(input@, at as int),
        at <= end,
        at <= input.len() ==> end <= input.len(),
{
    skip_run(input, at, Class::White)
}

/// The position behind the white space at `i`, of which there is some.
pub open spec fn expect_space_at(s: Seq<char>, i: int) -> Option<int> {
    if 0 <= i < s.len() && is_white(s[i]) {
        Some(run_end(s, i, Class::White))
    } else {
        None
    }
}

/// Skips the white space at `at`, one character of it at least.
pub fn expect_space(input: &[char], at: usize) -> (end: Option<usize>)
    ensures
        match expect_space_at(input@, at as int) {
            Some(e) => end == Some(e as usize) && at < e <= input.len(),
            None => end is None,
        },
{
    if at < input.len() && Class::White.has(input[at]) {
        proof {
            crate::parser::util::lemma_run_end(input@, at + 1, Class::White);
        }
        Some(skip_run(input, at, Class::White))
    } else {
        None
    }
}

/// A file: the word `struct`, white space, a name of ASCII letters and `_`,
/// `{` and `}`, with white space between them where there is any.
pub open spec fn file_at(s: Seq<char>, i: int) -> Option<int> {
    if word_at(s, i, "struct"@) {
        match expect_space_at(s, i + "struct"@.len()) {
            Some(name) => {
                let name_end = run_end(s, name, Class::Word);
                let open = trim_at(s, name_end);
                if name_end > name && 0 <= open < s.len() && s[open] == '{' {
                    let close = trim_at(s, open + 1);
                    if 0 <= close < s.len() && s[close] == '}' {
                        Some(close + 1)
                    } else {
                        None
                    }
                } else {
                    None
                }
            },
            None => None,
        }
    } else {
        None
    }
}

/// Recognizes a file, and returns the position behind it.
pub fn parse(input: &[char], at: usize) -> (r: Option<(NetworkFile, usize)>)
    ensures
        match file_at(input@, at as int) {
            Some(end) => r matches Some((_, e)) && e == end && at < e <= input.len(),
            None => r is None,
        },
{
    let keyword = chars_of("struct");
    if !word_here(input, at, keyword.as_slice()) {
        return None;
    }
    let name = match expect_space(input, at + keyword.len()) {
        Some(name) => name,
        None => {
            return None;
        },
    };
    let name_end = skip_run(input, name, Class::Word);
    if name_end == name {
        return None;
    }
    let open = trim(input, name_end);
    if !(open < input.len() && input[open] == '{') {
        return None;
    }
    let close = trim(input, open + 1);
    if !(close < input.len() && input[close] == '}') {
        return None;
    }
    Some((NetworkFile {  }, close + 1))
}

} // verus!
