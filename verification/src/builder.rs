//! A string that is written piece by piece, and keeps track of the
//! indentation of what is written.
use vstd::prelude::*;
use vstd::string::StringExecFns;
use crate::text::{chars_of, lemma_trimmed_end, text_of, trimmed_end, trimmed_len, white};

verus! {

/// A text under construction, and the depth of its indentation in columns.
#[derive(Debug)]
pub struct StringBuilder {
    buffer: String,
    indent: usize,
}

impl StringBuilder {
    /// The text written so far.
    pub closed spec fn text(&self) -> Seq<char> {
        self.buffer@
    }

    /// The depth of the indentation.
    pub closed spec fn depth(&self) -> nat {
        self.indent as nat
    }

    /// A builder of no text, not indented.
    pub fn new() -> (r: StringBuilder)
        ensures
            r.text() == Seq::<char>::empty(),
            r.depth() == 0,
    {
        StringBuilder { buffer: String::new(), indent: 0 }
    }

    /// A builder that holds `value`, not indented.
    pub fn from(value: &str) -> (r: StringBuilder)
        ensures
            r.text() == value@,
            r.depth() == 0,
    {
        StringBuilder { buffer: value.to_string(), indent: 0 }
    }

    /// The text written.
    pub fn into(self) -> (r: String)
        ensures
            r@ == self.text(),
    {
        self.buffer
    }

    /// Indents what follows by four columns more.
    pub fn indent(&mut self)
        requires
            old(self).depth() + 4 <= usize::MAX,
        ensures
            final(self).depth() == old(self).depth() + 4,
            final(self).text() == old(self).text(),
    {
        self.indent += 4;
    }

    /// Indents what follows by four columns less.
    pub fn outdent(&mut self)
        requires
            old(self).depth() >= 4,
        ensures
            final(self).depth() == old(self).depth() - 4,
            final(self).text() == old(self).text(),
    {
        self.indent -= 4;
    }

    /// Writes `input` behind the text.
    pub fn write(&mut self, input: &str)
        ensures
            final(self).text() == old(self).text() + input@,
            final(self).depth() == old(self).depth(),
    {
        self.buffer.append(input);
    }

    /// Cuts the white space from the end of the text.
    pub fn trim_end(&mut self)
        ensures
            final(self).text() == trimmed_end(old(self).text()),
            final(self).depth() == old(self).depth(),
    {
        let chars = chars_of(self.buffer.as_str());
        let mut n: usize = chars.len();
        assert(chars@.take(n as int) == chars@);
        while n > 0 && white(chars[n - 1])
            invariant
                n <= chars.len(),
                trimmed_len(chars@) == trimmed_len(chars@.take(n as int)),
            decreases n,
        {
            assert(chars@.take(n as int).drop_last() == chars@.take(n - 1));
            n -= 1;
        }
        assert(n > 0 ==> chars@.take(n as int).last() == chars[n - 1]);
        let kept = vstd::slice::slice_subrange(chars.as_slice(), 0, n);
        self.buffer = text_of(kept);
    }

    /// Cuts the white space from the end of the text, and ends the text with a
    /// line feed.
    pub fn require_newline(&mut self)
        ensures
            final(self).text() == trimmed_end(old(self).text()).push('\n'),
            final(self).depth() == old(self).depth(),
    {
        self.trim_end();
        proof {
            lemma_trimmed_end(old(self).text());
        }
        let chars = chars_of(self.buffer.as_str());
        if chars.len() > 0 && chars[chars.len() - 1] == '\n' {
            return ;
        }
        self.buffer.push('\n');
    }

    /// Cuts the white space from the end of the text, and ends the text with a
    /// space.
    pub fn require_whitespace(&mut self)
        ensures
            final(self).text() == trimmed_end(old(self).text()).push(' '),
            final(self).depth() == old(self).depth(),
    {
        self.trim_end();
        proof {
            lemma_trimmed_end(old(self).text());
        }
        let chars = chars_of(self.buffer.as_str());
        if chars.len() > 0 && white(chars[chars.len() - 1]) {
            return ;
        }
        self.buffer.push(' ');
    }
}

impl std::ops::AddAssign<&str> for StringBuilder {
    /// Writes `rhs` behind the text.
    fn add_assign(&mut self, rhs: &str)
        ensures
            final(self).text() == old(self).text() + rhs@,
            final(self).depth() == old(self).depth(),
    {
        self.write(rhs);
    }
}

} // verus!
