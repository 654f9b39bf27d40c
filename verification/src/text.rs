//! Characters, strings and decimal numbers: the small vocabulary that the
//! rest of the crate is written in.
//!
//! Strings are handled as sequences of characters. [`chars_of`] and
//! [`text_of`] move between `str` and character vectors; everything else
//! works on the vectors.
use vstd::prelude::*;

verus! {

/// `String::push` appends exactly one character to the end of the string.
pub assume_specification[ std::string::String::push ](s: &mut std::string::String, c: char)
    ensures
        final(s)@ == old(s)@.push(c),
;

/// The characters of `s`, in order.
pub fn chars_of(s: &str) -> (out: Vec<char>)
    ensures
        out@ == s@,
{
    let mut out: Vec<char> = Vec::new();
    for c in it: s.chars()
        invariant
            out@ == it.seq().take(it.index() as int),
            it.seq() == s@,
    {
        out.push(c);
    }
    out
}

/// The string made of `chars`, in order.
pub fn text_of(chars: &[char]) -> (out: String)
    ensures
        out@ == chars@,
{
    let mut out = String::new();
    let mut i: usize = 0;
    while i < chars.len()
        invariant
            i <= chars.len(),
            out@ == chars@.take(i as int),
        decreases chars.len() - i,
    {
        out.push(chars[i]);
        i += 1;
    }
    assert(chars@.take(i as int) == chars@);
    out
}

/// Appends the characters of `tail` to `out`.
pub fn push_all(out: &mut Vec<char>, tail: &[char])
    ensures
        final(out)@ == old(out)@ + tail@,
{
    let mut i: usize = 0;
    while i < tail.len()
        invariant
            i <= tail.len(),
            out@ == old(out)@ + tail@.take(i as int),
        decreases tail.len() - i,
    {
        out.push(tail[i]);
        i += 1;
    }
    assert(tail@.take(i as int) == tail@);
}

/// Whether two character slices hold the same text.
pub fn same_text(a: &[char], b: &[char]) -> (r: bool)
    ensures
        r == (a@ == b@),
{
    if a.len() != b.len() {
        return false;
    }
    let mut i: usize = 0;
    while i < a.len()
        invariant
            i <= a.len(),
            a.len() == b.len(),
            a@.take(i as int) == b@.take(i as int),
        decreases a.len() - i,
    {
        if a[i] != b[i] {
            assert(a@[i as int] != b@[i as int]);
            return false;
        }
        assert(a@.take(i + 1) == a@.take(i as int).push(a@[i as int]));
        assert(b@.take(i + 1) == b@.take(i as int).push(b@[i as int]));
        i += 1;
    }
    assert(a@.take(i as int) == a@);
    assert(b@.take(i as int) == b@);
    true
}

/// `'0'..='9'`.
pub open spec fn is_digit(c: char) -> bool {
    '0' <= c && c <= '9'
}

/// `'a'..='z'`.
pub open spec fn is_lower(c: char) -> bool {
    'a' <= c && c <= 'z'
}

/// `'A'..='Z'`.
pub open spec fn is_upper(c: char) -> bool {
    'A' <= c && c <= 'Z'
}

/// An ASCII letter.
pub open spec fn is_letter(c: char) -> bool {
    is_lower(c) || is_upper(c)
}

/// An ASCII letter or digit.
pub open spec fn is_alphanumeric(c: char) -> bool {
    is_letter(c) || is_digit(c)
}

/// Space, tab, carriage return or line feed.
pub open spec fn is_space(c: char) -> bool {
    c == ' ' || c == '\t' || c == '\r' || c == '\n'
}

/// Carriage return or line feed.
pub open spec fn is_line_break(c: char) -> bool {
    c == '\r' || c == '\n'
}

#[verifier::when_used_as_spec(is_digit)]
pub fn digit(c: char) -> (r: bool)
    ensures
        r == is_digit(c),
{
    '0' <= c && c <= '9'
}

#[verifier::when_used_as_spec(is_lower)]
pub fn lower(c: char) -> (r: bool)
    ensures
        r == is_lower(c),
{
    'a' <= c && c <= 'z'
}

#[verifier::when_used_as_spec(is_upper)]
pub fn upper(c: char) -> (r: bool)
    ensures
        r == is_upper(c),
{
    'A' <= c && c <= 'Z'
}

#[verifier::when_used_as_spec(is_letter)]
pub fn letter(c: char) -> (r: bool)
    ensures
        r == is_letter(c),
{
    lower(c) || upper(c)
}

#[verifier::when_used_as_spec(is_alphanumeric)]
pub fn alphanumeric(c: char) -> (r: bool)
    ensures
        r == is_alphanumeric(c),
{
    letter(c) || digit(c)
}

#[verifier::when_used_as_spec(is_space)]
pub fn space(c: char) -> (r: bool)
    ensures
        r == is_space(c),
{
    c == ' ' || c == '\t' || c == '\r' || c == '\n'
}

#[verifier::when_used_as_spec(is_line_break)]
pub fn line_break(c: char) -> (r: bool)
    ensures
        r == is_line_break(c),
{
    c == '\r' || c == '\n'
}

/// The lower-case form of an ASCII letter; any other character is itself.
pub open spec fn to_lower(c: char) -> char {
    if is_upper(c) {
        ((c as u8) + 32) as char
    } else {
        c
    }
}

/// The upper-case form of an ASCII letter; any other character is itself.
pub open spec fn to_upper(c: char) -> char {
    if is_lower(c) {
        ((c as u8) - 32) as char
    } else {
        c
    }
}

#[verifier::when_used_as_spec(to_lower)]
pub fn lowered(c: char) -> (r: char)
    ensures
        r == to_lower(c),
{
    if upper(c) {
        ((c as u8) + 32) as char
    } else {
        c
    }
}

#[verifier::when_used_as_spec(to_upper)]
pub fn raised(c: char) -> (r: char)
    ensures
        r == to_upper(c),
{
    if lower(c) {
        ((c as u8) - 32) as char
    } else {
        c
    }
}

/// The character that writes the digit `d`, for `d < 10`.
pub open spec fn digit_char(d: nat) -> char {
    (('0' as u8) + d) as char
}

/// The number that a digit character writes.
pub open spec fn digit_value(c: char) -> nat {
    (c as u8 - '0' as u8) as nat
}

/// `n` in decimal, without sign and without leading zeros.
pub open spec fn decimal(n: nat) -> Seq<char>
    decreases n,
{
    if n < 10 {
        seq![digit_char(n)]
    } else {
        decimal(n / 10).push(digit_char(n % 10))
    }
}

/// `n` in decimal, with a leading `-` when it is negative.
pub open spec fn signed_decimal(n: int) -> Seq<char> {
    if n < 0 {
        seq!['-'] + decimal((-n) as nat)
    } else {
        decimal(n as nat)
    }
}

/// Whether every character of `s` is a digit.
pub open spec fn all_digits(s: Seq<char>) -> bool {
    forall|i: int| 0 <= i < s.len() ==> is_digit(#[trigger] s[i])
}

/// The number that a run of digits writes in decimal; 0 for the empty run.
pub open spec fn digits_value(s: Seq<char>) -> nat
    decreases s.len(),
{
    if s.len() == 0 {
        0
    } else {
        digits_value(s.drop_last()) * 10 + digit_value(s.last())
    }
}

/// The index that a path segment names: one or more digits, which an
/// optional `+` may precede. Anything else names no index.
pub open spec fn index_of(s: Seq<char>) -> Option<nat> {
    let body = if s.len() > 0 && s[0] == '+' {
        s.drop_first()
    } else {
        s
    };
    if body.len() > 0 && all_digits(body) {
        Some(digits_value(body))
    } else {
        None
    }
}

/// A number in decimal is a run of digits that writes the number: reading is
/// the inverse of writing, and two numbers are never written alike.
pub proof fn lemma_decimal_reads_back(n: nat)
    ensures
        decimal(n).len() > 0,
        all_digits(decimal(n)),
        digits_value(decimal(n)) == n,
        index_of(decimal(n)) == Some(n),
    decreases n,
{
    let written = decimal(n);
    if n < 10 {
        assert(written =~= seq![digit_char(n)]);
        assert(written.drop_last() =~= Seq::<char>::empty());
        assert(digits_value(written.drop_last()) == 0);
    } else {
        lemma_decimal_reads_back(n / 10);
        assert(written.drop_last() =~= decimal(n / 10));
        assert forall|i: int| 0 <= i < written.len() implies is_digit(#[trigger] written[i]) by {
            if i < written.len() - 1 {
                assert(written[i] == decimal(n / 10)[i]);
            }
        }
    }
    assert(is_digit(written[0]));
    assert(written[0] != '+');
}

/// Appends `n` in decimal to `out`.
pub fn push_decimal(out: &mut Vec<char>, n: u128)
    ensures
        final(out)@ == old(out)@ + decimal(n as nat),
    decreases n,
{
    if n < 10 {
        out.push((('0' as u8) + (n as u8)) as char);
        assert(out@ == old(out)@ + decimal(n as nat));
    } else {
        push_decimal(out, n / 10);
        out.push((('0' as u8) + ((n % 10) as u8)) as char);
        assert(out@ == old(out)@ + decimal(n as nat));
    }
}

/// Appends `n` in decimal to `out`, with its sign when it is negative.
pub fn push_signed_decimal(out: &mut Vec<char>, n: i128)
    ensures
        final(out)@ == old(out)@ + signed_decimal(n as int),
{
    if n < 0 {
        out.push('-');
        let magnitude: u128 = ((-(n + 1)) as u128) + 1;
        push_decimal(out, magnitude);
        assert(out@ == old(out)@ + signed_decimal(n as int));
    } else {
        push_decimal(out, n as u128);
    }
}

/// Reads a path segment as an index. `None` when the segment names no index
/// or names one that no `usize` holds.
pub fn parse_index(segment: &[char]) -> (r: Option<usize>)
    ensures
        r == match index_of(segment@) {
            Some(n) => if n <= usize::MAX {
                Some(n as usize)
            } else {
                None
            },
            None => None,
        },
{
    let start: usize = if segment.len() > 0 && segment[0] == '+' {
        1
    } else {
        0
    };
    let ghost body = segment@.subrange(start as int, segment.len() as int);
    assert(body == if segment@.len() > 0 && segment@[0] == '+' {
        segment@.drop_first()
    } else {
        segment@
    });
    if start == segment.len() {
        return None;
    }
    let mut value: usize = 0;
    let mut fits: bool = true;
    let mut i: usize = start;
    while i < segment.len()
        invariant
            start <= i <= segment.len(),
            body == segment@.subrange(start as int, segment.len() as int),
            body == if segment@.len() > 0 && segment@[0] == '+' {
                segment@.drop_first()
            } else {
                segment@
            },
            all_digits(body.take(i - start)),
            fits ==> value == digits_value(body.take(i - start)),
            !fits ==> digits_value(body.take(i - start)) > usize::MAX,
        decreases segment.len() - i,
    {
        let c = segment[i];
        let ghost before = body.take(i - start);
        let ghost after = body.take(i + 1 - start);
        assert(after.drop_last() == before);
        assert(after.last() == c);
        if !digit(c) {
            assert(body[i - start] == c);
            assert(!all_digits(body));
            return None;
        }
        assert(all_digits(after)) by {
            assert forall|k: int| 0 <= k < after.len() implies is_digit(#[trigger] after[k]) by {
                if k < before.len() {
                    assert(after[k] == before[k]);
                }
            }
        }
        let d: usize = (c as u8 - '0' as u8) as usize;
        if fits {
            match value.checked_mul(10) {
                Some(scaled) => match scaled.checked_add(d) {
                    Some(next) => {
                        value = next;
                    },
                    None => {
                        fits = false;
                    },
                },
                None => {
                    fits = false;
                },
            }
        }
        i += 1;
    }
    assert(body.take(i - start) == body);
    if fits {
        Some(value)
    } else {
        None
    }
}

/// The segments of a path, each as its characters.
pub open spec fn texts(parts: Seq<String>) -> Seq<Seq<char>> {
    Seq::new(parts.len(), |i: int| parts[i]@)
}

/// The parts in order, with `separator` between one and the next.
pub open spec fn join(parts: Seq<Seq<char>>, separator: Seq<char>) -> Seq<char>
    decreases parts.len(),
{
    if parts.len() == 0 {
        Seq::empty()
    } else if parts.len() == 1 {
        parts[0]
    } else {
        join(parts.drop_last(), separator) + separator + parts.last()
    }
}

/// Appends the parts to `out`, with `separator` between one and the next.
pub fn push_joined(out: &mut Vec<char>, parts: &Vec<String>, separator: &[char])
    ensures
        final(out)@ == old(out)@ + join(texts(parts@), separator@),
{
    let ghost whole = texts(parts@);
    let mut i: usize = 0;
    assert(whole.take(0) == Seq::<Seq<char>>::empty());
    assert(out@ == old(out)@ + Seq::<char>::empty());
    while i < parts.len()
        invariant
            i <= parts.len(),
            whole == texts(parts@),
            out@ == old(out)@ + join(whole.take(i as int), separator@),
        decreases parts.len() - i,
    {
        let ghost before = whole.take(i as int);
        let ghost now = whole.take(i + 1);
        assert(now.drop_last() == before);
        assert(now.last() == parts[i as int]@);
        let ghost start = out@;
        if i > 0 {
            push_all(out, separator);
        }
        let part = chars_of(parts[i].as_str());
        push_all(out, part.as_slice());
        proof {
            if i > 0 {
                assert(out@ == old(out)@ + (join(before, separator@) + separator@ + now.last()));
            } else {
                assert(join(before, separator@) == Seq::<char>::empty());
                assert(out@ == old(out)@ + now.last());
            }
        }
        i += 1;
    }
    assert(whole.take(i as int) == whole);
}

/// `s` with each ASCII letter in lower case.
pub open spec fn lower_all(s: Seq<char>) -> Seq<char> {
    Seq::new(s.len(), |i: int| to_lower(s[i]))
}

/// `s` with each ASCII letter in upper case.
pub open spec fn upper_all(s: Seq<char>) -> Seq<char> {
    Seq::new(s.len(), |i: int| to_upper(s[i]))
}

/// Puts each ASCII letter of `chars` in lower case.
pub fn lower_in_place(chars: &mut Vec<char>)
    ensures
        final(chars)@ == lower_all(old(chars)@),
{
    let mut i: usize = 0;
    while i < chars.len()
        invariant
            i <= chars.len(),
            chars.len() == old(chars).len(),
            forall|k: int| 0 <= k < i ==> chars[k] == to_lower(old(chars)[k]),
            forall|k: int| i <= k < chars.len() ==> chars[k] == old(chars)[k],
        decreases chars.len() - i,
    {
        let c = lowered(chars[i]);
        chars.set(i, c);
        i += 1;
    }
    assert(chars@ =~= lower_all(old(chars)@));
}

/// Puts each ASCII letter of `chars` in upper case.
pub fn upper_in_place(chars: &mut Vec<char>)
    ensures
        final(chars)@ == upper_all(old(chars)@),
{
    let mut i: usize = 0;
    while i < chars.len()
        invariant
            i <= chars.len(),
            chars.len() == old(chars).len(),
            forall|k: int| 0 <= k < i ==> chars[k] == to_upper(old(chars)[k]),
            forall|k: int| i <= k < chars.len() ==> chars[k] == old(chars)[k],
        decreases chars.len() - i,
    {
        let c = raised(chars[i]);
        chars.set(i, c);
        i += 1;
    }
    assert(chars@ =~= upper_all(old(chars)@));
}

/// Whether `c` is white space, as Unicode defines it.
pub open spec fn is_white(c: char) -> bool {
    ('\u{9}' <= c && c <= '\u{d}') || c == ' ' || c == '\u{85}' || c == '\u{a0}' || c
        == '\u{1680}' || ('\u{2000}' <= c && c <= '\u{200a}') || c == '\u{2028}' || c
        == '\u{2029}' || c == '\u{202f}' || c == '\u{205f}' || c == '\u{3000}'
}

/// Whether `c` is white space, as Unicode defines it.
#[verifier::when_used_as_spec(is_white)]
pub fn white(c: char) -> (r: bool)
    ensures
        r == is_white(c),
{
    ('\u{9}' <= c && c <= '\u{d}') || c == ' ' || c == '\u{85}' || c == '\u{a0}' || c
        == '\u{1680}' || ('\u{2000}' <= c && c <= '\u{200a}') || c == '\u{2028}' || c
        == '\u{2029}' || c == '\u{202f}' || c == '\u{205f}' || c == '\u{3000}'
}

/// The length of `s` without the white space at its end.
pub open spec fn trimmed_len(s: Seq<char>) -> nat
    decreases s.len(),
{
    if s.len() > 0 && is_white(s.last()) {
        trimmed_len(s.drop_last())
    } else {
        s.len()
    }
}

/// `s` without the white space at its end.
pub open spec fn trimmed_end(s: Seq<char>) -> Seq<char> {
    s.take(trimmed_len(s) as int)
}

/// What is cut from the end is white space, all of it, and no more of it is
/// left.
pub proof fn lemma_trimmed_end(s: Seq<char>)
    ensures
        trimmed_len(s) <= s.len(),
        forall|i: int| trimmed_len(s) <= i < s.len() ==> is_white(#[trigger] s[i]),
        trimmed_len(s) > 0 ==> !is_white(s[trimmed_len(s) - 1]),
    decreases s.len(),
{
    if s.len() > 0 && is_white(s.last()) {
        let head = s.drop_last();
        lemma_trimmed_end(head);
        assert forall|i: int| trimmed_len(s) <= i < s.len() implies is_white(
            #[trigger] s[i],
        ) by {
            if i < head.len() {
                assert(s[i] == head[i]);
            }
        }
        if trimmed_len(s) > 0 {
            assert(s[trimmed_len(s) - 1] == head[trimmed_len(head) - 1]);
        }
    }
}

/// The number of white-space characters at the start of `s`.
pub open spec fn white_start(s: Seq<char>) -> nat
    decreases s.len(),
{
    if s.len() > 0 && is_white(s[0]) {
        1 + white_start(s.drop_first())
    } else {
        0
    }
}

/// `s` without the white space at its start and at its end.
pub open spec fn trimmed(s: Seq<char>) -> Seq<char> {
    let tail = s.skip(white_start(s) as int);
    trimmed_end(tail)
}

/// Where `chars` stands without the white space at its start and at its end:
/// from the first position returned up to the second.
pub fn trim(chars: &[char]) -> (r: (usize, usize))
    ensures
        r.0 <= r.1 <= chars.len(),
        chars@.subrange(r.0 as int, r.1 as int) == trimmed(chars@),
{
    let mut start: usize = 0;
    assert(chars@.skip(0) == chars@);
    while start < chars.len() && white(chars[start])
        invariant
            start <= chars.len(),
            white_start(chars@) == start + white_start(chars@.skip(start as int)),
        decreases chars.len() - start,
    {
        assert(chars@.skip(start as int).drop_first() == chars@.skip(start + 1));
        start += 1;
    }
    let ghost tail = chars@.skip(start as int);
    assert(white_start(tail) == 0);
    let mut end: usize = chars.len();
    assert(tail.take(end - start) == tail);
    while end > start && white(chars[end - 1])
        invariant
            start <= end <= chars.len(),
            tail == chars@.skip(start as int),
            trimmed_len(tail) == trimmed_len(tail.take(end - start)),
        decreases end,
    {
        assert(tail.take(end - start).drop_last() == tail.take(end - 1 - start));
        assert(tail.take(end - start).last() == chars[end - 1]);
        end -= 1;
    }
    assert(end > start ==> tail.take(end - start).last() == chars[end - 1]);
    assert(chars@.subrange(start as int, end as int) == tail.take(end - start));
    (start, end)
}

/// Whether two strings hold the same text.
pub fn same_str(a: &str, b: &str) -> (r: bool)
    ensures
        r == (a@ == b@),
{
    let left = chars_of(a);
    let right = chars_of(b);
    same_text(left.as_slice(), right.as_slice())
}

/// Whether `word` stands in `s` at `i`.
pub open spec fn word_at(s: Seq<char>, i: int, word: Seq<char>) -> bool {
    0 <= i && i + word.len() <= s.len() && s.subrange(i, i + word.len()) == word
}

/// Whether `word` stands in `input` at `at`.
pub fn word_here(input: &[char], at: usize, word: &[char]) -> (r: bool)
    ensures
        r == word_at(input@, at as int, word@),
        r ==> at + word.len() <= input.len(),
{
    if at > input.len() || input.len() - at < word.len() {
        return false;
    }
    let ghost found = input@.subrange(at as int, at + word.len());
    let mut i: usize = 0;
    while i < word.len()
        invariant
            i <= word.len(),
            at + word.len() <= input.len(),
            found == input@.subrange(at as int, at + word.len()),
            forall|k: int| 0 <= k < i ==> found[k] == word[k],
        decreases word.len() - i,
    {
        if input[at + i] != word[i] {
            assert(found[i as int] != word[i as int]);
            return false;
        }
        i += 1;
    }
    assert(found =~= word@);
    true
}

} // verus!
