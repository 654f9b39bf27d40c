//! Case styles of identifiers: an identifier is split into its words, and the
//! words are written in one of the usual styles.
use vstd::prelude::*;
use crate::text::{
    chars_of, is_letter, is_lower, is_upper, join, letter, lower, lower_all, lower_in_place,
    lowered, push_all, push_joined, raised, same_text, text_of, texts, to_lower, to_upper, upper,
    upper_all, upper_in_place,
};

verus! {

/// A character that parts two words of an identifier and belongs to neither:
/// one of `-`, `_`, `~`, `,`, `.` and the space.
pub open spec fn is_separator(c: char) -> bool {
    c == '-' || c == '_' || c == '~' || c == ',' || c == '.' || c == ' '
}

#[verifier::when_used_as_spec(is_separator)]
pub fn separator(c: char) -> (r: bool)
    ensures
        r == is_separator(c),
{
    c == '-' || c == '_' || c == '~' || c == ',' || c == '.' || c == ' '
}

/// Whether an identifier can be split: it holds ASCII letters and separators
/// alone.
pub open spec fn can_split(s: Seq<char>) -> bool {
    forall|i: int| 0 <= i < s.len() ==> is_letter(#[trigger] s[i]) || is_separator(s[i])
}

/// Whether a word begins at `i`: with an upper-case letter that stands behind
/// a lower-case letter or before one.
pub open spec fn starts_word(s: Seq<char>, i: int) -> bool {
    0 <= i < s.len() && is_upper(s[i]) && ((i > 0 && is_lower(s[i - 1])) || (i + 1 < s.len()
        && is_lower(s[i + 1])))
}

/// `word` as a sequence of words: none where it is empty.
pub open spec fn closed(word: Seq<char>) -> Seq<Seq<char>> {
    if word.len() > 0 {
        seq![word]
    } else {
        Seq::empty()
    }
}

/// The words from `i` on, `word` being what was read of the current one.
pub open spec fn words_from(s: Seq<char>, i: int, word: Seq<char>) -> Seq<Seq<char>>
    decreases s.len() - i,
{
    if i < 0 || i >= s.len() {
        closed(word)
    } else if is_separator(s[i]) {
        closed(word) + words_from(s, i + 1, Seq::empty())
    } else if starts_word(s, i) {
        closed(word) + words_from(s, i + 1, seq![s[i]])
    } else {
        words_from(s, i + 1, word.push(s[i]))
    }
}

/// The words of an identifier. Separators part words; so does an upper-case
/// letter next to a lower-case one, which begins a word.
pub open spec fn words_of(s: Seq<char>) -> Seq<Seq<char>> {
    words_from(s, 0, Seq::empty())
}

/// Whether each word is made of ASCII letters, one at least.
pub open spec fn are_words(words: Seq<Seq<char>>) -> bool {
    forall|i: int|
        0 <= i < words.len() ==> (#[trigger] words[i]).len() > 0 && forall|k: int|
            0 <= k < words[i].len() ==> is_letter(#[trigger] words[i][k])
}

/// The words of an identifier that can be split are words.
pub proof fn lemma_words_from(s: Seq<char>, i: int, word: Seq<char>)
    requires
        can_split(s),
        0 <= i <= s.len(),
        forall|k: int| 0 <= k < word.len() ==> is_letter(#[trigger] word[k]),
    ensures
        are_words(words_from(s, i, word)),
    decreases s.len() - i,
{
    if i < s.len() {
        if is_separator(s[i]) {
            lemma_words_from(s, i + 1, Seq::empty());
        } else if starts_word(s, i) {
            lemma_words_from(s, i + 1, seq![s[i]]);
        } else {
            lemma_words_from(s, i + 1, word.push(s[i]));
        }
    }
}

/// Whether an identifier can be split.
pub fn splits(identifier: &[char]) -> (r: bool)
    ensures
        r == can_split(identifier@),
{
    let mut i: usize = 0;
    while i < identifier.len()
        invariant
            i <= identifier.len(),
            forall|k: int|
                0 <= k < i ==> is_letter(#[trigger] identifier[k]) || is_separator(identifier[k]),
        decreases identifier.len() - i,
    {
        if !(letter(identifier[i]) || separator(identifier[i])) {
            return false;
        }
        i += 1;
    }
    true
}

/// Splits an identifier into its words.
pub fn split_words(identifier: &[char]) -> (r: Vec<String>)
    requires
        can_split(identifier@),
    ensures
        texts(r@) == words_of(identifier@),
        are_words(texts(r@)),
{
    let mut found: Vec<String> = Vec::new();
    let mut word: Vec<char> = Vec::new();
    let mut i: usize = 0;
    proof {
        lemma_words_from(identifier@, 0, Seq::empty());
        assert(texts(found@) + words_of(identifier@) == words_of(identifier@));
    }
    while i < identifier.len()
        invariant
            i <= identifier.len(),
            can_split(identifier@),
            words_of(identifier@) == texts(found@) + words_from(identifier@, i as int, word@),
        decreases identifier.len() - i,
    {
        let c = identifier[i];
        let begins = upper(c) && ((i > 0 && lower(identifier[i - 1])) || (i + 1 < identifier.len()
            && lower(identifier[i + 1])));
        assert(begins == starts_word(identifier@, i as int));
        let ghost before = texts(found@);
        let ghost current = word@;
        if separator(c) || begins {
            if word.len() > 0 {
                found.push(text_of(word.as_slice()));
                assert(texts(found@) == before.push(current));
            }
            word = Vec::new();
            if begins {
                word.push(c);
            }
            proof {
                let rest = words_from(identifier@, i + 1, word@);
                assert(texts(found@) + rest == before + (closed(current) + rest));
            }
        } else {
            word.push(c);
        }
        i += 1;
    }
    let ghost before = texts(found@);
    let ghost current = word@;
    if word.len() > 0 {
        found.push(text_of(word.as_slice()));
        assert(texts(found@) == before.push(current));
    }
    assert(texts(found@) == before + closed(current));
    found
}

/// `flatcase`: the words in lower case, nothing between them.
pub open spec fn flat_case(words: Seq<Seq<char>>) -> Seq<char> {
    lower_all(join(words, Seq::empty()))
}

/// `kebab-case`: the words in lower case, a `-` between them.
pub open spec fn kebab_case(words: Seq<Seq<char>>) -> Seq<char> {
    lower_all(join(words, seq!['-']))
}

/// `snake_case`: the words in lower case, a `_` between them.
pub open spec fn snake_case(words: Seq<Seq<char>>) -> Seq<char> {
    lower_all(join(words, seq!['_']))
}

/// `CONSTANT_CASE`: the words in upper case, a `_` between them.
pub open spec fn constant_case(words: Seq<Seq<char>>) -> Seq<char> {
    upper_all(join(words, seq!['_']))
}

/// A word in lower case but for its first letter, which is in upper case.
pub open spec fn capitalized(word: Seq<char>) -> Seq<char> {
    if word.len() == 0 {
        word
    } else {
        lower_all(word).update(0, to_upper(to_lower(word[0])))
    }
}

/// `PascalCase`: each of the words from number `from` on capitalized, nothing
/// between them.
pub open spec fn pascal_from(words: Seq<Seq<char>>, from: int) -> Seq<char>
    decreases words.len() - from,
{
    if from < 0 || from >= words.len() {
        Seq::empty()
    } else {
        capitalized(words[from]) + pascal_from(words, from + 1)
    }
}

/// `PascalCase`: each word capitalized, nothing between them.
pub open spec fn pascal_case(words: Seq<Seq<char>>) -> Seq<char> {
    pascal_from(words, 0)
}

/// `camelCase`: as `PascalCase`, the first letter in lower case.
pub open spec fn camel_case(words: Seq<Seq<char>>) -> Seq<char> {
    let pascal = pascal_case(words);
    if pascal.len() == 0 {
        pascal
    } else {
        pascal.update(0, to_lower(pascal[0]))
    }
}

/// Writes words in lower or upper case, with a separator between them.
fn joined_case(words: &Vec<String>, between: &[char], raise: bool) -> (r: String)
    ensures
        r@ == if raise {
            upper_all(join(texts(words@), between@))
        } else {
            lower_all(join(texts(words@), between@))
        },
{
    let mut out: Vec<char> = Vec::new();
    push_joined(&mut out, words, between);
    assert(out@ == join(texts(words@), between@));
    if raise {
        upper_in_place(&mut out);
    } else {
        lower_in_place(&mut out);
    }
    text_of(out.as_slice())
}

/// Writes words in `flatcase`.
pub fn flat(words: &Vec<String>) -> (r: String)
    ensures
        r@ == flat_case(texts(words@)),
{
    let between: Vec<char> = Vec::new();
    joined_case(words, between.as_slice(), false)
}

/// Writes words in `kebab-case`.
pub fn kebab(words: &Vec<String>) -> (r: String)
    ensures
        r@ == kebab_case(texts(words@)),
{
    let mut between: Vec<char> = Vec::new();
    between.push('-');
    assert(between@ == seq!['-']);
    joined_case(words, between.as_slice(), false)
}

/// Writes words in `snake_case`.
pub fn snake(words: &Vec<String>) -> (r: String)
    ensures
        r@ == snake_case(texts(words@)),
{
    let mut between: Vec<char> = Vec::new();
    between.push('_');
    assert(between@ == seq!['_']);
    joined_case(words, between.as_slice(), false)
}

/// Writes words in `CONSTANT_CASE`.
pub fn constant(words: &Vec<String>) -> (r: String)
    ensures
        r@ == constant_case(texts(words@)),
{
    let mut between: Vec<char> = Vec::new();
    between.push('_');
    assert(between@ == seq!['_']);
    joined_case(words, between.as_slice(), true)
}

/// The characters of words in `PascalCase`.
fn pascal_chars(words: &Vec<String>) -> (out: Vec<char>)
    ensures
        out@ == pascal_case(texts(words@)),
{
    let ghost all = texts(words@);
    let mut out: Vec<char> = Vec::new();
    let mut i: usize = words.len();
    while i > 0
        invariant
            i <= words.len(),
            all == texts(words@),
            out@ == pascal_from(all, i as int),
        decreases i,
    {
        i -= 1;
        let mut word = chars_of(words[i].as_str());
        let ghost plain = word@;
        lower_in_place(&mut word);
        if word.len() > 0 {
            let first = raised(word[0]);
            word.set(0, first);
        }
        assert(word@ == capitalized(plain));
        let ghost rest = out@;
        push_all(&mut word, out.as_slice());
        out = word;
        assert(out@ == capitalized(all[i as int]) + rest);
    }
    out
}

/// Writes words in `PascalCase`.
pub fn pascal(words: &Vec<String>) -> (r: String)
    ensures
        r@ == pascal_case(texts(words@)),
{
    let out = pascal_chars(words);
    text_of(out.as_slice())
}

/// Writes words in `camelCase`.
pub fn camel(words: &Vec<String>) -> (r: String)
    ensures
        r@ == camel_case(texts(words@)),
{
    let mut out = pascal_chars(words);
    if out.len() > 0 {
        let first = lowered(out[0]);
        out.set(0, first);
    }
    text_of(out.as_slice())
}

/// The words as one text, nothing between them and no letter changed.
pub fn plain(words: &Vec<String>) -> (r: Vec<char>)
    ensures
        r@ == join(texts(words@), Seq::empty()),
{
    let mut out: Vec<char> = Vec::new();
    let between: Vec<char> = Vec::new();
    push_joined(&mut out, words, between.as_slice());
    assert(out@ == join(texts(words@), between@));
    out
}

/// What has words: it can be written in each case style.
pub trait CaseStyles {
    /// Whether the words can be had.
    spec fn splits(&self) -> bool;

    /// The words.
    spec fn words(&self) -> Seq<Seq<char>>;

    /// The words: each of ASCII letters, in upper case as a whole, capitalized
    /// or in lower case.
    fn to_split_case(&self) -> (r: Vec<String>)
        requires
            self.splits(),
        ensures
            texts(r@) == self.words(),
            are_words(self.words()),
    ;

    /// The words in `flatcase`.
    fn to_flat_case(&self) -> (r: String)
        requires
            self.splits(),
        ensures
            r@ == flat_case(self.words()),
    {
        flat(&self.to_split_case())
    }

    /// Whether the words, written one behind the other, are in `flatcase`.
    fn is_strict_flat_case(&self) -> (r: bool)
        requires
            self.splits(),
        ensures
            r == (join(self.words(), Seq::empty()) == flat_case(self.words())),
    {
        let words = self.to_split_case();
        let styled = chars_of(flat(&words).as_str());
        same_text(plain(&words).as_slice(), styled.as_slice())
    }

    /// The words in `kebab-case`.
    fn to_kebab_case(&self) -> (r: String)
        requires
            self.splits(),
        ensures
            r@ == kebab_case(self.words()),
    {
        kebab(&self.to_split_case())
    }

    /// Whether the words, written one behind the other, are in `kebab-case`.
    fn is_strict_kebab_case(&self) -> (r: bool)
        requires
            self.splits(),
        ensures
            r == (join(self.words(), Seq::empty()) == kebab_case(self.words())),
    {
        let words = self.to_split_case();
        let styled = chars_of(kebab(&words).as_str());
        same_text(plain(&words).as_slice(), styled.as_slice())
    }

    /// The words in `camelCase`.
    fn to_camel_case(&self) -> (r: String)
        requires
            self.splits(),
        ensures
            r@ == camel_case(self.words()),
    {
        camel(&self.to_split_case())
    }

    /// Whether the words, written one behind the other, are in `camelCase`.
    fn is_strict_camel_case(&self) -> (r: bool)
        requires
            self.splits(),
        ensures
            r == (join(self.words(), Seq::empty()) == camel_case(self.words())),
    {
        let words = self.to_split_case();
        let styled = chars_of(camel(&words).as_str());
        same_text(plain(&words).as_slice(), styled.as_slice())
    }

    /// The words in `PascalCase`.
    fn to_pascal_case(&self) -> (r: String)
        requires
            self.splits(),
        ensures
            r@ == pascal_case(self.words()),
    {
        pascal(&self.to_split_case())
    }

    /// Whether the words, written one behind the other, are in `PascalCase`.
    fn is_strict_pascal_case(&self) -> (r: bool)
        requires
            self.splits(),
        ensures
            r == (join(self.words(), Seq::empty()) == pascal_case(self.words())),
    {
        let words = self.to_split_case();
        let styled = chars_of(pascal(&words).as_str());
        same_text(plain(&words).as_slice(), styled.as_slice())
    }

    /// The words in `snake_case`.
    fn to_snake_case(&self) -> (r: String)
        requires
            self.splits(),
        ensures
            r@ == snake_case(self.words()),
    {
        snake(&self.to_split_case())
    }

    /// Whether the words, written one behind the other, are in `snake_case`.
    fn is_strict_snake_case(&self) -> (r: bool)
        requires
            self.splits(),
        ensures
            r == (join(self.words(), Seq::empty()) == snake_case(self.words())),
    {
        let words = self.to_split_case();
        let styled = chars_of(snake(&words).as_str());
        same_text(plain(&words).as_slice(), styled.as_slice())
    }

    /// The words in `CONSTANT_CASE`.
    fn to_constant_case(&self) -> (r: String)
        requires
            self.splits(),
        ensures
            r@ == constant_case(self.words()),
    {
        constant(&self.to_split_case())
    }

    /// Whether the words, written one behind the other, are in
    /// `CONSTANT_CASE`.
    fn is_strict_constant_case(&self) -> (r: bool)
        requires
            self.splits(),
        ensures
            r == (join(self.words(), Seq::empty()) == constant_case(self.words())),
    {
        let words = self.to_split_case();
        let styled = chars_of(constant(&words).as_str());
        same_text(plain(&words).as_slice(), styled.as_slice())
    }
}

impl CaseStyles for str {
    open spec fn splits(&self) -> bool {
        can_split(self@)
    }

    open spec fn words(&self) -> Seq<Seq<char>> {
        words_of(self@)
    }

    fn to_split_case(&self) -> (r: Vec<String>) {
        let chars = chars_of(self);
        split_words(chars.as_slice())
    }
}

} // verus!
