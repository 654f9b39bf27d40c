//! Writers: what turns a network definition into the source text of a
//! language.
use vstd::prelude::*;

verus! {

/// A writer of source text.
pub trait NetworkWriter {
    /// The text that the template `template` generates for the language
    /// `language`, one of `cpp`, `cs`, `dart`, `rs` and `ts`. `None` where
    /// the writer knows no such language or template.
    fn write(language: &str, template: &str) -> Option<String>;
}

} // verus!
