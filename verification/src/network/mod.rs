//! Network definition files: structures with typed fields and tags, and the
//! parsers that read them.
pub mod comment;
pub mod field;
pub mod file;
pub mod identifier;
pub mod interface;
pub mod reader;
pub mod structure;
pub mod tag;
