//! The template grammar: the tree that a template parses to, and the parser.
pub mod components;
pub mod util;
