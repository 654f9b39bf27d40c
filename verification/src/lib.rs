//! A small text-templating engine with the utilities that surround it.
//!
//! A template source is parsed into a tree of
//! [`parser::components::TemplateElement`] and rendered against a tree of
//! [`context::Argument`] by [`template::Template`]:
//!
//! - [`parser`] holds the tree and the grammar that reads it;
//! - [`context`] holds the values of a context, [`edit`] what changes them;
//! - [`lookup`] resolves paths, through the aliases that loops put in force;
//! - [`template`] renders;
//! - [`laws`] states what holds of all of them.
//!
//! Around the engine stand [`network`], the definition files that templates
//! are written for, [`grammar`], production rules for such files, [`cases`]
//! and [`builder`] for the text that is generated, and [`bit7`], integers in
//! 7-bit groups. [`text`] is what all of them are written in.
pub mod bit7;
pub mod builder;
pub mod cases;
pub mod context;
pub mod edit;
pub mod generator;
pub mod grammar;
pub mod laws;
pub mod lookup;
pub mod network;
pub mod parser;
pub mod template;
pub mod text;
