//! Production rules: the grammar that an attribute declares for a type, as a
//! tree, and the types of the fields that it fills.
pub mod context;
pub mod count;
pub mod idea;
pub mod parse_type;
pub mod prod_type;
pub mod range;
pub mod rule;
pub mod token;
