//! Front end of the Cobalt compiler: dotted names and import paths, type
//! expressions, and the scoped symbol table that resolves names.

pub mod token;
pub mod names;
pub mod parser;
pub mod path;
pub mod expr;
pub mod types;
pub mod literals;
pub mod records;
pub mod varmap;
pub mod scope_laws;
