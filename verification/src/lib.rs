//! Recipe names, recipe packages and schema lists of a Rime input method
//! configuration tool, with their contracts and laws.
pub mod cli;
pub mod text;
pub mod recipe;
pub mod package;
pub mod schema_list;
