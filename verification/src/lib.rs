//! Terminal text styling: a style-spec grammar, an ANSI escape compiler,
//! and a nested markup language that scopes styles over regions of text.

pub mod error;
pub mod laws;
pub mod markup;
pub mod parser;
pub mod prelude;
pub mod style;
pub mod text;
