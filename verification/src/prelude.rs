//! Basic imports.

pub use crate::style::Color;
pub use crate::style::Stylable;
pub use crate::style::Style;
