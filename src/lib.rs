//! Text itemization, font selection and line glyph composition.
//!
//! Lengths, sizes and advances are integers in fixed layout units, so that
//! every comparison and sum the engine makes is exact.

pub mod style;
pub mod itemize;
pub mod layout;
pub mod line;
pub mod select;
