//! Filters the rows of a table by the detected language of one text column,
//! with an optional normalization of that text.

pub mod text;
pub mod language;
pub mod mask;
pub mod table;
pub mod batch;
