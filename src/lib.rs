//! Renaming of movie and subtitle files after a chosen catalogue entry.

pub mod text;
pub mod language;
pub mod movie;
pub mod decisions;
pub mod naming;
pub mod args;
