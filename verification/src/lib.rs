//! Near-duplicate detection for source files: language-aware normalisation
//! of text and an edit-distance similarity score.

pub mod chars;
pub mod detector;
pub mod preprocessors;
pub mod rewrite;
pub mod similarity;

pub use detector::{detect, Document, Error, Reference, Resava};
