//! What surrounds the speech model: which files it is loaded from, how audio is cut
//! for it, and how its guesses become text.

pub mod builder;
pub mod file;
pub mod iterator;
pub mod json;
pub mod model;
pub mod tokens;
