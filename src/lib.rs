//! Pattern-driven text substitution: an ordered list of find/replace rules
//! applied one after another to a text buffer.

pub mod engine;
pub mod laws;
pub mod pattern;

pub use engine::{repler_replace, replace_str};
pub use pattern::{Config, Item};
