//! A small command-line echo library: it classifies raw argument tokens
//! into flags and literal text, joins the text tokens with single spaces,
//! optionally appends a trailing newline, and optionally decodes backslash
//! escape sequences in the result.

pub mod args;
pub mod laws;
pub mod model;

pub use args::Args;
