//! One editor per configuration dialect. Each turns the text of a
//! configuration into the text with the proxy set (`apply`) or without it
//! (`strip`), and leaves everything else as it was.

pub mod env;
pub mod git;
pub mod json;
pub mod npm;
pub mod xml;
