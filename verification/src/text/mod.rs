//! Text as sequences of characters: the model that every editor and parser
//! of this crate is stated over.

pub mod chars;
pub mod lines;
pub mod numbers;
pub mod search;
