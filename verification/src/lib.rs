//! Query-suggestion provider: given a partial query, turn a remote
//! autocomplete response into an ordered, deduplicated list of suggestion
//! titles, optionally guaranteeing that the literal query heads the list.

pub mod lex;
pub mod url;
pub mod suggest;
pub mod parse;
pub mod provider;
