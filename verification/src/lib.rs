//! Fuzzy path matching for a code-search client.
//!
//! A query is cut into trigrams, every trigram is expanded into its case
//! variants, the documents that an index returned for those tokens are counted
//! and ranked, and the ranked paths are validated against a fuzzy pattern
//! derived from the query.

pub mod aggregate;
pub mod case;
pub mod distinct;
pub mod document;
pub mod fuzzy;
pub mod laws;
pub mod order;
pub mod pipeline;
pub mod rank;
pub mod search;
pub mod text;
pub mod trigram;
