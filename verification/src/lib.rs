//! A fuzzy file-name search library.
//!
//! Given a query string and a directory tree's listings, the library decides
//! which entry names match the query — either as a byte-level regular
//! expression or position-wise through a user-supplied character-equivalence
//! table — and drives a worklist traversal over the tree's directories.

pub mod engine;
pub mod matcher;
pub mod table;
pub mod text;
