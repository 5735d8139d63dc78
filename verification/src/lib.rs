//! A line-oriented text transformation filter.
//!
//! For each input line (a sequence of UTF-8 bytes) the library locates a
//! selected sub-range by delimiter markers or by character positions,
//! tokenizes that sub-range, filters the tokens by a classification
//! predicate and an exclusion set, optionally replaces them with a
//! generated numeric range, optionally shuffles them, and splices the
//! result back between the untouched prefix and suffix of the line.

pub mod assemble;
pub mod config;
pub mod filter;
pub mod indexer;
pub mod laws;
pub mod locator;
pub mod numeric;
pub mod pipeline;
pub mod shuffle;
pub mod span;
pub mod tokens;

pub use assemble::OutputParts;
pub use config::{Config, HighlightColor, SelectionMode};
pub use filter::FilterPredicate;
pub use pipeline::process_line;
pub use span::ByteSpan;
