//! The resolved configuration that drives one run of the filter.
//!
//! Built once by the caller (the command-line layer lives outside this
//! library) and read-only afterwards; every line is processed against
//! the same configuration.

use crate::filter::FilterPredicate;
use vstd::prelude::*;

verus! {

/// How the selected sub-range of a line is determined.
#[derive(Clone, Debug)]
pub enum SelectionMode {
    /// No selection: the line passes through unchanged.
    Unselected,
    /// Start and end marker substrings; the end marker itself belongs to
    /// the selection.
    Markers(Vec<u8>, Vec<u8>),
    /// 1-based start and end character positions, both inclusive.
    Positions(usize, usize),
}

/// The terminal highlight color applied (by the caller) to the joined
/// token segment of the output.
#[derive(Clone, Copy, Debug, PartialEq, Eq, Structural)]
pub enum HighlightColor {
    Black,
    Red,
    Green,
    Yellow,
    Blue,
    Magenta,
    Cyan,
    White,
}

/// The full configuration of one run.
#[derive(Clone, Debug)]
pub struct Config {
    /// The delimiter the selection is split by; empty means one token
    /// per character.
    pub delimiter: Vec<u8>,
    /// The separator the output tokens are joined by; the delimiter
    /// itself when absent.
    pub separator: Option<Vec<u8>>,
    /// How the selection is located.
    pub selection: SelectionMode,
    /// The per-token classification predicate.
    pub predicate: FilterPredicate,
    /// Tokens containing any of these byte strings are dropped.
    pub exclusions: Vec<Vec<u8>>,
    /// When present, `[lo, hi)` rendered as decimal strings replaces the
    /// selection's tokens entirely.
    pub range: Option<(i64, i64)>,
    /// Randomly permute the final tokens.
    pub shuffle: bool,
    /// Suppress the line's prefix (the part before the selection).
    pub hide: bool,
    /// Discard the line's content before any processing.
    pub clear: bool,
    /// The highlight color for the token segment.
    pub color: HighlightColor,
}

impl Config {
    /// A configuration that passes every line through unchanged.
    pub fn passthrough() -> (r: Config)
        ensures
            r.delimiter@.len() == 0,
            r.separator is None,
            r.selection is Unselected,
            r.predicate == FilterPredicate::Always(true),
            r.exclusions@.len() == 0,
            r.range is None,
            !r.shuffle,
            !r.hide,
            !r.clear,
            r.color == HighlightColor::Black,
    {
        Config {
            delimiter: Vec::new(),
            separator: None,
            selection: SelectionMode::Unselected,
            predicate: FilterPredicate::Always(true),
            exclusions: Vec::new(),
            range: None,
            shuffle: false,
            hide: false,
            clear: false,
            color: HighlightColor::Black,
        }
    }
}

} // verus!
