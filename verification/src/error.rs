//! What can go wrong between a snippet and its hits.

use vstd::prelude::*;

verus! {

/// Why a search did not run.
#[derive(Debug, Clone, PartialEq, Eq)]
pub enum SearchError {
    /// The engine does not take the grammar.
    Language,
    /// The engine gives no tree for the file at `path`.
    Parse { path: String },
    /// The snippet gives no pattern: it does not parse, it is empty, or its
    /// tree cannot be generalised.
    NoPattern,
    /// The engine does not take the pattern. `row` and `column` say where in
    /// the pattern, counted from 0.
    QueryCompile { row: usize, column: usize, message: String },
}

} // verus!
