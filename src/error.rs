use vstd::prelude::*;

verus! {

/// What can go wrong when words are edited, dictionaries filled or words
/// segmented and rewritten.
#[derive(Debug, Clone, Copy, PartialEq, Eq, Structural)]
pub enum RewriteError {
    /// A position or range end lies beyond the word.
    IndexOutOfBounds { index: usize, len: usize },
    /// A dictionary key must hold at least one letter.
    EmptyKeyRejected,
    /// No dictionary key matches the word at this position.
    NoMatchAtPosition { position: usize },
}

} // verus!
