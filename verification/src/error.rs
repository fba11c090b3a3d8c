//! Errors surfaced by the optimizer and the dataset builder.

use vstd::prelude::*;

verus! {

/// The library's error taxonomy. Shapes that disagree are rejected before
/// any state is touched; a malformed dataset is rejected with the index of
/// the first offending session.
#[derive(Clone, Copy, Debug, PartialEq, Eq, Structural)]
pub enum TrainError {
    /// Two values that must have the same number of coordinates do not.
    ShapeMismatch { expected: usize, found: usize },
    /// A recorded session holds fewer observations than actions, so its
    /// transitions cannot be paired up.
    DataFormat { session_index: usize },
}

} // verus!
