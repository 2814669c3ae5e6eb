//! Preferences that shape how a puzzle is built.
use vstd::prelude::*;

verus! {

/// Options for building concrete puzzles.
#[derive(Debug, Clone, Copy, PartialEq, Eq, Structural)]
pub struct ConcretePuzzlePreferences {
    /// Whether the face-turning octahedron's stickers extend to the
    /// corners. It changes only the drawing, never the puzzle's algebra.
    pub octa_extend: bool,
}

impl Default for ConcretePuzzlePreferences {
    fn default() -> (r: Self)
        ensures
            r.octa_extend,
    {
        Self { octa_extend: true }
    }
}

} // verus!
