//! The state of a key label: a piece of text shown on a key, drawn as
//! pressed, unpressed or just clicked.
use vstd::prelude::*;

verus! {

/// How a key label is drawn.
#[derive(Debug, Clone, Copy, PartialEq, Eq, Structural)]
pub enum KeyLabelStatus {
    Unpressed,
    Pressed,
    Clicked,
}

/// A label for a keyboard key.
pub struct KeyLabel {
    pub selected: KeyLabelStatus,
    pub text: String,
}

impl KeyLabel {
    /// A label showing `text` in state `selected`.
    pub fn new(selected: KeyLabelStatus, text: String) -> (r: Self)
        ensures
            r.selected == selected,
            r.text@ == text@,
    {
        Self { selected, text }
    }
}

} // verus!
