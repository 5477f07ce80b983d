//! Editor modes: the active mode decides how a keypress is read and how the cursor
//! is drawn.
use vstd::prelude::*;

verus! {

#[derive(Clone, Copy, PartialEq, Eq, Debug, Structural)]
pub enum Mode {
    /// Keys are commands; motions collapse the selection to a cursor.
    Normal,
    /// Keys insert text; Esc returns to Normal.
    Insert,
    /// Like Normal, but motions extend the selection instead of collapsing it.
    Select,
}

} // verus!
