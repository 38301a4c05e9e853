//! The commands that can be sent to a layout while it is in use.

use vstd::prelude::*;

verus! {

/// A command for a layout. The set of kinds is open: whatever is not one of
/// the kinds named here travels as `Custom` with a number that tells the
/// kinds apart. A layout ignores every kind that it does not know.
#[derive(Debug, Clone, Copy, PartialEq, Eq, Hash, Structural)]
pub enum Message {
    /// Give the main area more room.
    ExpandMain,
    /// Give the main area less room.
    ShrinkMain,
    /// Any other kind of command.
    Custom(u32),
}

impl Message {
    /// Whether the command asks to change the size of the main area.
    pub open spec fn resizes_main(self) -> bool {
        self is ExpandMain || self is ShrinkMain
    }
}

} // verus!
