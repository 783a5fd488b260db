use vstd::prelude::*;

verus! {

/// A sound effect that the game asks to be played.
#[derive(Clone, Copy, Debug, PartialEq, Eq, Structural)]
pub enum Sound {
    Start,
    Dead,
    Move,
    Win,
    /// A shot; its variant is 1, 2 or 3.
    Pew(u8),
    /// An explosion; its variant is 1, 2 or 3.
    Boom(u8),
}

} // verus!
