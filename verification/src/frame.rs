//! Frame numbers, player handles and the error type shared by the crate.

use vstd::prelude::*;

verus! {

/// A simulation step. Frames count up from zero; negative values stand for
/// "no frame".
pub type Frame = i32;

/// The value used wherever no frame is set.
pub const NULL_FRAME: Frame = -1;

/// The number of players a [`crate::GameInput`] has room for.
pub const MAX_PLAYERS: usize = 8;

/// The default number of frames an [`crate::InputQueue`] can hold at once.
pub const MAX_ROLLBACK_FRAMES: usize = 120;

/// Whether `frame` stands for "no frame".
pub open spec fn spec_is_null(frame: Frame) -> bool {
    frame < 0
}

/// Whether `frame` stands for "no frame".
#[verifier::when_used_as_spec(spec_is_null)]
pub fn is_null(frame: Frame) -> (null: bool)
    ensures
        null == (frame < 0),
{
    frame < 0
}

/// Identifies one player of a session by index.
#[derive(Clone, Copy, Debug, PartialEq, Eq, Hash)]
pub struct PlayerHandle(pub usize);

/// The failures the crate reports to its callers.
#[derive(Clone, Copy, Debug, PartialEq, Eq)]
pub enum BackrollError {
    /// The handle does not name a player slot.
    InvalidPlayer(PlayerHandle),
}

} // verus!
