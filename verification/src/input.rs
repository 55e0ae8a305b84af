//! The values that travel through an input queue: one player's input for one
//! frame, the inputs of all players for one frame, and the answer to a fetch.

use vstd::prelude::*;
use vstd::arithmetic::power2::{lemma2_to64, pow2};
use crate::frame::{BackrollError, Frame, PlayerHandle, MAX_PLAYERS, NULL_FRAME};

verus! {

/// One player's input for one frame.
#[derive(Copy, Debug, PartialEq, Eq)]
pub struct FrameInput<T> {
    /// The frame the input belongs to.
    pub frame: Frame,
    /// The payload: buttons, axes, whatever the game packs into it.
    pub input: T,
}

impl<T: Copy> Clone for FrameInput<T> {
    fn clone(&self) -> (copy: Self)
        ensures
            copy == *self,
    {
        *self
    }
}

impl<T> FrameInput<T> {
    /// An input that belongs to no frame and carries the payload `zero`.
    pub open spec fn empty_spec(zero: T) -> Self {
        FrameInput { frame: NULL_FRAME, input: zero }
    }

    /// An input that belongs to no frame and carries the payload `zero`.
    #[verifier::when_used_as_spec(empty_spec)]
    pub fn empty(zero: T) -> (empty: Self)
        ensures
            empty == (FrameInput { frame: NULL_FRAME, input: zero }),
    {
        FrameInput { frame: NULL_FRAME, input: zero }
    }

    /// Replaces the payload by `zero` and leaves the frame as it is.
    pub fn clear(&mut self, zero: T)
        ensures
            *final(self) == (FrameInput { frame: old(self).frame, input: zero }),
    {
        self.input = zero;
    }
}

/// Whether bit number `index`, counted from the least significant one, is set
/// in `mask`.
pub open spec fn bit_is_set(mask: u8, index: nat) -> bool {
    (mask as nat / pow2(index)) % 2 == 1
}

/// Testing a bit of a byte with a shifted mask agrees with [`bit_is_set`].
proof fn lemma_bit_test(mask: u8, index: usize)
    requires
        index < 8,
    ensures
        (mask & (1u8 << index) != 0) == bit_is_set(mask, index as nat),
{
    lemma2_to64();
    if index == 0 {
        assert((mask & (1u8 << 0usize) != 0) == ((mask / 1) % 2 == 1)) by (bit_vector);
    } else if index == 1 {
        assert((mask & (1u8 << 1usize) != 0) == ((mask / 2) % 2 == 1)) by (bit_vector);
    } else if index == 2 {
        assert((mask & (1u8 << 2usize) != 0) == ((mask / 4) % 2 == 1)) by (bit_vector);
    } else if index == 3 {
        assert((mask & (1u8 << 3usize) != 0) == ((mask / 8) % 2 == 1)) by (bit_vector);
    } else if index == 4 {
        assert((mask & (1u8 << 4usize) != 0) == ((mask / 16) % 2 == 1)) by (bit_vector);
    } else if index == 5 {
        assert((mask & (1u8 << 5usize) != 0) == ((mask / 32) % 2 == 1)) by (bit_vector);
    } else if index == 6 {
        assert((mask & (1u8 << 6usize) != 0) == ((mask / 64) % 2 == 1)) by (bit_vector);
    } else {
        assert((mask & (1u8 << 7usize) != 0) == ((mask / 128) % 2 == 1)) by (bit_vector);
    }
}

/// The inputs of all players for one frame.
#[derive(Debug, PartialEq, Eq)]
pub struct GameInput<T> {
    /// The frame the inputs belong to.
    pub frame: Frame,
    /// Bit `i` is set when player `i` has no valid input in this frame.
    pub disconnected: u8,
    /// The payloads, one per player slot.
    pub inputs: [T; MAX_PLAYERS],
}

impl<T: Copy> Clone for GameInput<T> {
    fn clone(&self) -> (copy: Self)
        ensures
            copy == *self,
    {
        GameInput { frame: self.frame, disconnected: self.disconnected, inputs: self.inputs }
    }
}

impl<T> GameInput<T> {
    /// Whether `player` names one of the player slots.
    pub open spec fn valid_player(player: PlayerHandle) -> bool {
        player.0 < MAX_PLAYERS
    }

    /// The payload of `player`, or `InvalidPlayer` when the handle names no
    /// player slot.
    pub fn get(&self, player: PlayerHandle) -> (found: Result<&T, BackrollError>)
        ensures
            Self::valid_player(player) ==> found == Ok::<&T, BackrollError>(
                &self.inputs@[player.0 as int],
            ),
            !Self::valid_player(player) ==> found == Err::<&T, BackrollError>(
                BackrollError::InvalidPlayer(player),
            ),
    {
        if player.0 >= MAX_PLAYERS {
            return Err(BackrollError::InvalidPlayer(player));
        }
        Ok(&self.inputs[player.0])
    }

    /// Whether `player` is disconnected in this frame, or `InvalidPlayer` when
    /// the handle names no player slot.
    pub fn is_disconnected(&self, player: PlayerHandle) -> (answer: Result<bool, BackrollError>)
        ensures
            Self::valid_player(player) ==> answer == Ok::<bool, BackrollError>(
                bit_is_set(self.disconnected, player.0 as nat),
            ),
            !Self::valid_player(player) ==> answer == Err::<bool, BackrollError>(
                BackrollError::InvalidPlayer(player),
            ),
    {
        if player.0 >= MAX_PLAYERS {
            return Err(BackrollError::InvalidPlayer(player));
        }
        proof {
            lemma_bit_test(self.disconnected, player.0);
        }
        Ok(self.disconnected & (1u8 << player.0) != 0)
    }
}

impl<T: Copy> GameInput<T> {
    /// The inputs of no frame: every player connected, every payload `zero`.
    pub fn empty(zero: T) -> (game: Self)
        ensures
            game.frame == NULL_FRAME,
            game.disconnected == 0,
            game.inputs@ == Seq::new(MAX_PLAYERS as nat, |i: int| zero),
    {
        let inputs: [T; MAX_PLAYERS] = [zero;MAX_PLAYERS];
        assert(inputs@ =~= Seq::new(MAX_PLAYERS as nat, |i: int| zero));
        GameInput { frame: NULL_FRAME, disconnected: 0, inputs }
    }
}

/// The answer to a fetch from an input queue.
#[derive(Copy, Debug, PartialEq, Eq)]
pub enum FetchedInput<T> {
    /// The input that was stored for the frame.
    Normal(FrameInput<T>),
    /// A guess, handed out because the frame's input has not been stored yet.
    Prediction(FrameInput<T>),
}

impl<T: Copy> Clone for FetchedInput<T> {
    fn clone(&self) -> (copy: Self)
        ensures
            copy == *self,
    {
        *self
    }
}

impl<T> FetchedInput<T> {
    /// The input inside, whichever kind of answer this is.
    pub open spec fn inner(self) -> FrameInput<T> {
        match self {
            FetchedInput::Normal(input) => input,
            FetchedInput::Prediction(input) => input,
        }
    }

    /// The input inside, whichever kind of answer this is.
    pub fn unwrap(self) -> (input: FrameInput<T>)
        ensures
            input == self.inner(),
    {
        match self {
            FetchedInput::Normal(input) => input,
            FetchedInput::Prediction(input) => input,
        }
    }

    /// Whether the answer is a guess.
    pub fn is_prediction(&self) -> (predicted: bool)
        ensures
            predicted == (self is Prediction),
    {
        match self {
            FetchedInput::Normal(_) => false,
            FetchedInput::Prediction(_) => true,
        }
    }
}

} // verus!
