//! Per-player input synchronisation for rollback netcode.
//!
//! A session keeps one [`InputQueue`] per player. Locally produced or
//! received inputs are pushed with [`InputQueue::add_input`], shifted by the
//! configured frame delay; the simulation pulls them back with
//! [`InputQueue::get_input`], which answers with a prediction whenever the
//! confirmed value has not arrived yet. When a confirmed input contradicts a
//! prediction that was handed out, the queue remembers the first such frame
//! so that the session can roll back to it.
//!
//! Every executable function in this crate is verified against the
//! mathematical model in [`model`]; the properties that relate several
//! operations are proved in [`laws`].

pub mod frame;
pub mod input;
pub mod laws;
pub mod model;
pub mod queue;
pub mod ring;

pub use frame::{is_null, BackrollError, Frame, PlayerHandle, MAX_PLAYERS, MAX_ROLLBACK_FRAMES, NULL_FRAME};
pub use input::{FetchedInput, FrameInput, GameInput};
pub use model::QueueView;
pub use queue::InputQueue;
