//! The input queue of one player.

use vstd::prelude::*;
use vstd::laws_eq::obeys_concrete_eq;
use crate::frame::{is_null, Frame, MAX_ROLLBACK_FRAMES, NULL_FRAME};
use crate::input::{FetchedInput, FrameInput};
use crate::model::QueueView;
use crate::ring::{
    lemma_slot_in_ring, lemma_slot_of_next, lemma_slot_of_offset, lemma_slot_of_previous,
    lemma_slot_of_small, lemma_slot_wraps, slot,
};

verus! {

/// The slot before `offset` in a ring of `capacity` slots.
fn previous_frame(offset: usize, capacity: usize) -> (previous: usize)
    requires
        offset < capacity,
    ensures
        previous == if offset == 0 {
            capacity - 1
        } else {
            offset - 1
        },
{
    if offset == 0 {
        capacity - 1
    } else {
        offset - 1
    }
}

/// The slot `steps` after `offset` in a ring of `capacity` slots.
fn later_frame(offset: usize, steps: usize, capacity: usize) -> (later: usize)
    requires
        offset < capacity,
        steps < capacity,
    ensures
        later == slot(offset + steps, capacity as int),
{
    let room: usize = capacity - offset;
    if steps >= room {
        proof {
            lemma_slot_wraps(offset + steps, capacity as int);
        }
        steps - room
    } else {
        proof {
            lemma_slot_of_small(offset + steps, capacity as int);
        }
        offset + steps
    }
}

/// A bounded history of one player's inputs, with the bookkeeping of the
/// delay and prediction protocol.
pub struct InputQueue<T> {
    head: usize,
    tail: usize,
    length: usize,
    first_frame: bool,
    last_user_added_frame: Frame,
    last_added_frame: Frame,
    first_incorrect_frame: Frame,
    last_frame_requested: Frame,
    frame_delay: Frame,
    inputs: Vec<FrameInput<T>>,
    prediction: FrameInput<T>,
    zero: T,
}

impl<T> View for InputQueue<T> {
    type V = QueueView<T>;

    closed spec fn view(&self) -> QueueView<T> {
        QueueView {
            slots: self.inputs@,
            len: self.length as nat,
            frame_delay: self.frame_delay,
            last_user_added_frame: self.last_user_added_frame,
            last_added_frame: self.last_added_frame,
            first_incorrect_frame: self.first_incorrect_frame,
            last_frame_requested: self.last_frame_requested,
            prediction: self.prediction,
            zero: self.zero,
        }
    }
}

impl<T: Copy + PartialEq> InputQueue<T> {
    /// How the fields that only the implementation needs follow from the
    /// state: `head` is the slot of the next frame to store, `tail` the slot
    /// of the oldest buffered frame.
    pub closed spec fn layout(&self) -> bool {
        &&& self.head == slot(self@.expected_frame(), self@.capacity())
        &&& self.tail == slot(self@.oldest_frame(), self@.capacity())
        &&& self.first_frame == is_null(self.last_added_frame)
    }

    /// Whether the queue is well formed: its state meets the invariant, the
    /// fields agree with it, and equality on payloads is the structural one.
    pub open spec fn wf(&self) -> bool {
        &&& self@.inv()
        &&& self.layout()
        &&& obeys_concrete_eq::<T>()
    }

    /// A queue of `capacity` slots that delays each input by `frame_delay`
    /// frames, with `zero` as the payload that stands for "no input".
    pub fn with_capacity(capacity: usize, frame_delay: Frame, zero: T) -> (queue: Self)
        requires
            capacity > 0,
            obeys_concrete_eq::<T>(),
        ensures
            queue.wf(),
            queue@ == QueueView::new(capacity as nat, frame_delay, zero),
    {
        let mut inputs: Vec<FrameInput<T>> = Vec::with_capacity(capacity);
        let mut filled: usize = 0;
        while filled < capacity
            invariant
                filled <= capacity,
                inputs@.len() == filled,
                forall|i: int| 0 <= i < filled ==> inputs@[i] == FrameInput::<T>::empty_spec(zero),
            decreases capacity - filled,
        {
            inputs.push(FrameInput::empty(zero));
            filled = filled + 1;
        }
        let queue = InputQueue {
            head: 0,
            tail: 0,
            length: 0,
            first_frame: true,
            last_user_added_frame: NULL_FRAME,
            last_added_frame: NULL_FRAME,
            first_incorrect_frame: NULL_FRAME,
            last_frame_requested: NULL_FRAME,
            frame_delay,
            inputs,
            prediction: FrameInput::empty(zero),
            zero,
        };
        proof {
            assert(queue@.slots =~= QueueView::new(capacity as nat, frame_delay, zero).slots);
            lemma_slot_of_small(0, capacity as int);
        }
        queue
    }

    /// A queue of [`MAX_ROLLBACK_FRAMES`] slots that delays each input by
    /// `frame_delay` frames, with `zero` as the payload that stands for "no
    /// input".
    pub fn new(frame_delay: Frame, zero: T) -> (queue: Self)
        requires
            obeys_concrete_eq::<T>(),
        ensures
            queue.wf(),
            queue@ == QueueView::new(MAX_ROLLBACK_FRAMES as nat, frame_delay, zero),
    {
        Self::with_capacity(MAX_ROLLBACK_FRAMES, frame_delay, zero)
    }

    /// The frame that was stored last; null while nothing has been stored.
    pub fn last_confirmed_frame(&self) -> (frame: Frame)
        ensures
            frame == self@.last_added_frame,
    {
        self.last_added_frame
    }

    /// The first stored frame that contradicted the prediction handed out for
    /// it; null if there is none since the last reset.
    pub fn first_incorrect_frame(&self) -> (frame: Frame)
        ensures
            frame == self@.first_incorrect_frame,
    {
        self.first_incorrect_frame
    }

    /// The number of buffered entries.
    pub fn len(&self) -> (len: usize)
        ensures
            len == self@.len,
    {
        self.length
    }

    /// The number of slots.
    pub fn capacity(&self) -> (capacity: usize)
        ensures
            capacity == self@.capacity(),
    {
        self.inputs.len()
    }

    /// The delay that [`Self::add_input`] applies.
    pub fn frame_delay(&self) -> (frame_delay: Frame)
        ensures
            frame_delay == self@.frame_delay,
    {
        self.frame_delay
    }

    /// Whether [`Self::add_input`] may be called with an input for `frame`:
    /// the frame follows the one handed in last, its target frame is below
    /// the largest frame number, and the buffer has room for the padding and
    /// the input.
    pub fn accepts(&self, frame: Frame) -> (accepted: bool)
        requires
            self.wf(),
        ensures
            accepted == self@.accepts(frame),
    {
        let in_order: bool = is_null(self.last_user_added_frame) || (self.last_user_added_frame
            < i32::MAX && frame == self.last_user_added_frame + 1);
        let target: i64 = frame as i64 + self.frame_delay as i64;
        let expected: i64 = if self.first_frame {
            0
        } else {
            self.last_added_frame as i64 + 1
        };
        if !in_order || target >= i32::MAX as i64 {
            return false;
        }
        if target < expected {
            return true;
        }
        let stores: u64 = (target - expected + 1) as u64;
        let room: u64 = (self.inputs.len() - self.length) as u64;
        stores <= room
    }

    /// Sets the delay that later calls of [`Self::add_input`] apply.
    pub fn set_frame_delay(&mut self, frame_delay: Frame)
        requires
            !is_null(frame_delay),
        ensures
            final(self)@ == old(self)@.set_frame_delay(frame_delay),
            old(self).wf() ==> final(self).wf(),
    {
        self.frame_delay = frame_delay;
        proof {
            if old(self).wf() {
                old(self)@.lemma_inv_of_same_buffer(self@);
            }
        }
    }

    /// Drops the buffered entries up to `frame`, or up to the frame fetched
    /// last if that one is older, so that nothing a running prediction still
    /// needs is lost.
    pub fn discard_confirmed_frames(&mut self, frame: Frame)
        requires
            old(self).wf(),
            !is_null(frame),
        ensures
            final(self).wf(),
            final(self)@ == old(self)@.discard_confirmed_frames(frame),
    {
        let mut bound: Frame = frame;
        if !is_null(self.last_frame_requested) && self.last_frame_requested < bound {
            bound = self.last_frame_requested;
        }
        if bound >= self.last_added_frame {
            self.tail = self.head;
            self.length = 0;
        } else if self.length > 0 {
            let oldest: Frame = self.inputs[self.tail].frame;
            proof {
                lemma_slot_in_ring(old(self)@.oldest_frame(), old(self)@.capacity());
                assert(old(self)@.is_retained(old(self)@.oldest_frame()));
                assert(old(self)@.stored(old(self)@.oldest_frame()).frame == oldest);
            }
            if bound >= oldest {
                let dropped: usize = (bound - oldest + 1) as usize;
                proof {
                    lemma_slot_of_offset(
                        old(self)@.oldest_frame(),
                        dropped as int,
                        old(self)@.capacity(),
                    );
                }
                self.tail = later_frame(self.tail, dropped, self.inputs.len());
                self.length = self.length - dropped;
            }
        }
        proof {
            old(self)@.lemma_inv_of_same_buffer(self@);
        }
    }

    /// Forgets the outstanding prediction and the recorded misprediction,
    /// once the caller has rolled back to `frame`.
    pub fn reset_prediction(&mut self, frame: Frame)
        requires
            is_null(old(self)@.first_incorrect_frame) || frame <= old(self)@.first_incorrect_frame,
        ensures
            final(self)@ == old(self)@.reset_prediction(),
            old(self).wf() ==> final(self).wf(),
    {
        self.prediction.frame = NULL_FRAME;
        self.first_incorrect_frame = NULL_FRAME;
        self.last_frame_requested = NULL_FRAME;
        proof {
            if old(self).wf() {
                old(self)@.lemma_inv_of_same_buffer(self@);
            }
        }
    }

    /// What the slot of `frame` holds, read straight from the ring: the input
    /// stored for `frame` as long as it is retained. A null frame has no slot.
    pub fn get_confirmed_input(&self, frame: Frame) -> (found: Option<&FrameInput<T>>)
        requires
            self.wf(),
            is_null(self@.first_incorrect_frame) || frame < self@.first_incorrect_frame,
        ensures
            is_null(frame) ==> found is None,
            !is_null(frame) ==> found == Some(&self@.stored(frame as int)),
    {
        if is_null(frame) {
            return None;
        }
        let offset: usize = (frame as usize) % self.inputs.len();
        Some(&self.inputs[offset])
    }

    /// The input to simulate `frame` with: the stored one if the frame is
    /// buffered and no prediction is outstanding, else a prediction that
    /// carries the requested frame.
    ///
    /// A fetch that finds no prediction outstanding and the frame not
    /// buffered starts one: with the zero payload for frame zero or while
    /// nothing has been stored, else with the payload stored last. Inputs
    /// stored from then on are compared with it, beginning with the frame to
    /// be stored next, or with frame one after a fetch of frame zero. The
    /// caller must have dealt with any recorded misprediction first.
    pub fn get_input(&mut self, frame: Frame) -> (fetched: FetchedInput<T>)
        requires
            old(self).wf(),
            is_null(old(self)@.first_incorrect_frame),
        ensures
            final(self).wf(),
            final(self)@ == old(self)@.get_input(frame),
            fetched == old(self)@.fetched(frame),
    {
        self.last_frame_requested = frame;
        if is_null(self.prediction.frame) {
            if self.length > 0 {
                let oldest: Frame = self.inputs[self.tail].frame;
                proof {
                    lemma_slot_in_ring(old(self)@.oldest_frame(), old(self)@.capacity());
                    assert(old(self)@.is_retained(old(self)@.oldest_frame()));
                    assert(old(self)@.stored(old(self)@.oldest_frame()).frame == oldest);
                }
                if frame >= oldest && frame <= self.last_added_frame {
                    let offset: usize = (frame - oldest) as usize;
                    let index: usize = later_frame(self.tail, offset, self.inputs.len());
                    proof {
                        lemma_slot_of_offset(
                            old(self)@.oldest_frame(),
                            offset as int,
                            old(self)@.capacity(),
                        );
                        lemma_slot_in_ring(frame as int, old(self)@.capacity());
                        old(self)@.lemma_inv_of_same_buffer(self@);
                    }
                    return FetchedInput::Normal(self.inputs[index]);
                }
            }
            if frame == 0 {
                self.prediction = FrameInput { frame: 1, input: self.zero };
            } else if is_null(self.last_added_frame) {
                self.prediction = FrameInput { frame: 0, input: self.zero };
            } else {
                let newest: usize = previous_frame(self.head, self.inputs.len());
                proof {
                    lemma_slot_of_previous(old(self)@.expected_frame(), old(self)@.capacity());
                }
                self.prediction = self.inputs[newest];
                proof {
                    assert(old(self)@.is_retained(old(self).last_added_frame as int));
                    assert(old(self)@.newest().frame == old(self).last_added_frame);
                }
                self.prediction.frame = self.prediction.frame + 1;
            }
        }
        proof {
            old(self)@.lemma_inv_of_same_buffer(self@);
        }
        FetchedInput::Prediction(FrameInput { frame, input: self.prediction.input })
    }

    /// Hands in the input of the next frame. It is stored under its frame
    /// plus the delay, after copies of the newest entry for any frames that a
    /// raised delay has left out; if a lowered delay has left no room for it,
    /// it is dropped. Returns the frame it was stored under, or the null frame.
    pub fn add_input(&mut self, input: FrameInput<T>) -> (stored: Frame)
        requires
            old(self).wf(),
            old(self)@.accepts(input.frame),
        ensures
            final(self).wf(),
            final(self)@ == old(self)@.add_input(input),
            stored == old(self)@.added_frame(input.frame),
            old(self)@.added_as(input, final(self)@),
    {
        proof {
            old(self)@.lemma_add_input(input);
        }
        self.last_user_added_frame = input.frame;
        proof {
            old(self)@.lemma_inv_of_same_buffer(self@);
        }
        let new_frame: Frame = self.advance_queue_head(input.frame);
        if !is_null(new_frame) {
            self.add_delayed_input(new_frame, input);
        }
        new_frame
    }

    /// Stores the payload of `input` as frame `frame`, the next one, and
    /// checks it against the prediction for that frame.
    fn add_delayed_input(&mut self, frame: Frame, input: FrameInput<T>)
        requires
            old(self).wf(),
            frame == old(self)@.expected_frame(),
            frame < i32::MAX,
            old(self)@.len < old(self)@.capacity(),
        ensures
            final(self).wf(),
            final(self)@ == old(self)@.store(frame, input),
    {
        proof {
            reveal(obeys_concrete_eq);
            old(self)@.lemma_store(frame, input);
            lemma_slot_of_next(frame as int, old(self)@.capacity());
            lemma_slot_in_ring(frame as int, old(self)@.capacity());
        }
        self.inputs[self.head] = FrameInput { frame, input: input.input };
        self.head = if self.head + 1 == self.inputs.len() {
            0
        } else {
            self.head + 1
        };
        self.length = self.length + 1;
        self.first_frame = false;
        self.last_added_frame = frame;

        if !is_null(self.prediction.frame) && self.prediction.frame == frame {
            if is_null(self.first_incorrect_frame) && (self.prediction.frame != input.frame
                || self.prediction.input != input.input) {
                self.first_incorrect_frame = frame;
            }
            if self.prediction.frame == self.last_frame_requested && is_null(
                self.first_incorrect_frame,
            ) {
                self.prediction.frame = NULL_FRAME;
            } else {
                self.prediction.frame = self.prediction.frame + 1;
            }
        }
        proof {
            assert(self@.slots =~= old(self)@.store(frame, input).slots);
        }
    }

    /// Makes the queue ready to store the input handed in for `frame`: fills
    /// the frames that a raised delay has left out with copies of the newest
    /// entry. Returns the frame to store the input under, or the null frame if
    /// that frame has been stored already.
    fn advance_queue_head(&mut self, frame: Frame) -> (target: Frame)
        requires
            old(self).wf(),
            old(self)@.target_frame(frame) < i32::MAX,
            old(self)@.len + old(self)@.stores(frame) <= old(self)@.capacity(),
        ensures
            final(self).wf(),
            target == old(self)@.added_frame(frame),
            old(self)@.drops(frame) ==> final(self)@ == old(self)@,
            !old(self)@.drops(frame) ==> {
                &&& final(self)@ == old(self)@.pad_to(old(self)@.target_frame(frame))
                &&& final(self)@.expected_frame() == target
                &&& final(self)@.len < final(self)@.capacity()
            },
    {
        let mut expected_frame: Frame = if self.first_frame {
            0
        } else {
            self.last_added_frame + 1
        };
        let delayed: i64 = frame as i64 + self.frame_delay as i64;
        if (expected_frame as i64) > delayed {
            return NULL_FRAME;
        }
        let target: Frame = delayed as Frame;
        while expected_frame < target
            invariant
                self.wf(),
                expected_frame == self@.expected_frame(),
                expected_frame <= target < i32::MAX,
                self@.len + (target - expected_frame) < self@.capacity(),
                self@.pad_to(target as int) == old(self)@.pad_to(target as int),
            decreases target - expected_frame,
        {
            let newest: usize = previous_frame(self.head, self.inputs.len());
            proof {
                lemma_slot_of_previous(self@.expected_frame(), self@.capacity());
            }
            let copy = self.inputs[newest];
            self.add_delayed_input(expected_frame, copy);
            expected_frame = expected_frame + 1;
        }
        target
    }
}

} // verus!
