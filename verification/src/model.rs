//! The mathematical model of an input queue.
//!
//! A [`QueueView`] is what an [`crate::InputQueue`] looks like to a
//! specification: a ring of slots in which frame `f` lives in slot
//! `f mod capacity`, the number of buffered entries, and the bookkeeping of
//! the delay and prediction protocol. Each operation of the queue is a pure
//! function on this state.

use vstd::prelude::*;
use crate::frame::{is_null, Frame, NULL_FRAME};
use crate::input::{FetchedInput, FrameInput};
use crate::ring::{
    lemma_slot_in_ring, lemma_slot_of_next, lemma_slot_of_small, lemma_slot_unique, slot,
};

verus! {

/// The state of an input queue.
pub struct QueueView<T> {
    /// The ring of slots. A slot that was never written holds the null frame
    /// and the zero payload.
    pub slots: Seq<FrameInput<T>>,
    /// The number of buffered entries: the newest `len` stored frames.
    pub len: nat,
    /// The offset added to the frame of an input before it is stored.
    pub frame_delay: Frame,
    /// The frame, before the delay, of the input that was handed in last.
    pub last_user_added_frame: Frame,
    /// The frame that was stored last; null while nothing has been stored.
    pub last_added_frame: Frame,
    /// The first stored frame that contradicted a prediction; null if none.
    pub first_incorrect_frame: Frame,
    /// The frame that was fetched last; null after a reset.
    pub last_frame_requested: Frame,
    /// The payload that is handed out as a guess, and the frame whose stored
    /// input will be compared with it next; that frame is null while the
    /// queue is not predicting.
    pub prediction: FrameInput<T>,
    /// The payload that stands for "no input".
    pub zero: T,
}

impl<T> QueueView<T> {
    /// The number of slots.
    pub open spec fn capacity(self) -> int {
        self.slots.len() as int
    }

    /// The frame that the next stored input gets: zero while nothing has been
    /// stored, else one past the frame stored last.
    pub open spec fn expected_frame(self) -> int {
        if is_null(self.last_added_frame) {
            0
        } else {
            self.last_added_frame + 1
        }
    }

    /// The oldest buffered frame; equal to [`Self::expected_frame`] when
    /// nothing is buffered.
    pub open spec fn oldest_frame(self) -> int {
        self.expected_frame() - self.len
    }

    /// Whether `frame` is one of the buffered frames.
    pub open spec fn is_buffered(self, frame: int) -> bool {
        self.oldest_frame() <= frame <= self.last_added_frame
    }

    /// Whether the input stored for `frame` is still in its slot: `frame` was
    /// stored, and fewer than `capacity` frames were stored from it on.
    pub open spec fn is_retained(self, frame: int) -> bool {
        0 <= frame <= self.last_added_frame && self.last_added_frame - self.capacity() < frame
    }

    /// What the slot of `frame` holds.
    pub open spec fn stored(self, frame: int) -> FrameInput<T> {
        self.slots[slot(frame, self.capacity())]
    }

    /// The entry stored last; the content of the last slot while nothing has
    /// been stored.
    pub open spec fn newest(self) -> FrameInput<T> {
        self.stored(self.last_added_frame as int)
    }

    /// The buffered entries, oldest first.
    pub open spec fn entries(self) -> Seq<FrameInput<T>> {
        Seq::new(self.len, |i: int| self.stored(self.oldest_frame() + i))
    }

    /// Whether a prediction is outstanding.
    pub open spec fn predicting(self) -> bool {
        !is_null(self.prediction.frame)
    }

    /// Whether the outstanding prediction, if any, is for a frame that has
    /// not been stored yet.
    pub open spec fn prediction_ahead(self) -> bool {
        self.predicting() ==> self.prediction.frame > self.last_added_frame
    }

    /// What a slot holds before it is written for the first time.
    pub open spec fn blank(self) -> FrameInput<T> {
        FrameInput { frame: NULL_FRAME, input: self.zero }
    }

    /// The invariant of the state.
    ///
    /// The frames `0 ..= last_added_frame` have been stored one after the
    /// other, each in the slot of its number, so the slots hold the newest
    /// `capacity` of them and the buffered entries have consecutive frames.
    pub open spec fn inv(self) -> bool {
        &&& self.capacity() > 0
        &&& NULL_FRAME <= self.last_added_frame < i32::MAX
        &&& self.len <= self.capacity()
        &&& self.len <= self.expected_frame()
        &&& forall|frame: int|
            self.is_retained(frame) ==> (#[trigger] self.stored(frame)).frame == frame
        &&& forall|i: int|
            self.last_added_frame < i < self.capacity() ==> #[trigger] self.slots[i]
                == self.blank()
        &&& self.first_incorrect_frame == NULL_FRAME || 0 <= self.first_incorrect_frame
            <= self.last_added_frame
        &&& self.prediction.frame >= NULL_FRAME
    }

    /// The state of a queue of `capacity` slots that has seen no input.
    pub open spec fn new(capacity: nat, frame_delay: Frame, zero: T) -> Self {
        QueueView {
            slots: Seq::new(capacity, |i: int| FrameInput { frame: NULL_FRAME, input: zero }),
            len: 0,
            frame_delay,
            last_user_added_frame: NULL_FRAME,
            last_added_frame: NULL_FRAME,
            first_incorrect_frame: NULL_FRAME,
            last_frame_requested: NULL_FRAME,
            prediction: FrameInput { frame: NULL_FRAME, input: zero },
            zero,
        }
    }

    /// The state after the delay was set to `frame_delay`.
    pub open spec fn set_frame_delay(self, frame_delay: Frame) -> Self {
        QueueView { frame_delay, ..self }
    }

    /// The newest frame that a request to discard up to `frame` may drop:
    /// `frame` itself, or the frame fetched last if that one is older.
    pub open spec fn discard_bound(self, frame: Frame) -> Frame {
        if !is_null(self.last_frame_requested) && self.last_frame_requested < frame {
            self.last_frame_requested
        } else {
            frame
        }
    }

    /// The number of buffered entries whose frame is greater than `bound`.
    pub open spec fn buffered_after(self, bound: int) -> nat {
        if bound >= self.last_added_frame {
            0
        } else if bound < self.oldest_frame() {
            self.len
        } else {
            (self.last_added_frame - bound) as nat
        }
    }

    /// The state after the buffered entries up to `frame` were discarded.
    pub open spec fn discard_confirmed_frames(self, frame: Frame) -> Self {
        QueueView { len: self.buffered_after(self.discard_bound(frame) as int), ..self }
    }

    /// The state after the prediction bookkeeping was reset.
    pub open spec fn reset_prediction(self) -> Self {
        QueueView {
            prediction: FrameInput { frame: NULL_FRAME, input: self.prediction.input },
            first_incorrect_frame: NULL_FRAME,
            last_frame_requested: NULL_FRAME,
            ..self
        }
    }

    /// The prediction that a fetch of `frame` starts from when the frame is
    /// not buffered: the zero payload for frame zero or while nothing has
    /// been stored, else the payload stored last. Its frame is the first
    /// whose stored input is compared with the prediction: frame one after a
    /// fetch of frame zero, else the frame to be stored next.
    pub open spec fn seed(self, frame: Frame) -> FrameInput<T> {
        if frame == 0 {
            FrameInput { frame: 1, input: self.zero }
        } else if is_null(self.last_added_frame) {
            FrameInput { frame: 0, input: self.zero }
        } else {
            FrameInput { frame: (self.last_added_frame + 1) as Frame, input: self.newest().input }
        }
    }

    /// Whether a fetch of `frame` is answered from the buffer.
    pub open spec fn serves_confirmed(self, frame: Frame) -> bool {
        !self.predicting() && self.is_buffered(frame as int)
    }

    /// The state after `frame` was fetched.
    pub open spec fn get_input(self, frame: Frame) -> Self {
        if self.predicting() || self.is_buffered(frame as int) {
            QueueView { last_frame_requested: frame, ..self }
        } else {
            QueueView { last_frame_requested: frame, prediction: self.seed(frame), ..self }
        }
    }

    /// The answer to a fetch of `frame`.
    pub open spec fn fetched(self, frame: Frame) -> FetchedInput<T> {
        if self.serves_confirmed(frame) {
            FetchedInput::Normal(self.stored(frame as int))
        } else {
            FetchedInput::Prediction(
                FrameInput { frame, input: self.get_input(frame).prediction.input },
            )
        }
    }

    /// Whether the outstanding prediction, if any, is the one for `frame`.
    pub open spec fn predicts(self, frame: Frame) -> bool {
        self.predicting() && self.prediction.frame == frame
    }

    /// The first incorrect frame after `input` was stored as frame `frame`:
    /// the one recorded before, or `frame` if none was recorded and `input`
    /// differs from the prediction for that very frame.
    pub open spec fn first_incorrect_after(self, frame: Frame, input: FrameInput<T>) -> Frame {
        if self.predicts(frame) && is_null(self.first_incorrect_frame) && input
            != self.prediction {
            frame
        } else {
            self.first_incorrect_frame
        }
    }

    /// The frame of the prediction after `input` was stored as frame `frame`:
    /// unchanged if the prediction is for another frame; null if this was
    /// the frame fetched last and nothing has been mispredicted; one more
    /// otherwise.
    pub open spec fn prediction_frame_after(self, frame: Frame, input: FrameInput<T>) -> Frame {
        if !self.predicts(frame) {
            self.prediction.frame
        } else if frame == self.last_frame_requested && is_null(
            self.first_incorrect_after(frame, input),
        ) {
            NULL_FRAME
        } else {
            (frame + 1) as Frame
        }
    }

    /// The state after the payload of `input` was stored as frame `frame`.
    pub open spec fn store(self, frame: Frame, input: FrameInput<T>) -> Self {
        QueueView {
            slots: self.slots.update(
                slot(frame as int, self.capacity()),
                FrameInput { frame, input: input.input },
            ),
            len: self.len + 1,
            last_added_frame: frame,
            first_incorrect_frame: self.first_incorrect_after(frame, input),
            prediction: FrameInput {
                frame: self.prediction_frame_after(frame, input),
                input: self.prediction.input,
            },
            ..self
        }
    }

    /// The state after copies of the newest entry were stored for the frames
    /// from [`Self::expected_frame`] up to, not including, `target`.
    pub open spec fn pad_to(self, target: int) -> Self
        decreases target - self.expected_frame(),
    {
        if self.expected_frame() < target <= i32::MAX {
            self.store(self.expected_frame() as Frame, self.newest()).pad_to(target)
        } else {
            self
        }
    }

    /// The frame under which an input handed in for `frame` is stored.
    pub open spec fn target_frame(self, frame: Frame) -> int {
        frame + self.frame_delay
    }

    /// Whether an input handed in for `frame` is dropped: the delay went down
    /// and its target frame has been stored already.
    pub open spec fn drops(self, frame: Frame) -> bool {
        self.target_frame(frame) < self.expected_frame()
    }

    /// The number of entries that handing in an input for `frame` stores: the
    /// padding and the input itself, or none if the input is dropped.
    pub open spec fn stores(self, frame: Frame) -> int {
        if self.drops(frame) {
            0
        } else {
            self.target_frame(frame) - self.expected_frame() + 1
        }
    }

    /// Whether an input for `frame` may be handed in: it follows the last one,
    /// its target frame is below the largest frame number, and the buffer has
    /// room for what will be stored.
    pub open spec fn accepts(self, frame: Frame) -> bool {
        &&& is_null(self.last_user_added_frame) || frame == self.last_user_added_frame + 1
        &&& self.target_frame(frame) < i32::MAX
        &&& self.len + self.stores(frame) <= self.capacity()
    }

    /// The state after `input` was handed in.
    pub open spec fn add_input(self, input: FrameInput<T>) -> Self {
        let noted = QueueView { last_user_added_frame: input.frame, ..self };
        if self.drops(input.frame) {
            noted
        } else {
            noted.pad_to(self.target_frame(input.frame)).store(
                self.target_frame(input.frame) as Frame,
                input,
            )
        }
    }

    /// The frame under which `add_input` stored an input handed in for
    /// `frame`; null if it was dropped.
    pub open spec fn added_frame(self, frame: Frame) -> Frame {
        if self.drops(frame) {
            NULL_FRAME
        } else {
            self.target_frame(frame) as Frame
        }
    }

    /// Whether padding up to `target` stores the frame that the outstanding
    /// prediction is for.
    pub open spec fn pads_over_prediction(self, target: int) -> bool {
        self.predicting() && self.expected_frame() <= self.prediction.frame < target
    }

    /// The first incorrect frame after padding up to `target`. A copy of the
    /// newest entry carries that entry's frame, so it never equals the
    /// prediction for the frame it is stored under: if none was recorded and
    /// the padding stores the predicted frame, that frame is recorded.
    pub open spec fn first_incorrect_padded(self, target: int) -> Frame {
        if is_null(self.first_incorrect_frame) && self.pads_over_prediction(target) {
            self.prediction.frame
        } else {
            self.first_incorrect_frame
        }
    }

    /// The frame of the prediction after padding up to `target`: `target` if
    /// the padding stores the predicted frame, else unchanged.
    pub open spec fn prediction_frame_padded(self, target: int) -> Frame {
        if self.pads_over_prediction(target) {
            target as Frame
        } else {
            self.prediction.frame
        }
    }

    /// Whether `after` is what padding up to `target` makes of the state,
    /// said without recursion.
    pub open spec fn padded_as(self, target: int, after: Self) -> bool {
        &&& after.capacity() == self.capacity()
        &&& after.expected_frame() == target
        &&& after.len == self.len + (target - self.expected_frame())
        &&& after.frame_delay == self.frame_delay
        &&& after.last_user_added_frame == self.last_user_added_frame
        &&& after.last_frame_requested == self.last_frame_requested
        &&& after.zero == self.zero
        &&& after.prediction.input == self.prediction.input
        &&& after.prediction.frame == self.prediction_frame_padded(target)
        &&& after.first_incorrect_frame == self.first_incorrect_padded(target)
        &&& forall|frame: int|
            self.expected_frame() <= frame < target ==> #[trigger] after.stored(frame)
                == (FrameInput { frame: frame as Frame, input: self.newest().input })
        &&& forall|frame: int|
            after.is_retained(frame) && frame < self.expected_frame() ==> self.is_retained(frame)
                && #[trigger] after.stored(frame) == self.stored(frame)
    }

    /// The bookkeeping of the prediction once the padding for an input with
    /// target frame `target` is stored, on an otherwise unchanged state.
    pub open spec fn checked_padding(self, target: int) -> Self {
        QueueView {
            first_incorrect_frame: self.first_incorrect_padded(target),
            prediction: FrameInput {
                frame: self.prediction_frame_padded(target),
                input: self.prediction.input,
            },
            ..self
        }
    }

    /// Whether `after` is what handing in `input` makes of the state, said
    /// without recursion. A dropped input changes nothing but the frame
    /// handed in last. Otherwise the frames that the delay has left out hold
    /// the payload of the entry that was the newest before, the target frame
    /// holds the payload of `input`, what was retained before and still fits
    /// stays, and `input` is checked against the prediction as it stands
    /// after the padding.
    pub open spec fn added_as(self, input: FrameInput<T>, after: Self) -> bool {
        let target = self.target_frame(input.frame);
        if self.drops(input.frame) {
            after == (QueueView { last_user_added_frame: input.frame, ..self })
        } else {
            &&& after.capacity() == self.capacity()
            &&& after.last_added_frame == target
            &&& after.len == self.len + self.stores(input.frame)
            &&& after.frame_delay == self.frame_delay
            &&& after.last_user_added_frame == input.frame
            &&& after.last_frame_requested == self.last_frame_requested
            &&& after.zero == self.zero
            &&& after.prediction.input == self.prediction.input
            &&& after.prediction.frame == self.checked_padding(target).prediction_frame_after(
                target as Frame,
                input,
            )
            &&& after.first_incorrect_frame == self.checked_padding(target).first_incorrect_after(
                target as Frame,
                input,
            )
            &&& after.stored(target) == (FrameInput { frame: target as Frame, input: input.input })
            &&& forall|frame: int|
                self.expected_frame() <= frame < target ==> #[trigger] after.stored(frame)
                    == (FrameInput { frame: frame as Frame, input: self.newest().input })
            &&& forall|frame: int|
                after.is_retained(frame) && frame < self.expected_frame() ==> self.is_retained(
                    frame,
                ) && #[trigger] after.stored(frame) == self.stored(frame)
        }
    }

    /// The state after the inputs of `inputs` were handed in one after the
    /// other.
    pub open spec fn add_all(self, inputs: Seq<FrameInput<T>>) -> Self
        decreases inputs.len(),
    {
        if inputs.len() == 0 {
            self
        } else {
            self.add_all(inputs.drop_last()).add_input(inputs.last())
        }
    }

    /// Whether the inputs of `inputs` may be handed in one after the other.
    pub open spec fn accepts_all(self, inputs: Seq<FrameInput<T>>) -> bool
        decreases inputs.len(),
    {
        inputs.len() > 0 ==> self.accepts_all(inputs.drop_last()) && self.add_all(
            inputs.drop_last(),
        ).accepts(inputs.last().frame)
    }

    /// The frames that are buffered.
    pub open spec fn buffered_frames(self) -> Set<int> {
        Set::new(|frame: int| self.is_buffered(frame))
    }

    /// The invariant speaks of the slots, the counters and the recorded
    /// frames only: a state that has the slots of a valid one, buffers no more
    /// of them and records frames in range is valid.
    pub proof fn lemma_inv_of_same_buffer(self, other: Self)
        requires
            self.inv(),
            other.slots == self.slots,
            other.len <= self.len,
            other.last_added_frame == self.last_added_frame,
            other.zero == self.zero,
            other.first_incorrect_frame == NULL_FRAME || 0 <= other.first_incorrect_frame
                <= other.last_added_frame,
            other.prediction.frame >= NULL_FRAME,
        ensures
            other.inv(),
    {
        assert forall|frame: int| other.is_retained(frame) implies (#[trigger] other.stored(
            frame,
        )).frame == frame by {
            assert(self.stored(frame).frame == frame);
        }
        assert forall|i: int| other.last_added_frame < i < other.capacity() implies #[trigger] other.slots[i]
            == other.blank() by {
            assert(self.slots[i] == self.blank());
        }
    }

    /// Storing the next frame keeps the invariant, puts the payload into the
    /// slot of the frame and leaves the other retained frames in theirs.
    pub proof fn lemma_store(self, frame: Frame, input: FrameInput<T>)
        requires
            self.inv(),
            frame == self.expected_frame(),
            frame < i32::MAX,
            self.len < self.capacity(),
        ensures
            self.store(frame, input).inv(),
            self.store(frame, input).capacity() == self.capacity(),
            self.store(frame, input).stored(frame as int) == (FrameInput {
                frame,
                input: input.input,
            }),
            self.store(frame, input).newest() == (FrameInput { frame, input: input.input }),
            forall|other: int|
                self.store(frame, input).is_retained(other) && other != frame ==> self.is_retained(
                    other,
                ) && #[trigger] self.store(frame, input).stored(other) == self.stored(other),
    {
        let after = self.store(frame, input);
        let capacity = self.capacity();
        let head = slot(frame as int, capacity);
        lemma_slot_in_ring(frame as int, capacity);
        assert forall|other: int| after.is_retained(other) && other != frame implies self.is_retained(
            other,
        ) && #[trigger] after.stored(other) == self.stored(other) by {
            lemma_slot_in_ring(other, capacity);
            if slot(other, capacity) == head {
                lemma_slot_unique(other, frame as int, capacity);
            }
        }
        assert forall|other: int| after.is_retained(other) implies (#[trigger] after.stored(
            other,
        )).frame == other by {
            if other != frame {
                assert(self.stored(other).frame == other);
            }
        }
        assert forall|i: int| after.last_added_frame < i < after.capacity() implies #[trigger] after.slots[i]
            == after.blank() by {
            lemma_slot_of_small(frame as int, capacity);
            assert(self.slots[i] == self.blank());
        }
    }

    /// A queue that has seen no input is valid.
    pub proof fn lemma_new(capacity: nat, frame_delay: Frame, zero: T)
        requires
            capacity > 0,
        ensures
            Self::new(capacity, frame_delay, zero).inv(),
            Self::new(capacity, frame_delay, zero).capacity() == capacity,
            Self::new(capacity, frame_delay, zero).entries() == Seq::<FrameInput<T>>::empty(),
    {
        let fresh = Self::new(capacity, frame_delay, zero);
        assert(fresh.entries() =~= Seq::<FrameInput<T>>::empty());
    }

    /// The buffered entries carry consecutive frames, starting with the
    /// oldest buffered frame.
    pub proof fn lemma_entries_consecutive(self)
        requires
            self.inv(),
        ensures
            self.entries().len() == self.len,
            forall|i: int|
                0 <= i < self.len ==> (#[trigger] self.entries()[i]).frame == self.oldest_frame()
                    + i,
            forall|i: int|
                0 <= i < self.len ==> #[trigger] self.entries()[i] == self.stored(
                    self.oldest_frame() + i,
                ),
    {
        assert forall|i: int| 0 <= i < self.len implies (#[trigger] self.entries()[i]).frame
            == self.oldest_frame() + i by {
            assert(self.is_retained(self.oldest_frame() + i));
            assert(self.stored(self.oldest_frame() + i).frame == self.oldest_frame() + i);
        }
    }

    /// A valid state keeps, as its newest entry, the frame stored last; while
    /// nothing has been stored that entry is blank.
    pub proof fn lemma_newest(self)
        requires
            self.inv(),
        ensures
            self.newest().frame == self.last_added_frame,
            is_null(self.last_added_frame) ==> self.newest() == self.blank(),
    {
        if is_null(self.last_added_frame) {
            lemma_slot_of_small(self.capacity() - 1, self.capacity());
            lemma_slot_of_next(-1, self.capacity());
            assert(self.slots[self.capacity() - 1] == self.blank());
        } else {
            assert(self.is_retained(self.last_added_frame as int));
        }
    }

    /// What padding amounts to. The frames from the expected one up to, not
    /// including, `target` are stored with the payload of the entry that was
    /// the newest before; what was retained before and still fits stays; the
    /// prediction bookkeeping is as the two `_padded` functions say.
    pub proof fn lemma_pad_to(self, target: int)
        requires
            self.inv(),
            self.expected_frame() <= target < i32::MAX,
            self.len + (target - self.expected_frame()) <= self.capacity(),
        ensures
            self.pad_to(target).inv(),
            self.padded_as(target, self.pad_to(target)),
        decreases target - self.expected_frame(),
    {
        if self.expected_frame() < target {
            let frame = self.expected_frame() as Frame;
            let next = self.store(frame, self.newest());
            let padded = self.pad_to(target);
            self.lemma_newest();
            self.lemma_store(frame, self.newest());
            next.lemma_pad_to(target);
            assert(padded == next.pad_to(target));
            assert forall|other: int| self.expected_frame() <= other < target implies #[trigger] padded.stored(
                other,
            ) == (FrameInput { frame: other as Frame, input: self.newest().input }) by {
                if other == frame {
                    assert(padded.is_retained(other));
                    assert(padded.stored(other) == next.stored(other));
                }
            }
            assert forall|other: int|
                padded.is_retained(other) && other < self.expected_frame() implies self.is_retained(
                other,
            ) && #[trigger] padded.stored(other) == self.stored(other) by {
                assert(padded.stored(other) == next.stored(other));
                assert(next.is_retained(other));
                assert(next.stored(other) == self.stored(other));
            }
        }
    }

    /// What handing in an input amounts to: the state afterwards is valid and
    /// is the one that [`Self::added_as`] describes.
    pub proof fn lemma_add_input(self, input: FrameInput<T>)
        requires
            self.inv(),
            self.accepts(input.frame),
        ensures
            self.add_input(input).inv(),
            self.added_as(input, self.add_input(input)),
    {
        let noted = QueueView { last_user_added_frame: input.frame, ..self };
        self.lemma_inv_of_same_buffer(noted);
        if !self.drops(input.frame) {
            let target = self.target_frame(input.frame);
            let padded = noted.pad_to(target);
            let added = self.add_input(input);
            noted.lemma_pad_to(target);
            padded.lemma_store(target as Frame, input);
            assert(noted.newest() == self.newest());
            assert forall|frame: int| self.expected_frame() <= frame < target implies #[trigger] added.stored(
                frame,
            ) == (FrameInput { frame: frame as Frame, input: self.newest().input }) by {
                assert(added.is_retained(frame));
                assert(added.stored(frame) == padded.stored(frame));
            }
            assert forall|frame: int|
                added.is_retained(frame) && frame < self.expected_frame() implies self.is_retained(
                frame,
            ) && #[trigger] added.stored(frame) == self.stored(frame) by {
                assert(added.stored(frame) == padded.stored(frame));
                assert(padded.is_retained(frame));
                assert(padded.stored(frame) == noted.stored(frame));
            }
        }
    }
}

} // verus!
