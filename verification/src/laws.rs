//! What holds across operations of an input queue, proved over its model.

use vstd::prelude::*;
use vstd::set_lib::{lemma_int_range, set_int_range};
use crate::frame::{is_null, Frame, NULL_FRAME};
use crate::input::{FetchedInput, FrameInput};
use crate::model::QueueView;

verus! {

/// Handing in any inputs that the queue accepts keeps its state valid and
/// leaves the capacity, the delay, the frame fetched last and the zero
/// payload alone.
pub proof fn lemma_add_all_keeps_valid<T>(queue: QueueView<T>, inputs: Seq<FrameInput<T>>)
    requires
        queue.inv(),
        queue.accepts_all(inputs),
    ensures
        queue.add_all(inputs).inv(),
        queue.add_all(inputs).capacity() == queue.capacity(),
        queue.add_all(inputs).frame_delay == queue.frame_delay,
        queue.add_all(inputs).last_frame_requested == queue.last_frame_requested,
        queue.add_all(inputs).zero == queue.zero,
        queue.add_all(inputs).prediction.input == queue.prediction.input,
    decreases inputs.len(),
{
    if inputs.len() > 0 {
        lemma_add_all_keeps_valid(queue, inputs.drop_last());
        queue.add_all(inputs.drop_last()).lemma_add_input(inputs.last());
    }
}

/// A recorded misprediction is sticky: once a first incorrect frame is set,
/// no input handed in later changes it, whatever it holds. Changing the
/// delay and discarding entries leave it alone as well; only a reset of the
/// prediction clears it.
pub proof fn lemma_misprediction_is_sticky<T>(
    queue: QueueView<T>,
    inputs: Seq<FrameInput<T>>,
    frame_delay: Frame,
    discarded: Frame,
)
    requires
        queue.inv(),
        queue.accepts_all(inputs),
        !is_null(queue.first_incorrect_frame),
    ensures
        queue.add_all(inputs).first_incorrect_frame == queue.first_incorrect_frame,
        queue.set_frame_delay(frame_delay).first_incorrect_frame == queue.first_incorrect_frame,
        queue.discard_confirmed_frames(discarded).first_incorrect_frame
            == queue.first_incorrect_frame,
        is_null(queue.reset_prediction().first_incorrect_frame),
    decreases inputs.len(),
{
    if inputs.len() > 0 {
        lemma_add_all_keeps_valid(queue, inputs.drop_last());
        lemma_misprediction_is_sticky(queue, inputs.drop_last(), frame_delay, discarded);
        queue.add_all(inputs.drop_last()).lemma_add_input(inputs.last());
    }
}

/// Inputs with consecutive frames, handed in under a constant delay to a
/// queue that has not stored the first target frame yet and that has room
/// for them, are all accepted; each is stored under its frame plus the
/// delay, and afterwards the slot of that frame holds exactly the payload
/// that was handed in.
pub proof fn lemma_sequencing<T>(queue: QueueView<T>, inputs: Seq<FrameInput<T>>)
    requires
        queue.inv(),
        inputs.len() > 0,
        forall|i: int| 0 <= i < inputs.len() ==> (#[trigger] inputs[i]).frame == inputs[0].frame + i,
        is_null(queue.last_user_added_frame) || inputs[0].frame == queue.last_user_added_frame
            + 1,
        !queue.drops(inputs[0].frame),
        queue.target_frame(inputs[0].frame) + inputs.len() <= i32::MAX,
        queue.len + queue.stores(inputs[0].frame) + inputs.len() - 1 <= queue.capacity(),
    ensures
        queue.accepts_all(inputs),
        queue.add_all(inputs).inv(),
        queue.add_all(inputs).capacity() == queue.capacity(),
        queue.add_all(inputs).frame_delay == queue.frame_delay,
        queue.add_all(inputs).last_user_added_frame == inputs.last().frame,
        queue.add_all(inputs).last_added_frame == inputs.last().frame + queue.frame_delay,
        queue.add_all(inputs).len == queue.len + queue.stores(inputs[0].frame) + inputs.len() - 1,
        forall|i: int|
            0 <= i < inputs.len() ==> (#[trigger] queue.add_all(inputs.take(i))).added_frame(
                inputs[i].frame,
            ) == inputs[i].frame + queue.frame_delay,
        forall|i: int|
            0 <= i < inputs.len() ==> queue.add_all(inputs).stored(
                (#[trigger] inputs[i]).frame + queue.frame_delay,
            ) == (FrameInput {
                frame: (inputs[i].frame + queue.frame_delay) as Frame,
                input: inputs[i].input,
            }),
    decreases inputs.len(),
{
    let earlier = inputs.drop_last();
    let last = inputs.last();
    let before = queue.add_all(earlier);
    let after = queue.add_all(inputs);
    if earlier.len() > 0 {
        assert(earlier[0] == inputs[0]);
        assert forall|i: int| 0 <= i < earlier.len() implies (#[trigger] earlier[i]).frame
            == earlier[0].frame + i by {
            assert(earlier[i] == inputs[i]);
        }
        lemma_sequencing(queue, earlier);
        assert(earlier.last() == inputs[inputs.len() - 2]);
    }
    assert(queue.accepts_all(earlier));
    assert(last == inputs[inputs.len() - 1]);
    assert(is_null(before.last_user_added_frame) || last.frame == before.last_user_added_frame + 1);
    assert(before.target_frame(last.frame) < i32::MAX);
    assert(before.len + before.stores(last.frame) <= before.capacity());
    before.lemma_add_input(last);
    assert(inputs.take(inputs.len() - 1) =~= earlier);
    assert forall|i: int| 0 <= i < inputs.len() implies (#[trigger] queue.add_all(
        inputs.take(i),
    )).added_frame(inputs[i].frame) == inputs[i].frame + queue.frame_delay by {
        if i < earlier.len() {
            assert(inputs.take(i) =~= earlier.take(i));
            assert(earlier[i] == inputs[i]);
        }
    }
    assert forall|i: int| 0 <= i < inputs.len() implies after.stored(
        (#[trigger] inputs[i]).frame + queue.frame_delay,
    ) == (FrameInput {
        frame: (inputs[i].frame + queue.frame_delay) as Frame,
        input: inputs[i].input,
    }) by {
        if i < earlier.len() {
            let frame = inputs[i].frame + queue.frame_delay;
            assert(earlier[i] == inputs[i]);
            assert(after.is_retained(frame));
            assert(after.stored(frame) == before.stored(frame));
        }
    }
}

/// On a queue that has seen no input, inputs for the frames 0, 1, 2, ...
/// handed in under the delay `frame_delay` are stored under their frame plus
/// the delay, and the slot of that frame then holds the payload that was
/// handed in.
pub proof fn lemma_sequencing_from_start<T>(
    capacity: nat,
    frame_delay: Frame,
    zero: T,
    inputs: Seq<FrameInput<T>>,
)
    requires
        inputs.len() > 0,
        forall|i: int| 0 <= i < inputs.len() ==> (#[trigger] inputs[i]).frame == i,
        0 <= frame_delay,
        frame_delay + inputs.len() <= capacity,
        frame_delay + inputs.len() <= i32::MAX,
    ensures
        QueueView::new(capacity, frame_delay, zero).accepts_all(inputs),
        forall|i: int|
            0 <= i < inputs.len() ==> (#[trigger] QueueView::new(
                capacity,
                frame_delay,
                zero,
            ).add_all(inputs.take(i))).added_frame(i as Frame) == i + frame_delay,
        forall|i: int|
            0 <= i < inputs.len() ==> QueueView::new(capacity, frame_delay, zero).add_all(
                inputs,
            ).stored(i + frame_delay) == (FrameInput {
                frame: (i + frame_delay) as Frame,
                input: (#[trigger] inputs[i]).input,
            }),
{
    let fresh = QueueView::new(capacity, frame_delay, zero);
    QueueView::lemma_new(capacity, frame_delay, zero);
    lemma_sequencing(fresh, inputs);
    assert forall|i: int| 0 <= i < inputs.len() implies (#[trigger] fresh.add_all(
        inputs.take(i),
    )).added_frame(i as Frame) == i + frame_delay by {
        assert(inputs[i].frame == i);
    }
}

/// On a queue that has seen no input, a fetch of frame zero is answered with
/// a prediction of the zero payload. On a queue that is not predicting, a
/// fetch of a frame beyond the one stored last is answered with a prediction
/// that carries the payload stored last and the requested frame, and the
/// frame stored next is the first to be compared with it.
pub proof fn lemma_prediction_seeding<T>(
    queue: QueueView<T>,
    frame: Frame,
    capacity: nat,
    frame_delay: Frame,
    zero: T,
)
    requires
        queue.inv(),
        !queue.predicting(),
        !is_null(queue.last_added_frame),
        frame > queue.last_added_frame,
        capacity > 0,
    ensures
        QueueView::new(capacity, frame_delay, zero).fetched(0) == FetchedInput::Prediction(
            FrameInput { frame: 0, input: zero },
        ),
        queue.newest().frame == queue.last_added_frame,
        queue.fetched(frame) == FetchedInput::Prediction(
            FrameInput { frame, input: queue.newest().input },
        ),
        queue.get_input(frame).predicts(queue.expected_frame() as Frame),
        queue.get_input(frame).last_frame_requested == frame,
{
    assert(queue.is_retained(queue.last_added_frame as int));
}

/// A run of inputs that match the prediction keeps the queue predicting as
/// long as the frame fetched last has not been reached.
proof fn lemma_matching_run<T>(queue: QueueView<T>, inputs: Seq<FrameInput<T>>)
    requires
        queue.inv(),
        queue.predicts(queue.expected_frame() as Frame),
        is_null(queue.first_incorrect_frame),
        queue.frame_delay == 0,
        queue.last_frame_requested >= queue.prediction.frame + inputs.len(),
        forall|i: int|
            0 <= i < inputs.len() ==> (#[trigger] inputs[i]).frame == queue.prediction.frame + i
                && inputs[i].input == queue.prediction.input,
        is_null(queue.last_user_added_frame) || queue.prediction.frame
            == queue.last_user_added_frame + 1,
        queue.len + inputs.len() <= queue.capacity(),
    ensures
        queue.accepts_all(inputs),
        queue.add_all(inputs).inv(),
        queue.add_all(inputs).capacity() == queue.capacity(),
        queue.add_all(inputs).predicts((queue.prediction.frame + inputs.len()) as Frame),
        queue.add_all(inputs).expected_frame() == queue.prediction.frame + inputs.len(),
        is_null(queue.add_all(inputs).first_incorrect_frame),
        queue.add_all(inputs).frame_delay == 0,
        queue.add_all(inputs).last_frame_requested == queue.last_frame_requested,
        queue.add_all(inputs).prediction.input == queue.prediction.input,
        queue.add_all(inputs).len == queue.len + inputs.len(),
        inputs.len() > 0 ==> queue.add_all(inputs).last_user_added_frame == queue.prediction.frame
            + inputs.len() - 1,
    decreases inputs.len(),
{
    if inputs.len() > 0 {
        let earlier = inputs.drop_last();
        let last = inputs.last();
        assert forall|i: int| 0 <= i < earlier.len() implies (#[trigger] earlier[i]).frame
            == queue.prediction.frame + i && earlier[i].input == queue.prediction.input by {
            assert(earlier[i] == inputs[i]);
        }
        lemma_matching_run(queue, earlier);
        let before = queue.add_all(earlier);
        assert(last == inputs[inputs.len() - 1]);
        assert(last == before.prediction);
        assert(before.accepts(last.frame));
        before.lemma_add_input(last);
        before.lemma_store(last.frame, last);
    }
}

/// Take a queue that predicts the next frame to be stored, has recorded no
/// misprediction and stores inputs under their own frame. If the inputs up
/// to the frame fetched last are handed in and each equals the prediction
/// for its frame, the queue is predicting, with no misprediction recorded,
/// until the last of them is stored; then it has left prediction, still with
/// no misprediction recorded.
pub proof fn lemma_prediction_resolves<T>(queue: QueueView<T>, inputs: Seq<FrameInput<T>>)
    requires
        queue.inv(),
        queue.predicts(queue.expected_frame() as Frame),
        is_null(queue.first_incorrect_frame),
        queue.frame_delay == 0,
        inputs.len() > 0,
        queue.last_frame_requested == queue.prediction.frame + inputs.len() - 1,
        forall|i: int|
            0 <= i < inputs.len() ==> (#[trigger] inputs[i]).frame == queue.prediction.frame + i
                && inputs[i].input == queue.prediction.input,
        is_null(queue.last_user_added_frame) || queue.prediction.frame
            == queue.last_user_added_frame + 1,
        queue.last_frame_requested < i32::MAX,
        queue.len + inputs.len() <= queue.capacity(),
    ensures
        queue.accepts_all(inputs),
        queue.add_all(inputs).inv(),
        !queue.add_all(inputs).predicting(),
        is_null(queue.add_all(inputs).first_incorrect_frame),
        queue.add_all(inputs).last_added_frame == queue.last_frame_requested,
        forall|served: int|
            0 <= served < inputs.len() ==> {
                &&& (#[trigger] queue.add_all(inputs.take(served))).predicting()
                &&& is_null(queue.add_all(inputs.take(served)).first_incorrect_frame)
            },
{
    let earlier = inputs.drop_last();
    let last = inputs.last();
    assert forall|i: int| 0 <= i < earlier.len() implies (#[trigger] earlier[i]).frame
        == queue.prediction.frame + i && earlier[i].input == queue.prediction.input by {
        assert(earlier[i] == inputs[i]);
    }
    lemma_matching_run(queue, earlier);
    let before = queue.add_all(earlier);
    assert(last == inputs[inputs.len() - 1]);
    assert(last == before.prediction);
    assert(before.accepts(last.frame));
    before.lemma_add_input(last);
    before.lemma_store(last.frame, last);
    assert forall|served: int| 0 <= served < inputs.len() implies {
        &&& (#[trigger] queue.add_all(inputs.take(served))).predicting()
        &&& is_null(queue.add_all(inputs.take(served)).first_incorrect_frame)
    } by {
        let run = inputs.take(served);
        assert forall|i: int| 0 <= i < run.len() implies (#[trigger] run[i]).frame
            == queue.prediction.frame + i && run[i].input == queue.prediction.input by {
            assert(run[i] == inputs[i]);
        }
        lemma_matching_run(queue, run);
    }
}

/// Take a queue that is not predicting, has recorded no misprediction and
/// stores inputs under their own frame. A fetch of a frame other than zero
/// that has not been stored yet starts a prediction; if the inputs up to
/// that frame are then handed in and each carries the predicted payload, the
/// queue has left prediction once the last of them is stored, with no
/// misprediction recorded.
pub proof fn lemma_fetched_prediction_resolves<T>(
    queue: QueueView<T>,
    frame: Frame,
    inputs: Seq<FrameInput<T>>,
)
    requires
        queue.inv(),
        !queue.predicting(),
        is_null(queue.first_incorrect_frame),
        queue.frame_delay == 0,
        frame != 0,
        frame >= queue.expected_frame(),
        frame < i32::MAX,
        inputs.len() == frame - queue.expected_frame() + 1,
        forall|i: int|
            0 <= i < inputs.len() ==> (#[trigger] inputs[i]).frame == queue.expected_frame() + i
                && inputs[i].input == queue.fetched(frame).inner().input,
        is_null(queue.last_user_added_frame) || queue.expected_frame()
            == queue.last_user_added_frame + 1,
        queue.len + inputs.len() <= queue.capacity(),
    ensures
        queue.fetched(frame) is Prediction,
        queue.get_input(frame).accepts_all(inputs),
        !queue.get_input(frame).add_all(inputs).predicting(),
        is_null(queue.get_input(frame).add_all(inputs).first_incorrect_frame),
        queue.get_input(frame).add_all(inputs).last_added_frame == frame,
{
    let fetching = queue.get_input(frame);
    queue.lemma_inv_of_same_buffer(fetching);
    lemma_prediction_resolves(fetching, inputs);
}

/// If the frame of the outstanding prediction, if any, has not been stored
/// yet, the same holds after any operation but one: a fetch of frame zero
/// that starts a prediction after frame one has been stored.
pub proof fn lemma_prediction_stays_ahead<T>(
    queue: QueueView<T>,
    input: FrameInput<T>,
    frame: Frame,
    frame_delay: Frame,
)
    requires
        queue.inv(),
        queue.prediction_ahead(),
    ensures
        queue.accepts(input.frame) ==> queue.add_input(input).prediction_ahead(),
        frame != 0 || queue.last_added_frame <= 0 ==> queue.get_input(frame).prediction_ahead(),
        queue.discard_confirmed_frames(frame).prediction_ahead(),
        queue.set_frame_delay(frame_delay).prediction_ahead(),
        queue.reset_prediction().prediction_ahead(),
        QueueView::new(queue.capacity() as nat, frame_delay, queue.zero).prediction_ahead(),
{
    if queue.accepts(input.frame) {
        queue.lemma_add_input(input);
    }
}

/// Discarding up to `frame` keeps exactly the buffered entries whose frame is
/// greater than the discard bound, in their order; their number is the
/// length afterwards, and it is zero when the bound is not below the frame
/// stored last. The bound is `frame` itself unless an older frame was
/// fetched last.
pub proof fn lemma_discard_keeps_newer<T>(queue: QueueView<T>, frame: Frame)
    requires
        queue.inv(),
        !is_null(frame),
    ensures
        queue.discard_confirmed_frames(frame).inv(),
        is_null(queue.last_frame_requested) || frame <= queue.last_frame_requested
            ==> queue.discard_bound(frame) == frame,
        queue.discard_confirmed_frames(frame).buffered_frames() == queue.buffered_frames().filter(
            |kept: int| kept > queue.discard_bound(frame),
        ),
        queue.buffered_frames().filter(|kept: int| kept > queue.discard_bound(frame)).finite(),
        queue.discard_confirmed_frames(frame).len == queue.buffered_frames().filter(
            |kept: int| kept > queue.discard_bound(frame),
        ).len(),
        queue.discard_bound(frame) >= queue.last_added_frame ==> queue.discard_confirmed_frames(
            frame,
        ).len == 0,
        queue.discard_confirmed_frames(frame).entries() == queue.entries().skip(
            queue.len - queue.discard_confirmed_frames(frame).len,
        ),
{
    let after = queue.discard_confirmed_frames(frame);
    let bound = queue.discard_bound(frame);
    let kept = queue.buffered_frames().filter(|kept: int| kept > bound);
    queue.lemma_inv_of_same_buffer(after);
    assert(after.buffered_frames() =~= kept);
    assert(kept =~= set_int_range(after.oldest_frame(), after.expected_frame()));
    lemma_int_range(after.oldest_frame(), after.expected_frame());
    assert(after.entries() =~= queue.entries().skip(queue.len - after.len));
}

/// When the delay went up, handing in the next input fills every frame that
/// was left out with a copy of the payload stored last, under that frame's
/// own number, and stores the input behind them, so the buffered entries
/// grow by the padding and the input and their frames stay consecutive.
pub proof fn lemma_delay_increase_pads<T>(queue: QueueView<T>, input: FrameInput<T>)
    requires
        queue.inv(),
        queue.accepts(input.frame),
        queue.target_frame(input.frame) > queue.expected_frame(),
    ensures
        queue.add_input(input).inv(),
        queue.added_frame(input.frame) == queue.target_frame(input.frame),
        queue.add_input(input).entries() == queue.entries() + Seq::new(
            (queue.target_frame(input.frame) - queue.expected_frame()) as nat,
            |i: int|
                FrameInput {
                    frame: (queue.expected_frame() + i) as Frame,
                    input: queue.newest().input,
                },
        ).push(
            FrameInput { frame: queue.target_frame(input.frame) as Frame, input: input.input },
        ),
        forall|i: int|
            0 <= i < queue.add_input(input).entries().len() ==> (#[trigger] queue.add_input(
                input,
            ).entries()[i]).frame == queue.oldest_frame() + i,
{
    let after = queue.add_input(input);
    let target = queue.target_frame(input.frame);
    queue.lemma_add_input(input);
    queue.lemma_entries_consecutive();
    after.lemma_entries_consecutive();
    let padding = Seq::new(
        (target - queue.expected_frame()) as nat,
        |i: int|
            FrameInput { frame: (queue.expected_frame() + i) as Frame, input: queue.newest().input },
    );
    let grown = queue.entries() + padding.push(
        FrameInput { frame: target as Frame, input: input.input },
    );
    assert(after.oldest_frame() == queue.oldest_frame());
    assert forall|i: int| 0 <= i < after.len implies after.entries()[i] == grown[i] by {
        let frame = queue.oldest_frame() + i;
        assert(after.entries()[i] == after.stored(frame));
        if i < queue.len {
            assert(after.is_retained(frame));
            assert(after.stored(frame) == queue.stored(frame));
        } else if frame < target {
            assert(after.stored(frame) == (FrameInput {
                frame: frame as Frame,
                input: queue.newest().input,
            }));
            assert(grown[i] == padding[i - queue.len]);
        } else {
            assert(after.stored(target) == after.newest());
        }
    }
    assert(after.entries() =~= grown);
}

/// When the delay went down so far that the target frame of the next input
/// has been stored already, handing the input in returns the null frame and
/// leaves everything but the frame handed in last as it was.
pub proof fn lemma_delay_decrease_drops<T>(queue: QueueView<T>, input: FrameInput<T>)
    requires
        queue.inv(),
        queue.target_frame(input.frame) < queue.expected_frame(),
    ensures
        queue.added_frame(input.frame) == NULL_FRAME,
        queue.add_input(input) == (QueueView { last_user_added_frame: input.frame, ..queue }),
        queue.add_input(input).slots == queue.slots,
        queue.add_input(input).entries() == queue.entries(),
        queue.add_input(input).inv(),
{
    queue.lemma_inv_of_same_buffer(queue.add_input(input));
}

} // verus!
