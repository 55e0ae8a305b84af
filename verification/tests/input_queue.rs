use backroll::{FetchedInput, Frame, FrameInput, InputQueue, MAX_ROLLBACK_FRAMES, NULL_FRAME};

const A: u32 = 0x0000_0011;
const B: u32 = 0x0000_0022;

fn input(frame: Frame, payload: u32) -> FrameInput<u32> {
    FrameInput { frame, input: payload }
}

fn zero() -> u32 {
    bytemuck::Zeroable::zeroed()
}

#[test]
fn new_queue_is_empty() {
    let queue = InputQueue::new(3, zero());
    assert_eq!(queue.len(), 0);
    assert_eq!(queue.capacity(), MAX_ROLLBACK_FRAMES);
    assert_eq!(queue.frame_delay(), 3);
    assert_eq!(queue.last_confirmed_frame(), NULL_FRAME);
    assert_eq!(queue.first_incorrect_frame(), NULL_FRAME);
    for frame in 0..MAX_ROLLBACK_FRAMES as Frame {
        assert_eq!(queue.get_confirmed_input(frame), Some(&input(NULL_FRAME, 0)));
    }
}

#[test]
fn with_capacity_sets_the_number_of_slots() {
    let queue = InputQueue::with_capacity(8, 0, zero());
    assert_eq!(queue.capacity(), 8);
    assert_eq!(queue.len(), 0);
}

#[test]
fn inputs_are_stored_under_their_frame_plus_the_delay() {
    for delay in 0..4 {
        let mut queue = InputQueue::with_capacity(16, delay, zero());
        for frame in 0..10 {
            assert!(queue.accepts(frame));
            assert_eq!(queue.add_input(input(frame, 100 + frame as u32)), frame + delay);
            assert_eq!(queue.last_confirmed_frame(), frame + delay);
        }
        for frame in 0..10 {
            assert_eq!(
                queue.get_confirmed_input(frame + delay),
                Some(&input(frame + delay, 100 + frame as u32))
            );
        }
        assert_eq!(queue.len(), 10 + delay as usize);
    }
}

#[test]
fn initial_delay_is_padded_with_zero_payloads() {
    let mut queue = InputQueue::with_capacity(8, 2, zero());
    assert_eq!(queue.add_input(input(0, A)), 2);
    assert_eq!(queue.len(), 3);
    assert_eq!(queue.get_confirmed_input(0), Some(&input(0, 0)));
    assert_eq!(queue.get_confirmed_input(1), Some(&input(1, 0)));
    assert_eq!(queue.get_confirmed_input(2), Some(&input(2, A)));
}

#[test]
fn first_input_beyond_frame_zero_is_padded_from_frame_zero() {
    let mut queue = InputQueue::with_capacity(8, 0, zero());
    assert_eq!(queue.add_input(input(3, A)), 3);
    assert_eq!(queue.len(), 4);
    for frame in 0..3 {
        assert_eq!(queue.get_input(frame), FetchedInput::Normal(input(frame, 0)));
    }
    assert_eq!(queue.get_input(3), FetchedInput::Normal(input(3, A)));
}

#[test]
fn fetch_of_frame_zero_from_empty_queue_predicts_zero_payload() {
    let mut queue = InputQueue::with_capacity(8, 0, zero());
    let fetched = queue.get_input(0);
    assert!(fetched.is_prediction());
    assert_eq!(fetched, FetchedInput::Prediction(input(0, 0)));
}

#[test]
fn fetch_from_empty_queue_predicts_zero_payload_for_any_frame() {
    let mut queue = InputQueue::with_capacity(8, 0, zero());
    assert_eq!(queue.get_input(5), FetchedInput::Prediction(input(5, 0)));
}

#[test]
fn fetch_beyond_last_confirmed_frame_repeats_last_payload() {
    let mut queue = InputQueue::with_capacity(8, 0, zero());
    queue.add_input(input(0, A));
    queue.add_input(input(1, B));
    assert_eq!(queue.get_input(2), FetchedInput::Prediction(input(2, B)));
    assert_eq!(queue.get_input(6), FetchedInput::Prediction(input(6, B)));
}

#[test]
fn fetch_of_buffered_frames_returns_what_was_stored() {
    let mut queue = InputQueue::with_capacity(8, 0, zero());
    queue.add_input(input(0, A));
    queue.add_input(input(1, B));
    queue.add_input(input(2, A));
    assert_eq!(queue.get_input(1), FetchedInput::Normal(input(1, B)));
    assert_eq!(queue.get_input(0), FetchedInput::Normal(input(0, A)));
    assert_eq!(queue.get_input(2), FetchedInput::Normal(input(2, A)));
}

#[test]
fn while_predicting_every_fetch_is_a_prediction() {
    let mut queue = InputQueue::with_capacity(8, 0, zero());
    queue.add_input(input(0, A));
    queue.add_input(input(1, B));
    assert_eq!(queue.get_input(4), FetchedInput::Prediction(input(4, B)));
    assert_eq!(queue.get_input(0), FetchedInput::Prediction(input(0, B)));
}

#[test]
fn misprediction_marks_first_incorrect_frame() {
    let mut queue = InputQueue::with_capacity(8, 0, zero());
    for (frame, payload) in [(0, A), (1, A), (2, B)] {
        assert_eq!(queue.add_input(input(frame, payload)), frame);
    }
    assert_eq!(queue.get_input(3), FetchedInput::Prediction(input(3, B)));
    assert_eq!(queue.first_incorrect_frame(), NULL_FRAME);
    assert_eq!(queue.add_input(input(3, A)), 3);
    assert_eq!(queue.first_incorrect_frame(), 3);
    assert_eq!(queue.add_input(input(4, A)), 4);
    assert_eq!(queue.first_incorrect_frame(), 3);
    assert_eq!(queue.len(), 5);
    assert_eq!(queue.get_confirmed_input(2), Some(&input(2, B)));
}

#[test]
fn first_incorrect_frame_is_sticky_until_reset() {
    let mut queue = InputQueue::with_capacity(16, 0, zero());
    queue.add_input(input(0, A));
    assert_eq!(queue.get_input(4), FetchedInput::Prediction(input(4, A)));
    assert_eq!(queue.add_input(input(1, A)), 1);
    assert_eq!(queue.first_incorrect_frame(), NULL_FRAME);
    assert_eq!(queue.add_input(input(2, B)), 2);
    assert_eq!(queue.first_incorrect_frame(), 2);
    assert_eq!(queue.add_input(input(3, 0x33)), 3);
    assert_eq!(queue.first_incorrect_frame(), 2);
    assert_eq!(queue.add_input(input(4, 0x44)), 4);
    assert_eq!(queue.first_incorrect_frame(), 2);
    queue.set_frame_delay(1);
    queue.discard_confirmed_frames(1);
    assert_eq!(queue.first_incorrect_frame(), 2);
    queue.reset_prediction(2);
    assert_eq!(queue.first_incorrect_frame(), NULL_FRAME);
    assert_eq!(queue.get_input(3), FetchedInput::Normal(input(3, 0x33)));
}

#[test]
fn matching_inputs_end_the_prediction_at_the_requested_frame() {
    let mut queue = InputQueue::with_capacity(8, 0, zero());
    queue.add_input(input(0, A));
    queue.add_input(input(1, B));
    assert_eq!(queue.get_input(4), FetchedInput::Prediction(input(4, B)));
    for frame in 2..4 {
        assert_eq!(queue.add_input(input(frame, B)), frame);
        assert_eq!(queue.first_incorrect_frame(), NULL_FRAME);
        assert!(queue.get_input(4).is_prediction());
    }
    assert_eq!(queue.add_input(input(4, B)), 4);
    assert_eq!(queue.first_incorrect_frame(), NULL_FRAME);
    assert_eq!(queue.get_input(4), FetchedInput::Normal(input(4, B)));
    assert_eq!(queue.get_input(0), FetchedInput::Normal(input(0, A)));
}

#[test]
fn prediction_from_nothing_is_compared_from_frame_zero() {
    let mut queue = InputQueue::with_capacity(8, 0, zero());
    assert_eq!(queue.get_input(2), FetchedInput::Prediction(input(2, 0)));
    assert_eq!(queue.add_input(input(0, A)), 0);
    assert_eq!(queue.first_incorrect_frame(), 0);
}

#[test]
fn prediction_for_frame_zero_is_compared_from_frame_one() {
    let mut queue = InputQueue::with_capacity(8, 0, zero());
    assert_eq!(queue.get_input(0), FetchedInput::Prediction(input(0, 0)));
    assert_eq!(queue.add_input(input(0, A)), 0);
    assert_eq!(queue.first_incorrect_frame(), NULL_FRAME);
    assert_eq!(queue.add_input(input(1, A)), 1);
    assert_eq!(queue.first_incorrect_frame(), 1);
}

#[test]
fn discard_keeps_the_entries_after_the_frame() {
    let mut queue = InputQueue::with_capacity(8, 0, zero());
    for frame in 0..6 {
        queue.add_input(input(frame, 10 + frame as u32));
    }
    queue.discard_confirmed_frames(2);
    assert_eq!(queue.len(), 3);
    assert_eq!(queue.last_confirmed_frame(), 5);
    for frame in 3..6 {
        assert_eq!(queue.get_input(frame), FetchedInput::Normal(input(frame, 10 + frame as u32)));
    }
}

#[test]
fn discard_up_to_the_last_frame_or_beyond_empties_the_buffer() {
    for bound in [5, 6, 100] {
        let mut queue = InputQueue::with_capacity(8, 0, zero());
        for frame in 0..6 {
            queue.add_input(input(frame, A));
        }
        queue.discard_confirmed_frames(bound);
        assert_eq!(queue.len(), 0);
        assert_eq!(queue.last_confirmed_frame(), 5);
        assert_eq!(queue.add_input(input(6, B)), 6);
        assert_eq!(queue.len(), 1);
        assert_eq!(queue.get_input(6), FetchedInput::Normal(input(6, B)));
    }
}

#[test]
fn discard_below_the_oldest_entry_keeps_everything() {
    let mut queue = InputQueue::with_capacity(8, 0, zero());
    for frame in 0..6 {
        queue.add_input(input(frame, A));
    }
    queue.discard_confirmed_frames(3);
    assert_eq!(queue.len(), 2);
    queue.discard_confirmed_frames(1);
    assert_eq!(queue.len(), 2);
    queue.discard_confirmed_frames(3);
    assert_eq!(queue.len(), 2);
}

#[test]
fn discard_on_an_emptied_buffer_changes_nothing() {
    let mut queue = InputQueue::with_capacity(8, 0, zero());
    for frame in 0..4 {
        queue.add_input(input(frame, A));
    }
    queue.discard_confirmed_frames(3);
    assert_eq!(queue.len(), 0);
    queue.discard_confirmed_frames(1);
    assert_eq!(queue.len(), 0);
    queue.discard_confirmed_frames(0);
    assert_eq!(queue.len(), 0);
}

#[test]
fn discard_does_not_pass_the_frame_fetched_last() {
    let mut queue = InputQueue::with_capacity(8, 0, zero());
    for frame in 0..6 {
        queue.add_input(input(frame, A));
    }
    assert_eq!(queue.get_input(1), FetchedInput::Normal(input(1, A)));
    queue.discard_confirmed_frames(4);
    assert_eq!(queue.len(), 4);
    assert_eq!(queue.get_input(2), FetchedInput::Normal(input(2, A)));
    assert_eq!(queue.get_input(5), FetchedInput::Normal(input(5, A)));
    queue.discard_confirmed_frames(4);
    assert_eq!(queue.len(), 1);
}

#[test]
fn raised_delay_fills_the_gap_with_copies_of_the_last_payload() {
    let mut queue = InputQueue::with_capacity(16, 1, zero());
    assert_eq!(queue.add_input(input(0, A)), 1);
    assert_eq!(queue.add_input(input(1, B)), 2);
    queue.set_frame_delay(4);
    assert_eq!(queue.frame_delay(), 4);
    assert_eq!(queue.add_input(input(2, A)), 6);
    assert_eq!(queue.len(), 7);
    assert_eq!(queue.last_confirmed_frame(), 6);
    let expected = [0, A, B, B, B, B, A];
    for frame in 0..7 {
        assert_eq!(
            queue.get_confirmed_input(frame),
            Some(&input(frame, expected[frame as usize]))
        );
        assert_eq!(queue.get_input(frame), FetchedInput::Normal(input(frame, expected[frame as usize])));
    }
}

#[test]
fn lowered_delay_drops_the_input_and_leaves_the_buffer_alone() {
    let mut queue = InputQueue::with_capacity(8, 3, zero());
    assert_eq!(queue.add_input(input(0, A)), 3);
    assert_eq!(queue.add_input(input(1, B)), 4);
    queue.set_frame_delay(1);
    assert!(queue.accepts(2));
    assert_eq!(queue.add_input(input(2, 0x77)), NULL_FRAME);
    assert_eq!(queue.len(), 5);
    assert_eq!(queue.last_confirmed_frame(), 4);
    assert_eq!(queue.first_incorrect_frame(), NULL_FRAME);
    let expected = [0, 0, 0, A, B];
    for frame in 0..5 {
        assert_eq!(
            queue.get_confirmed_input(frame),
            Some(&input(frame, expected[frame as usize]))
        );
    }
    assert_eq!(queue.add_input(input(3, 0x78)), NULL_FRAME);
    assert_eq!(queue.add_input(input(4, 0x79)), 5);
    assert_eq!(queue.get_confirmed_input(5), Some(&input(5, 0x79)));
}

#[test]
fn padding_over_a_predicted_frame_counts_as_misprediction() {
    let mut queue = InputQueue::with_capacity(8, 0, zero());
    queue.add_input(input(0, A));
    assert_eq!(queue.get_input(1), FetchedInput::Prediction(input(1, A)));
    queue.set_frame_delay(2);
    assert_eq!(queue.add_input(input(1, A)), 3);
    assert_eq!(queue.first_incorrect_frame(), 1);
}

#[test]
fn delayed_input_never_equals_the_prediction_for_its_target_frame() {
    let mut queue = InputQueue::with_capacity(8, 1, zero());
    assert_eq!(queue.add_input(input(0, A)), 1);
    assert_eq!(queue.get_input(2), FetchedInput::Prediction(input(2, A)));
    assert_eq!(queue.add_input(input(1, A)), 2);
    assert_eq!(queue.first_incorrect_frame(), 2);
}

#[test]
fn ring_wraps_around_after_discarding() {
    let mut queue = InputQueue::with_capacity(4, 0, zero());
    for frame in 0..4 {
        assert_eq!(queue.add_input(input(frame, 10 + frame as u32)), frame);
    }
    assert_eq!(queue.len(), 4);
    assert!(!queue.accepts(4));
    queue.discard_confirmed_frames(1);
    assert_eq!(queue.len(), 2);
    assert!(queue.accepts(4));
    assert_eq!(queue.add_input(input(4, 14)), 4);
    assert_eq!(queue.add_input(input(5, 15)), 5);
    assert_eq!(queue.len(), 4);
    assert!(!queue.accepts(6));
    for frame in 2..6 {
        assert_eq!(queue.get_confirmed_input(frame), Some(&input(frame, 10 + frame as u32)));
        assert_eq!(queue.get_input(frame), FetchedInput::Normal(input(frame, 10 + frame as u32)));
    }
    assert_eq!(queue.get_confirmed_input(0), Some(&input(4, 14)));
    assert_eq!(queue.get_confirmed_input(1), Some(&input(5, 15)));
    assert_eq!(queue.get_input(9), FetchedInput::Prediction(input(9, 15)));
    queue.discard_confirmed_frames(4);
    assert_eq!(queue.len(), 1);
    assert_eq!(queue.add_input(input(6, 15)), 6);
    assert_eq!(queue.first_incorrect_frame(), NULL_FRAME);
    assert_eq!(queue.len(), 2);
}

#[test]
fn long_run_through_the_default_ring() {
    let mut queue = InputQueue::new(2, zero());
    for frame in 0..1000 {
        assert!(queue.accepts(frame));
        assert_eq!(queue.add_input(input(frame, frame as u32 * 3)), frame + 2);
        if frame >= 10 {
            queue.discard_confirmed_frames(frame - 10);
            assert_eq!(queue.len(), 12);
        }
        assert_eq!(queue.get_input(frame + 2), FetchedInput::Normal(input(frame + 2, frame as u32 * 3)));
    }
    assert_eq!(queue.last_confirmed_frame(), 1001);
    assert_eq!(queue.get_confirmed_input(1001), Some(&input(1001, 999 * 3)));
    assert_eq!(queue.get_confirmed_input(900), Some(&input(900, 898 * 3)));
}

#[test]
fn confirmed_input_of_a_null_frame_is_absent() {
    let mut queue = InputQueue::with_capacity(4, 0, zero());
    queue.add_input(input(0, A));
    assert_eq!(queue.get_confirmed_input(NULL_FRAME), None);
    assert_eq!(queue.get_confirmed_input(-5), None);
    assert_eq!(queue.get_confirmed_input(0), Some(&input(0, A)));
}

#[test]
fn accepts_only_the_next_frame_that_fits() {
    let mut queue = InputQueue::with_capacity(4, 0, zero());
    assert!(queue.accepts(0));
    assert!(queue.accepts(3));
    assert!(!queue.accepts(4));
    assert!(!queue.accepts(i32::MAX));
    queue.add_input(input(0, A));
    assert!(queue.accepts(1));
    assert!(!queue.accepts(0));
    assert!(!queue.accepts(2));
    queue.set_frame_delay(2);
    assert!(queue.accepts(1));
    queue.set_frame_delay(3);
    assert!(!queue.accepts(1));
}

#[test]
fn reset_prediction_returns_to_confirmed_answers() {
    let mut queue = InputQueue::with_capacity(8, 0, zero());
    queue.add_input(input(0, A));
    assert_eq!(queue.get_input(1), FetchedInput::Prediction(input(1, A)));
    assert_eq!(queue.add_input(input(1, B)), 1);
    assert_eq!(queue.first_incorrect_frame(), 1);
    queue.reset_prediction(1);
    assert_eq!(queue.first_incorrect_frame(), NULL_FRAME);
    assert_eq!(queue.get_input(1), FetchedInput::Normal(input(1, B)));
    assert_eq!(queue.get_input(2), FetchedInput::Prediction(input(2, B)));
    assert_eq!(queue.add_input(input(2, B)), 2);
    assert_eq!(queue.first_incorrect_frame(), NULL_FRAME);
    assert_eq!(queue.get_input(2), FetchedInput::Normal(input(2, B)));
}

#[test]
fn scenario_with_five_frames_in_a_ring_of_eight() {
    let mut queue = InputQueue::with_capacity(8, 0, zero());
    assert_eq!(queue.add_input(input(0, A)), 0);
    assert_eq!(queue.add_input(input(1, A)), 1);
    assert_eq!(queue.add_input(input(2, B)), 2);
    let fetched = queue.get_input(3);
    assert!(fetched.is_prediction());
    assert_eq!(fetched.unwrap(), input(3, B));
    assert_eq!(queue.add_input(input(3, A)), 3);
    assert_eq!(queue.first_incorrect_frame(), 3);
    assert_eq!(queue.add_input(input(4, A)), 4);
    assert_eq!(queue.first_incorrect_frame(), 3);
    assert_eq!(queue.last_confirmed_frame(), 4);
    assert_eq!(queue.len(), 5);
}
