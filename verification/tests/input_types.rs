use backroll::{
    is_null, BackrollError, FetchedInput, FrameInput, GameInput, PlayerHandle, MAX_PLAYERS,
    MAX_ROLLBACK_FRAMES, NULL_FRAME,
};

#[test]
fn null_frame_is_null_and_frames_from_zero_are_not() {
    assert!(is_null(NULL_FRAME));
    assert!(is_null(-7));
    assert!(!is_null(0));
    assert!(!is_null(1));
    assert!(!is_null(i32::MAX));
    assert_eq!(NULL_FRAME, -1);
}

#[test]
fn limits_have_their_documented_values() {
    assert_eq!(MAX_PLAYERS, 8);
    assert_eq!(MAX_ROLLBACK_FRAMES, 120);
}

#[test]
fn empty_frame_input_has_null_frame_and_zero_payload() {
    let zero: u32 = bytemuck::Zeroable::zeroed();
    let input = FrameInput::empty(zero);
    assert_eq!(input.frame, NULL_FRAME);
    assert_eq!(input.input, 0);
}

#[test]
fn clear_resets_payload_and_keeps_frame() {
    let mut input = FrameInput { frame: 17, input: 0xdead_beefu32 };
    input.clear(bytemuck::Zeroable::zeroed());
    assert_eq!(input, FrameInput { frame: 17, input: 0 });
}

#[test]
fn frame_inputs_compare_by_frame_and_payload() {
    let a = FrameInput { frame: 3, input: 5u8 };
    assert_eq!(a, FrameInput { frame: 3, input: 5u8 });
    assert_ne!(a, FrameInput { frame: 4, input: 5u8 });
    assert_ne!(a, FrameInput { frame: 3, input: 6u8 });
    let b = a;
    assert_eq!(a, b.clone());
}

#[test]
fn empty_game_input_is_connected_and_zeroed() {
    let game = GameInput::empty(0u16);
    assert_eq!(game.frame, NULL_FRAME);
    assert_eq!(game.disconnected, 0);
    assert_eq!(game.inputs, [0u16; MAX_PLAYERS]);
    for player in 0..MAX_PLAYERS {
        assert_eq!(game.get(PlayerHandle(player)), Ok(&0u16));
        assert_eq!(game.is_disconnected(PlayerHandle(player)), Ok(false));
    }
}

#[test]
fn get_returns_the_payload_of_each_player() {
    let game = GameInput { frame: 9, disconnected: 0, inputs: [10u32, 11, 12, 13, 14, 15, 16, 17] };
    assert_eq!(game.get(PlayerHandle(0)), Ok(&10));
    assert_eq!(game.get(PlayerHandle(3)), Ok(&13));
    assert_eq!(game.get(PlayerHandle(7)), Ok(&17));
}

#[test]
fn get_rejects_handles_beyond_the_last_player() {
    let game = GameInput { frame: 9, disconnected: 0, inputs: [1u8; MAX_PLAYERS] };
    assert_eq!(game.get(PlayerHandle(8)), Err(BackrollError::InvalidPlayer(PlayerHandle(8))));
    assert_eq!(
        game.get(PlayerHandle(usize::MAX)),
        Err(BackrollError::InvalidPlayer(PlayerHandle(usize::MAX)))
    );
}

#[test]
fn is_disconnected_reads_the_bit_of_the_player() {
    let game = GameInput { frame: 2, disconnected: 0b1000_0101, inputs: [0u8; MAX_PLAYERS] };
    let expected = [true, false, true, false, false, false, false, true];
    for player in 0..MAX_PLAYERS {
        assert_eq!(game.is_disconnected(PlayerHandle(player)), Ok(expected[player]));
    }
}

#[test]
fn is_disconnected_rejects_handles_beyond_the_last_player() {
    let game = GameInput { frame: 2, disconnected: 0xff, inputs: [0u8; MAX_PLAYERS] };
    assert_eq!(
        game.is_disconnected(PlayerHandle(8)),
        Err(BackrollError::InvalidPlayer(PlayerHandle(8)))
    );
    assert_eq!(
        game.is_disconnected(PlayerHandle(200)),
        Err(BackrollError::InvalidPlayer(PlayerHandle(200)))
    );
}

#[test]
fn game_inputs_clone_to_equal_values() {
    let game = GameInput { frame: 4, disconnected: 3, inputs: [7u64; MAX_PLAYERS] };
    assert_eq!(game.clone(), game);
}

#[test]
fn unwrap_yields_the_input_of_either_variant() {
    let input = FrameInput { frame: 5, input: 42u32 };
    assert_eq!(FetchedInput::Normal(input).unwrap(), input);
    assert_eq!(FetchedInput::Prediction(input).unwrap(), input);
}

#[test]
fn is_prediction_tells_the_variants_apart() {
    let input = FrameInput { frame: 5, input: 42u32 };
    assert!(!FetchedInput::Normal(input).is_prediction());
    assert!(FetchedInput::Prediction(input).is_prediction());
}
