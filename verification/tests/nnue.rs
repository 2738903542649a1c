use chess_mcts::evaluation::evaluate_state;
use chess_mcts::nnue_eval::{
    add_to_all, decode_words, feature_indices, largest_magnitude, magnitude, screlu,
    screlu_flatten, sub_from_all, Accumulator, Activate, Align, Deactivate, NNUEParams, NNUEState,
    FEATURE_WEIGHTS, LAYER_1_SIZE, OUTPUT_WEIGHTS,
};
use chess_mcts::position::{Color, Role};
use chess_mcts::search_tree::SCALE;
use chess_mcts::state::State;

const START: &str = "rnbqkbnr/pppppppp/8/8/8/8/PPPPPPPP/RNBQKBNR w KQkq - 0 1";
const OPEN_GAME: &str = "rnbqkbnr/pppp1ppp/8/4p3/4P3/5N2/PPPP1PPP/RNBQKB1R b KQkq - 1 2";
const OPEN_GAME_MIRRORED: &str = "rnbqkb1r/pppp1ppp/5n2/4p3/4P3/8/PPPP1PPP/RNBQKBNR w KQkq - 1 2";

fn params_from(
    weight: fn(usize, usize) -> i16,
    bias: fn(usize) -> i16,
    output: fn(usize) -> i16,
    output_bias: i16,
) -> Option<NNUEParams> {
    let mut feature_weights = vec![0i16; FEATURE_WEIGHTS];
    for k in 0..768 {
        for j in 0..LAYER_1_SIZE {
            feature_weights[k * LAYER_1_SIZE + j] = weight(k, j);
        }
    }
    let mut feature_bias = [0i16; LAYER_1_SIZE];
    for j in 0..LAYER_1_SIZE {
        feature_bias[j] = bias(j);
    }
    let mut output_weights = [0i16; OUTPUT_WEIGHTS];
    for i in 0..OUTPUT_WEIGHTS {
        output_weights[i] = output(i);
    }
    NNUEParams::new(feature_weights, feature_bias, output_weights, output_bias)
}

fn varied() -> NNUEParams {
    params_from(
        |k, j| ((k + j) % 5) as i16 - 2,
        |j| (j % 3) as i16 - 1,
        |i| (i % 4) as i16 - 1,
        -7,
    )
    .unwrap()
}

fn gloomy() -> NNUEParams {
    params_from(
        |k, _| if k % 2 == 0 { 3 } else { -1 },
        |_| 5,
        |i| if i < 768 { -2 } else { 1 },
        -100,
    )
    .unwrap()
}

fn forward(params: &NNUEParams, fen: &str) -> i32 {
    let state = State::from_fen(fen).unwrap();
    NNUEState::new(params).forward(params, state.position())
}

#[test]
fn forward_counts_the_pieces_with_unit_weights() {
    let params =
        params_from(|_, _| 1, |_| 0, |i| if i < 768 { 1 } else { 0 }, 10).unwrap();
    let state = State::from_fen(START).unwrap();
    let mut network = NNUEState::new(&params);
    assert_eq!(network.accumulator.white.0[0], 0);
    // 32 pieces: 768 * 32 * 32 / 255 = 3084, (3084 + 10) * 400 / 16320 = 75
    assert_eq!(network.forward(&params, state.position()), 75);
    assert_eq!(network.accumulator.white.0, [32i16; LAYER_1_SIZE]);
    assert_eq!(network.accumulator.black.0, [32i16; LAYER_1_SIZE]);
}

#[test]
fn forward_matches_hand_computed_scores() {
    let params = varied();
    assert_eq!(forward(&params, START), 5);
    assert_eq!(forward(&params, OPEN_GAME), 8);
    assert_eq!(forward(&params, "r1bqkbnr/pppp1ppp/2n5/4p3/4P3/5N2/PPPP1PPP/RNBQKB1R w KQkq - 2 3"), 7);
    assert_eq!(forward(&params, "7k/5Q2/6K1/8/8/8/8/8 b - - 0 1"), 0);
}

#[test]
fn forward_fills_both_accumulators() {
    let params = varied();
    let state = State::from_fen(OPEN_GAME).unwrap();
    let mut network = NNUEState::new(&params);
    network.forward(&params, state.position());
    assert_eq!(network.accumulator.white.0[..4], [5, -12, -14, -4]);
    assert_eq!(network.accumulator.black.0[..4], [8, -9, -16, -6]);
}

#[test]
fn forward_rounds_negative_scores_towards_zero() {
    let params = gloomy();
    // -1051392 / 255 = -4123.1.., (-4123 - 100) * 400 / 16320 = -103.5..
    assert_eq!(forward(&params, START), -103);
    assert_eq!(forward(&params, OPEN_GAME), -82);
}

#[test]
fn mirrored_position_has_the_same_score_for_the_mover() {
    let params = varied();
    assert_eq!(forward(&params, OPEN_GAME), forward(&params, OPEN_GAME_MIRRORED));
    let params = gloomy();
    assert_eq!(forward(&params, OPEN_GAME), forward(&params, OPEN_GAME_MIRRORED));
}

#[test]
fn mirrored_position_has_the_opposite_value_for_white() {
    let params = varied();
    let position = State::from_fen(OPEN_GAME).unwrap();
    let mirrored = State::from_fen(OPEN_GAME_MIRRORED).unwrap();
    assert_eq!(evaluate_state(&params, &position), -8);
    assert_eq!(evaluate_state(&params, &mirrored), 8);
    let params = gloomy();
    assert_eq!(evaluate_state(&params, &position), 82);
    assert_eq!(evaluate_state(&params, &mirrored), -82);
}

#[test]
fn evaluate_state_counts_for_white() {
    let params = gloomy();
    let state = State::from_fen(START).unwrap();
    assert_eq!(evaluate_state(&params, &state), -103);
    let black_to_move =
        State::from_fen("rnbqkbnr/pppppppp/8/8/8/8/PPPPPPPP/RNBQKBNR b KQkq - 0 1").unwrap();
    assert_eq!(evaluate_state(&params, &black_to_move), 103);
}

#[test]
fn new_state_holds_the_bias() {
    let params = varied();
    let network = NNUEState::new(&params);
    for j in 0..LAYER_1_SIZE {
        assert_eq!(network.accumulator.white.0[j], (j % 3) as i16 - 1);
        assert_eq!(network.accumulator.black.0[j], (j % 3) as i16 - 1);
    }
    assert_eq!(params.bias().0[4], 0);
}

#[test]
fn update_feature_adds_and_takes_back() {
    let params = varied();
    let mut network = NNUEState::new(&params);
    let before = network.accumulator;
    network.update_feature::<Activate>(&params, Role::Knight, Color::Black, 57);
    // white sees feature 384 + 64 + 57 = 505, black sees 64 + (57 ^ 56) = 65
    for j in 0..LAYER_1_SIZE {
        assert_eq!(network.accumulator.white.0[j], before.white.0[j] + ((505 + j) % 5) as i16 - 2);
        assert_eq!(network.accumulator.black.0[j], before.black.0[j] + ((65 + j) % 5) as i16 - 2);
    }
    network.update_feature::<Deactivate>(&params, Role::Knight, Color::Black, 57);
    assert_eq!(network.accumulator.white.0, before.white.0);
    assert_eq!(network.accumulator.black.0, before.black.0);
}

#[test]
fn feature_indices_follow_the_formula() {
    assert_eq!(feature_indices(0, Role::Pawn, Color::White), (0, 384 + 56));
    assert_eq!(feature_indices(63, Role::King, Color::Black), (767, 320 + 7));
    assert_eq!(feature_indices(12, Role::Queen, Color::White), (4 * 64 + 12, 384 + 4 * 64 + 52));
    assert_eq!(feature_indices(35, Role::Bishop, Color::Black), (384 + 128 + 35, 128 + 27));
}

#[test]
fn screlu_clips_then_squares() {
    assert_eq!(screlu(-5), 0);
    assert_eq!(screlu(0), 0);
    assert_eq!(screlu(16), 256);
    assert_eq!(screlu(255), 65025);
    assert_eq!(screlu(256), 65025);
    assert_eq!(screlu(i16::MAX), 65025);
    assert_eq!(screlu(i16::MIN), 0);
}

#[test]
fn screlu_flatten_sums_both_halves() {
    let mut us = Align([0i16; LAYER_1_SIZE]);
    let mut them = Align([0i16; LAYER_1_SIZE]);
    let mut weights = Align([0i16; OUTPUT_WEIGHTS]);
    us.0[0] = 10;
    us.0[1] = 300;
    them.0[0] = 20;
    them.0[767] = -3;
    weights.0[0] = 3;
    weights.0[1] = -1;
    weights.0[768] = 2;
    weights.0[1535] = 100;
    // 100 * 3 - 65025 + 400 * 2 + 0 = -63925, and -63925 / 255 = -250.6..
    assert_eq!(screlu_flatten(&us, &them, &weights), -250);
    assert_eq!(screlu_flatten(&them, &us, &weights), (400 * 3 + 100 * 2 + 65025 * 0) / 255);
}

#[test]
fn accumulator_evaluate_takes_the_mover_first() {
    let params = gloomy();
    let mut accumulator = Accumulator { white: Align([0i16; LAYER_1_SIZE]), black: Align([0i16; LAYER_1_SIZE]) };
    accumulator.white.0[0] = 100;
    accumulator.black.0[0] = 50;
    // white to move: (10000 * -2 + 2500) / 255 = -68, (-68 - 100) * 400 / 16320 = -4
    assert_eq!(accumulator.evaluate(&params, Color::White), -4);
    // black to move: (2500 * -2 + 10000) / 255 = 19, (19 - 100) * 400 / 16320 = -1
    assert_eq!(accumulator.evaluate(&params, Color::Black), -1);
}

#[test]
fn add_to_all_and_sub_from_all_are_inverse() {
    let mut input = Align([1i16, -2, 3, -4]);
    let delta = [100i16, 7, -7, 30, 40, 50];
    add_to_all(&mut input, &delta, 2);
    assert_eq!(input.0, [-6, 28, 43, 46]);
    sub_from_all(&mut input, &delta, 0);
    assert_eq!(input.0, [-106, 21, 50, 16]);
    add_to_all(&mut input, &delta, 0);
    sub_from_all(&mut input, &delta, 2);
    assert_eq!(input.0, [1, -2, 3, -4]);
}

#[test]
fn params_of_wrong_size_are_refused() {
    let refused = NNUEParams::new(vec![0i16; FEATURE_WEIGHTS - 1], [0; LAYER_1_SIZE], [0; OUTPUT_WEIGHTS], 0);
    assert!(refused.is_none());
    let taken = NNUEParams::new(vec![0i16; FEATURE_WEIGHTS], [0; LAYER_1_SIZE], [0; OUTPUT_WEIGHTS], 0);
    assert!(taken.is_some());
}

#[test]
fn params_that_could_overflow_the_accumulator_are_refused() {
    // 767 + 32 * 1000 = 32767 fits, 768 + 32 * 1000 does not
    assert!(params_from(|_, _| 1000, |_| 767, |_| 0, 0).is_some());
    assert!(params_from(|_, _| 1000, |_| 768, |_| 0, 0).is_none());
    assert!(params_from(|k, j| if k == 5 && j == 9 { -1001 } else { 0 }, |_| 735, |_| 0, 0).is_some());
    assert!(params_from(|k, j| if k == 5 && j == 9 { -1001 } else { 0 }, |_| -736, |_| 0, 0).is_none());
}

#[test]
fn params_that_could_overflow_the_output_are_refused() {
    // 255 * 21053 + 194 = 5368709 is the limit
    let heavy = |i: usize| if i < 21 { 1000 } else if i == 21 { 53 } else { 0 };
    assert!(params_from(|_, _| 0, |_| 0, heavy, 194).is_some());
    assert!(params_from(|_, _| 0, |_| 0, heavy, 195).is_none());
    assert!(params_from(|_, _| 0, |_| 0, heavy, -194).is_some());
    assert!(params_from(|_, _| 0, |_| 0, heavy, -195).is_none());
}

#[test]
fn magnitudes_are_taken_without_overflow() {
    assert_eq!(magnitude(i16::MIN), 32768);
    assert_eq!(magnitude(-1), 1);
    assert_eq!(magnitude(0), 0);
    assert_eq!(magnitude(i16::MAX), 32767);
    assert_eq!(largest_magnitude(&[]), 0);
    assert_eq!(largest_magnitude(&[3, -9, 8]), 9);
}

#[test]
fn words_are_read_low_byte_first() {
    assert_eq!(decode_words(&[0x34, 0x12, 0xff, 0xff, 0x00, 0x80, 0xff, 0x7f]), vec![0x1234, -1, i16::MIN, i16::MAX]);
    assert_eq!(decode_words(&[1, 0, 9]), vec![1]);
    assert_eq!(decode_words(&[]), Vec::<i16>::new());
}

fn bytes_of(words: impl Iterator<Item = i16>) -> Vec<u8> {
    words.flat_map(|w| w.to_le_bytes()).collect()
}

#[test]
fn params_from_bytes_agree_with_params_from_values() {
    let weights = bytes_of((0..FEATURE_WEIGHTS).map(|i| ((i / LAYER_1_SIZE + i % LAYER_1_SIZE) % 5) as i16 - 2));
    let bias = bytes_of((0..LAYER_1_SIZE).map(|j| (j % 3) as i16 - 1));
    let output = bytes_of((0..OUTPUT_WEIGHTS).map(|i| (i % 4) as i16 - 1));
    let last = bytes_of([-7i16].into_iter());
    let params = NNUEParams::from_bytes(&weights, &bias, &output, &last).unwrap();
    assert_eq!(forward(&params, START), 5);
    assert_eq!(forward(&params, OPEN_GAME), 8);
    assert_eq!(params.bias().0[0], -1);
    assert_eq!(params.bias().0[2], 1);
}

#[test]
fn params_from_bytes_of_wrong_length_are_refused() {
    let weights = vec![0u8; 2 * FEATURE_WEIGHTS];
    let bias = vec![0u8; 2 * LAYER_1_SIZE];
    let output = vec![0u8; 2 * OUTPUT_WEIGHTS];
    assert!(NNUEParams::from_bytes(&weights, &bias, &output, &[0, 0]).is_some());
    assert!(NNUEParams::from_bytes(&weights[1..], &bias, &output, &[0, 0]).is_none());
    assert!(NNUEParams::from_bytes(&weights, &bias[2..], &output, &[0, 0]).is_none());
    assert!(NNUEParams::from_bytes(&weights, &bias, &output[..2], &[0, 0]).is_none());
    assert!(NNUEParams::from_bytes(&weights, &bias, &output, &[0]).is_none());
    assert!(NNUEParams::from_bytes(&weights, &bias, &output, &[0, 0, 0]).is_none());
    // the high byte counts: a bias of 0x7fff leaves no room for any weight
    let mut steep = bias.clone();
    steep[1] = 0x7f;
    steep[0] = 0xff;
    assert!(NNUEParams::from_bytes(&weights, &steep, &output, &[0, 0]).is_some());
    let mut heavy = weights.clone();
    heavy[0] = 1;
    assert!(NNUEParams::from_bytes(&heavy, &steep, &output, &[0, 0]).is_none());
}

#[test]
fn forward_twice_gives_the_same_score() {
    let params = varied();
    let state = State::from_fen(OPEN_GAME).unwrap();
    let mut network = NNUEState::new(&params);
    let first = network.forward(&params, state.position());
    let white = network.accumulator.white.0;
    let second = network.forward(&params, state.position());
    assert_eq!(first, 8);
    assert_eq!(second, first);
    assert_eq!(network.accumulator.white.0, white);
    // another position on the same state
    let start = State::from_fen(START).unwrap();
    assert_eq!(network.forward(&params, start.position()), 5);
    assert_eq!(network.forward(&params, state.position()), 8);
}

#[test]
fn evaluate_state_stays_within_a_unit_of_the_search() {
    // every unit at its ceiling, the output weights as heavy as they may be
    let params = params_from(
        |_, _| 0,
        |_| 255,
        |i| if i < 21 { 1000 } else if i == 21 { 53 } else { 0 },
        194,
    )
    .unwrap();
    // 65025 * 21053 / 255 = 5368515, (5368515 + 194) * 400 / 16320 = 131586
    assert_eq!(forward(&params, START), 131586);
    let white_to_move = State::from_fen(START).unwrap();
    assert_eq!(evaluate_state(&params, &white_to_move), SCALE);
    let black_to_move = State::from_fen(OPEN_GAME).unwrap();
    assert_eq!(evaluate_state(&params, &black_to_move), -SCALE);
}
