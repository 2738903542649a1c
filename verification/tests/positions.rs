use chess_mcts::position::{square_code, test_bit, Color, Position, Role};
use chess_mcts::state::State;
use shakmaty::CastlingMode;

fn start_squares() -> [u8; 64] {
    let mut squares = [0u8; 64];
    let back = [4u8, 2, 3, 5, 6, 3, 2, 4];
    for file in 0..8 {
        squares[file] = back[file];
        squares[8 + file] = 1;
        squares[48 + file] = 7;
        squares[56 + file] = back[file] + 6;
    }
    squares
}

#[test]
fn position_keeps_what_it_is_given() {
    let position = Position::new(start_squares(), Color::Black, 3, true, false, 99).unwrap();
    assert_eq!(*position.piece_codes(), start_squares());
    assert_eq!(position.side_to_move(), Color::Black);
    assert_eq!(position.halfmove_counter(), 3);
    assert!(position.is_check());
    assert!(!position.is_insufficient_material());
    assert_eq!(position.key(), 99);
}

#[test]
fn position_refuses_unknown_codes_and_crowds() {
    let mut squares = start_squares();
    squares[30] = 13;
    assert!(Position::new(squares, Color::White, 0, false, false, 0).is_none());
    squares[30] = 12;
    // 33 pieces
    assert!(Position::new(squares, Color::White, 0, false, false, 0).is_none());
    squares[0] = 0;
    assert!(Position::new(squares, Color::White, 0, false, false, 0).is_some());
    assert!(Position::new([0u8; 64], Color::White, 0, false, false, 0).is_some());
}

#[test]
fn position_from_bitboards_places_each_piece() {
    let by_role = [0x00ff_0000_0000_ff00u64, 0x4200_0000_0000_0042, 0x2400_0000_0000_0024, 0x8100_0000_0000_0081, 0x0800_0000_0000_0008, 0x1000_0000_0000_0010];
    let by_color = [0xffffu64, 0xffff_0000_0000_0000];
    let position = Position::from_bitboards(&by_role, &by_color, Color::White, 0, false, false, 7).unwrap();
    assert_eq!(*position.piece_codes(), start_squares());
    assert_eq!(position.key(), 7);
}

#[test]
fn position_from_bitboards_refuses_contradictions() {
    let by_color = [0x1u64, 0x2];
    // a pawn and a knight on a1
    assert!(Position::from_bitboards(&[1, 1, 0, 0, 0, 2], &by_color, Color::White, 0, false, false, 0).is_none());
    // a piece of both colours
    assert!(Position::from_bitboards(&[1, 0, 0, 0, 0, 2], &[3, 2], Color::White, 0, false, false, 0).is_none());
    // a colour without a piece
    assert!(Position::from_bitboards(&[1, 0, 0, 0, 0, 0], &by_color, Color::White, 0, false, false, 0).is_none());
    // a piece without a colour
    assert!(Position::from_bitboards(&[1, 0, 0, 4, 0, 2], &by_color, Color::White, 0, false, false, 0).is_none());
    assert!(Position::from_bitboards(&[1, 0, 0, 0, 0, 2], &by_color, Color::White, 0, false, false, 0).is_some());
    // 33 pieces
    assert!(Position::from_bitboards(&[0x1_ffff_ffff, 0, 0, 0, 0, 0], &[0x1_ffff_ffff, 0], Color::White, 0, false, false, 0).is_none());
    assert!(Position::from_bitboards(&[0xffff_ffff, 0, 0, 0, 0, 0], &[0xffff_ffff, 0], Color::White, 0, false, false, 0).is_some());
}

#[test]
fn square_code_reads_one_square() {
    let by_role = [0u64, 0, 0, 0, 1 << 40, 1 << 63];
    let by_color = [1u64 << 40, 1 << 63];
    assert_eq!(square_code(&by_role, &by_color, 40), Some(5));
    assert_eq!(square_code(&by_role, &by_color, 63), Some(12));
    assert_eq!(square_code(&by_role, &by_color, 0), Some(0));
    assert_eq!(square_code(&by_role, &[0, 1 << 63], 40), None);
    assert!(test_bit(1 << 63, 63));
    assert!(!test_bit(1 << 63, 62));
}

#[test]
fn colours_and_roles_have_their_indices() {
    assert_eq!(Color::White.to_index(), 0);
    assert_eq!(Color::Black.to_index(), 1);
    assert_eq!(Color::White.other(), Color::Black);
    assert_eq!(Color::Black.other(), Color::White);
    assert!(Color::White.is_white());
    assert!(!Color::Black.is_white());
    assert_eq!(Color::from_white(true), Color::White);
    assert_eq!(Color::from_white(false), Color::Black);
    assert_eq!(Color::White.fold_wb(1, 2), 1);
    assert_eq!(Color::Black.fold_wb(1, 2), 2);
    let roles = [Role::Pawn, Role::Knight, Role::Bishop, Role::Rook, Role::Queen, Role::King];
    for (i, role) in roles.into_iter().enumerate() {
        assert_eq!(role.to_index(), i);
        assert_eq!(Role::from_index(i), Some(role));
    }
    assert_eq!(Role::from_index(6), None);
}

#[test]
fn start_state_reports_the_start_position() {
    let state = State::new().unwrap();
    assert_eq!(*state.position().piece_codes(), start_squares());
    assert_eq!(state.side_to_move(), Color::White);
    assert_eq!(state.halfmove_counter(), 0);
    assert!(!state.position().is_check());
    assert!(!state.position().is_insufficient_material());
    assert_eq!(state.available_moves().len(), 20);
    assert!(!state.is_repetition());
    assert!(!state.drawn_by_fifty_move_rule());
    assert!(!state.is_drawn());
    let same = State::from_fen("rnbqkbnr/pppppppp/8/8/8/8/PPPPPPPP/RNBQKBNR w KQkq - 0 1").unwrap();
    assert_eq!(same.key(), state.key());
    assert_eq!(same.key(), state.position().key());
}

#[test]
fn state_refuses_what_is_no_position() {
    assert!(State::from_fen("not a position").is_none());
    assert!(State::from_fen("8/8/8/8/8/8/8/8 w - - 0 1").is_none());
}

fn play(state: &mut State, uci: &str) -> bool {
    let moves = state.available_moves();
    for m in &moves {
        if m.to_uci(CastlingMode::Standard).to_string() == uci {
            return state.make_move(m);
        }
    }
    false
}

#[test]
fn make_move_changes_side_and_clock() {
    let mut state = State::new().unwrap();
    let start_key = state.key();
    assert!(play(&mut state, "g1f3"));
    assert_eq!(state.side_to_move(), Color::Black);
    assert_eq!(state.halfmove_counter(), 1);
    assert_eq!(state.position().piece_codes()[6], 0);
    assert_eq!(state.position().piece_codes()[21], 2);
    assert!(state.key() != start_key);
    assert!(play(&mut state, "e7e5"));
    assert_eq!(state.side_to_move(), Color::White);
    assert_eq!(state.halfmove_counter(), 0);
    assert_eq!(state.position().piece_codes()[36], 7);
}

#[test]
fn make_move_refuses_a_move_of_another_position() {
    let mut state = State::new().unwrap();
    let moves = state.available_moves();
    let first = moves[0];
    assert!(state.make_move(&first));
    let key = state.key();
    // the same move again belongs to white, and black is to move
    assert!(!state.make_move(&first));
    assert_eq!(state.key(), key);
    assert_eq!(state.side_to_move(), Color::Black);
}

#[test]
fn repetition_is_seen_when_the_position_returns() {
    let mut state = State::new().unwrap();
    for uci in ["g1f3", "g8f6", "f3g1"] {
        assert!(play(&mut state, uci));
        assert!(!state.is_repetition());
        assert!(!state.is_drawn());
    }
    assert!(play(&mut state, "f6g8"));
    assert!(state.is_repetition());
    assert!(state.is_drawn());
    // a pawn move cannot be taken back: nothing before it can return
    assert!(play(&mut state, "e2e4"));
    assert!(!state.is_repetition());
    assert!(!state.is_drawn());
}

#[test]
fn fifty_moves_without_progress_are_a_draw() {
    let state = State::from_fen("4k3/8/8/8/8/8/R7/4K3 w - - 99 80").unwrap();
    assert!(!state.drawn_by_fifty_move_rule());
    assert!(!state.is_drawn());
    let state = State::from_fen("4k3/8/8/8/8/8/R7/4K3 w - - 100 80").unwrap();
    assert_eq!(state.halfmove_counter(), 100);
    assert!(state.drawn_by_fifty_move_rule());
    assert!(state.is_drawn());
}

#[test]
fn bare_kings_are_a_draw() {
    let state = State::from_fen("4k3/8/8/8/8/8/8/4K3 w - - 0 1").unwrap();
    assert!(state.position().is_insufficient_material());
    assert!(state.is_drawn());
    assert!(!state.is_repetition());
}

#[test]
fn clone_of_a_state_plays_on_its_own() {
    let mut state = State::new().unwrap();
    assert!(play(&mut state, "g1f3"));
    let mut copy = state.clone();
    assert_eq!(copy.key(), state.key());
    assert!(play(&mut copy, "g8f6"));
    assert!(copy.key() != state.key());
    assert_eq!(state.side_to_move(), Color::Black);
    assert_eq!(copy.side_to_move(), Color::White);
}

#[test]
fn move_kinds_go_by_piece_and_square() {
    let mut state = State::new().unwrap();
    let moves = state.available_moves();
    let kind = |state: &State, uci: &str| {
        let moves = state.available_moves();
        let m = moves.iter().find(|m| m.to_uci(CastlingMode::Standard).to_string() == uci).unwrap();
        state.move_to_index(m)
    };
    for m in &moves {
        assert!(state.move_to_index(m) < 384);
    }
    // a knight to f3, a pawn to e4
    assert_eq!(kind(&state, "g1f3"), 64 + 21);
    assert_eq!(kind(&state, "e2e4"), 28);
    assert!(play(&mut state, "g1f3"));
    // black sees the board from its side: f6 is where f3 is for white
    assert_eq!(kind(&state, "g8f6"), 64 + 21);
    assert_eq!(kind(&state, "e7e5"), 28);
    // castling goes to the square of the rook
    let castling = State::from_fen("r3k2r/8/8/8/8/8/8/R3K2R w KQkq - 0 1").unwrap();
    assert_eq!(kind(&castling, "e1g1"), 5 * 64 + 7);
    assert_eq!(kind(&castling, "e1c1"), 5 * 64);
}

#[test]
fn features_name_each_piece_on_its_square() {
    let state = State::new().unwrap();
    let features = state.features();
    assert_eq!(features.len(), 32);
    // the white rook on a1, the white king on e1, the black king on e8
    assert_eq!(features[0], 3 * 64);
    assert_eq!(features[4], 5 * 64 + 4);
    assert_eq!(features[28], 384 + 5 * 64 + 60);
    assert_eq!(features[8], 8);
    let black = State::from_fen("rnbqkbnr/pppppppp/8/8/8/8/PPPPPPPP/RNBQKBNR b KQkq - 0 1").unwrap();
    let seen = black.features();
    // for black the white rook on a1 is a rook of the other side on a8
    assert_eq!(seen[0], 384 + 3 * 64 + 56);
    assert_eq!(seen[28], 5 * 64 + 4);
    let mut sorted = seen.clone();
    sorted.sort();
    let mut own = features.clone();
    own.sort();
    assert_eq!(sorted, own);
    let bare = State::from_fen("4k3/8/8/8/8/8/8/4K3 w - - 0 1").unwrap();
    assert_eq!(bare.features(), vec![5 * 64 + 4, 384 + 5 * 64 + 60]);
}
