use chess_mcts::evaluation::{classify, evaluate_state_flag, Flag, Wdl};
use chess_mcts::position::Color;
use chess_mcts::state::State;

const ALL_FLAGS: [Flag; 7] = [
    Flag::Standard,
    Flag::TerminalWin,
    Flag::TerminalDraw,
    Flag::TerminalLoss,
    Flag::TablebaseWin,
    Flag::TablebaseDraw,
    Flag::TablebaseLoss,
];

#[test]
fn flip_trades_wins_and_losses() {
    assert_eq!(Flag::TerminalWin.flip(), Flag::TerminalLoss);
    assert_eq!(Flag::TerminalLoss.flip(), Flag::TerminalWin);
    assert_eq!(Flag::TablebaseWin.flip(), Flag::TablebaseLoss);
    assert_eq!(Flag::TablebaseLoss.flip(), Flag::TablebaseWin);
    assert_eq!(Flag::TerminalDraw.flip(), Flag::TerminalDraw);
    assert_eq!(Flag::TablebaseDraw.flip(), Flag::TablebaseDraw);
    assert_eq!(Flag::Standard.flip(), Flag::Standard);
}

#[test]
fn flip_twice_is_identity() {
    for flag in ALL_FLAGS {
        assert_eq!(flag.flip().flip(), flag);
    }
}

#[test]
fn terminal_and_tablebase_partition_the_rest() {
    for flag in ALL_FLAGS {
        let terminal = flag.is_terminal();
        let tablebase = flag.is_tablebase();
        assert!(!(terminal && tablebase));
        assert_eq!(flag == Flag::Standard, !terminal && !tablebase);
    }
    assert!(Flag::TerminalWin.is_terminal());
    assert!(Flag::TerminalDraw.is_terminal());
    assert!(Flag::TerminalLoss.is_terminal());
    assert!(Flag::TablebaseWin.is_tablebase());
    assert!(Flag::TablebaseDraw.is_tablebase());
    assert!(Flag::TablebaseLoss.is_tablebase());
}

#[test]
fn classify_without_moves_goes_by_the_check() {
    assert_eq!(classify(true, true, None, Color::White), Flag::TerminalLoss);
    assert_eq!(classify(true, false, None, Color::White), Flag::TerminalDraw);
    assert_eq!(classify(true, true, None, Color::Black), Flag::TerminalWin);
    assert_eq!(classify(true, false, None, Color::Black), Flag::TerminalDraw);
    // the tablebase does not count where the game is over
    assert_eq!(classify(true, true, Some(Wdl::Win), Color::White), Flag::TerminalLoss);
}

#[test]
fn classify_with_moves_goes_by_the_tablebase() {
    assert_eq!(classify(false, false, None, Color::White), Flag::Standard);
    assert_eq!(classify(false, true, None, Color::Black), Flag::Standard);
    assert_eq!(classify(false, false, Some(Wdl::Win), Color::White), Flag::TablebaseWin);
    assert_eq!(classify(false, false, Some(Wdl::Loss), Color::White), Flag::TablebaseLoss);
    assert_eq!(classify(false, false, Some(Wdl::Draw), Color::White), Flag::TablebaseDraw);
    assert_eq!(classify(false, false, Some(Wdl::CursedWin), Color::White), Flag::TablebaseDraw);
    assert_eq!(classify(false, false, Some(Wdl::BlessedLoss), Color::White), Flag::TablebaseDraw);
    assert_eq!(classify(false, false, Some(Wdl::Win), Color::Black), Flag::TablebaseLoss);
    assert_eq!(classify(false, false, Some(Wdl::Loss), Color::Black), Flag::TablebaseWin);
    assert_eq!(classify(false, false, Some(Wdl::CursedWin), Color::Black), Flag::TablebaseDraw);
}

#[test]
fn stalemate_is_a_terminal_draw() {
    let state = State::from_fen("7k/5Q2/6K1/8/8/8/8/8 b - - 0 1").unwrap();
    let moves = state.available_moves();
    assert!(moves.is_empty());
    assert!(!state.position().is_check());
    assert_eq!(evaluate_state_flag(&state, &moves, None), Flag::TerminalDraw);
}

#[test]
fn checkmate_of_white_is_a_terminal_loss() {
    let state = State::from_fen("6k1/8/8/8/8/8/5PPP/r5K1 w - - 0 1").unwrap();
    let moves = state.available_moves();
    assert!(moves.is_empty());
    assert!(state.position().is_check());
    assert_eq!(evaluate_state_flag(&state, &moves, None), Flag::TerminalLoss);
}

#[test]
fn checkmate_of_black_is_a_terminal_win() {
    let state = State::from_fen("R5k1/5ppp/8/8/8/8/8/6K1 b - - 0 1").unwrap();
    let moves = state.available_moves();
    assert!(moves.is_empty());
    assert!(state.position().is_check());
    assert_eq!(evaluate_state_flag(&state, &moves, None), Flag::TerminalWin);
}

#[test]
fn king_beside_rook_has_moves_left() {
    // the white king is not attacked and can step to e3, e4, f4, g4 or g3
    let state = State::from_fen("8/8/8/8/8/5K2/7r/5k2 w - - 0 1").unwrap();
    let moves = state.available_moves();
    assert!(!moves.is_empty());
    assert!(!state.position().is_check());
    assert_eq!(evaluate_state_flag(&state, &moves, None), Flag::Standard);
    let state = State::from_fen("8/8/8/8/8/5K2/6r1/5k2 w - - 0 1").unwrap();
    let moves = state.available_moves();
    assert!(!moves.is_empty());
    assert!(!state.position().is_check());
    assert_eq!(evaluate_state_flag(&state, &moves, Some(Wdl::Loss)), Flag::TablebaseLoss);
}

#[test]
fn flag_is_the_same_for_the_same_input() {
    let state = State::from_fen("8/8/8/8/8/5K2/7r/5k2 b - - 0 1").unwrap();
    let moves = state.available_moves();
    let first = evaluate_state_flag(&state, &moves, Some(Wdl::Win));
    let second = evaluate_state_flag(&state, &moves, Some(Wdl::Win));
    assert_eq!(first, second);
    // black is to move and wins: a loss as white sees it
    assert_eq!(first, Flag::TablebaseLoss);
}
