//! The state of a game: the position on the board, as the move generator
//! holds it, beside the plain facts that the search reads, and the keys of
//! the positions that a repetition could repeat.

use crate::nnue_eval::{feature_indices, square_feature};
use crate::position::{
    code_color, code_from_bitboards, code_role, mirrored, valid_squares, Color, Position, Role,
};
use shakmaty::fen::Fen;
use shakmaty::zobrist::Zobrist64;
use shakmaty::{CastlingMode, Chess, EnPassantMode, Move, Position as Rules};
use vstd::prelude::*;

verus! {

/// Number of half-moves without capture or pawn move after which the game
/// is drawn.
pub const FIFTY_MOVE_LIMIT: u32 = 100;

/// Number of features of a state: one for each piece on each square.
pub const NUMBER_FEATURES: usize = 768;

/// Number of kinds of move that the policy tells apart: one for each piece
/// and each square that it goes to.
pub const NUMBER_MOVES: usize = 384;

#[verifier::external_type_specification]
#[verifier::external_body]
pub struct ExChess(shakmaty::Chess);

#[verifier::external_type_specification]
#[verifier::external_body]
pub struct ExMove(shakmaty::Move);

/// The position that a FEN record describes; none where the record does
/// not parse or describes no valid position.
pub uninterp spec fn fen_position(fen: Seq<char>) -> Option<Chess>;

/// Whether white is to move on the board.
pub uninterp spec fn white_to_move_of(board: Chess) -> bool;

/// The half-moves on the board since the last capture or pawn move.
pub uninterp spec fn halfmoves_of(board: Chess) -> u32;

/// Whether the king of the side to move is attacked on the board.
pub uninterp spec fn check_of(board: Chess) -> bool;

/// Whether neither side has the material to win on the board.
pub uninterp spec fn insufficient_material_of(board: Chess) -> bool;

/// The key of the board.
pub uninterp spec fn key_of(board: Chess) -> u64;

/// The squares of the pawns, knights, bishops, rooks, queens and kings of
/// the board, and those of its white and of its black pieces, each as the
/// bits of a number with a1 as bit 0.
pub uninterp spec fn bitboards_of(board: Chess) -> (Seq<u64>, Seq<u64>);

/// The legal moves on the board, in the order of the move generator.
pub uninterp spec fn legal_moves_of(board: Chess) -> Seq<Move>;

/// The board after a move; none where the move is not legal.
pub uninterp spec fn played(board: Chess, mv: Move) -> Option<Chess>;

/// The piece that a move moves: 1 for a pawn, then knight, bishop, rook and
/// queen, up to 6 for a king.
pub uninterp spec fn role_of(mv: Move) -> u8;

/// The square that a move goes to, a1 being 0 and h8 being 63; for castling
/// the square of the rook.
pub uninterp spec fn target_of(mv: Move) -> u8;

/// `Move::role`, as the number that `Role` stands for: the result is a
/// function of the move alone and goes by the name [`role_of`]; it is one
/// of the six numbers of the roles.
#[verifier::external_body]
fn move_role(mv: &Move) -> (r: u8)
    ensures
        r == role_of(*mv),
        1 <= r <= 6,
{
    u8::from(mv.role())
}

/// `Move::to`, as the number that `Square` stands for: the result is a
/// function of the move alone and goes by the name [`target_of`]; it is
/// one of the 64 numbers of the squares.
#[verifier::external_body]
fn move_target(mv: &Move) -> (r: u8)
    ensures
        r == target_of(*mv),
        r < 64,
{
    u8::from(mv.to())
}

/// `Fen::from_ascii` and `Fen::into_position`, under the rules of standard
/// castling: the result is a function of the record alone and goes by the
/// name [`fen_position`].
#[verifier::external_body]
fn chess_from_fen(fen: &str) -> (r: Option<Chess>)
    ensures
        r == fen_position(fen@),
{
    Fen::from_ascii(fen.as_bytes()).ok()?.into_position(CastlingMode::Standard).ok()
}

/// `Clone::clone` of `Chess`, which `derive` wrote: the copy equals the
/// position copied.
#[verifier::external_body]
fn chess_clone(board: &Chess) -> (r: Chess)
    ensures
        r == *board,
{
    board.clone()
}

/// `Position::turn`: the result is a function of the board alone and goes
/// by the name [`white_to_move_of`].
#[verifier::external_body]
fn chess_white_to_move(board: &Chess) -> (r: bool)
    ensures
        r == white_to_move_of(*board),
{
    board.turn().is_white()
}

/// `Position::halfmoves`: the result is a function of the board alone and
/// goes by the name [`halfmoves_of`].
#[verifier::external_body]
fn chess_halfmoves(board: &Chess) -> (r: u32)
    ensures
        r == halfmoves_of(*board),
{
    board.halfmoves()
}

/// `Position::is_check`: the result is a function of the board alone and
/// goes by the name [`check_of`].
#[verifier::external_body]
fn chess_is_check(board: &Chess) -> (r: bool)
    ensures
        r == check_of(*board),
{
    board.is_check()
}

/// `Position::is_insufficient_material`: the result is a function of the
/// board alone and goes by the name [`insufficient_material_of`].
#[verifier::external_body]
fn chess_is_insufficient_material(board: &Chess) -> (r: bool)
    ensures
        r == insufficient_material_of(*board),
{
    board.is_insufficient_material()
}

/// `Position::zobrist_hash` with 64 bits, counting an en passant square
/// only where the capture is legal: the result is a function of the board
/// alone and goes by the name [`key_of`].
#[verifier::external_body]
fn chess_key(board: &Chess) -> (r: u64)
    ensures
        r == key_of(*board),
{
    board.zobrist_hash::<Zobrist64>(EnPassantMode::Legal).0
}

/// `Board::into_bitboards` on a copy of the board: the result is a function
/// of the board alone and goes by the name [`bitboards_of`].
#[verifier::external_body]
fn chess_bitboards(board: &Chess) -> (r: ([u64; 6], [u64; 2]))
    ensures
        (r.0@, r.1@) == bitboards_of(*board),
{
    let (role, color) = board.board().clone().into_bitboards();
    (
        [role.pawn.0, role.knight.0, role.bishop.0, role.rook.0, role.queen.0, role.king.0],
        [color.white.0, color.black.0],
    )
}

/// `Position::legal_moves`: the result is a function of the board alone and
/// goes by the name [`legal_moves_of`].
#[verifier::external_body]
fn chess_legal_moves(board: &Chess) -> (r: Vec<Move>)
    ensures
        r@ == legal_moves_of(*board),
{
    board.legal_moves().into_iter().collect()
}

/// `Position::play` on a copy: the result is a function of the board and
/// the move alone and goes by the name [`played`].
#[verifier::external_body]
fn chess_play(board: &Chess, mv: &Move) -> (r: Option<Chess>)
    ensures
        r == played(*board, *mv),
{
    board.clone().play(*mv).ok()
}

/// The copy of a move (`Move` is `Copy`): it equals the move copied.
#[verifier::external_body]
pub(crate) fn move_copy(mv: &Move) -> (r: Move)
    ensures
        r == *mv,
{
    *mv
}

/// Whether what the move generator reports of the board makes a position:
/// the bitboards do not contradict each other and hold no more pieces than
/// a position may.
pub open spec fn reportable(board: Chess) -> bool {
    let (by_role, by_color) = bitboards_of(board);
    &&& forall|sq: int|
        0 <= sq < 64 ==> (#[trigger] code_from_bitboards(by_role, by_color, sq)).is_some()
    &&& valid_squares(Seq::new(64, |sq: int| code_from_bitboards(by_role, by_color, sq).unwrap()))
}

/// Whether `position` holds what the move generator reports of the board.
pub open spec fn reports(board: Chess, position: Position) -> bool {
    let (by_role, by_color) = bitboards_of(board);
    &&& forall|sq: int|
        0 <= sq < 64 ==> code_from_bitboards(by_role, by_color, sq) == Some(
            #[trigger] position.squares()[sq],
        )
    &&& position.side() == if white_to_move_of(board) {
        Color::White
    } else {
        Color::Black
    }
    &&& position.clock() == halfmoves_of(board)
    &&& position.in_check() == check_of(board)
    &&& position.lacks_material() == insufficient_material_of(board)
    &&& position.hash() == key_of(board)
}

/// The features of the pieces on the first `n` squares, a1 first, as
/// `side` sees them: for each piece the index of the feature "this piece on
/// this square".
pub open spec fn features_below(squares: Seq<u8>, side: Color, n: int) -> Seq<usize>
    decreases n,
{
    if n <= 0 {
        Seq::empty()
    } else if squares[n - 1] == 0 {
        features_below(squares, side, n - 1)
    } else {
        features_below(squares, side, n - 1).push(
            square_feature(squares[n - 1] as int, n - 1, side) as usize,
        )
    }
}

/// The record of the position from which a game starts.
pub open spec fn start_fen() -> Seq<char> {
    "rnbqkbnr/pppppppp/8/8/8/8/PPPPPPPP/RNBQKBNR w KQkq - 0 1"@
}

/// A game in progress.
///
/// `board` is the position as the move generator holds it. `position` is
/// what the generator reports of that board; everything that the library
/// decides, it decides on `position`. `history` holds the keys of the
/// positions since the last move that no later position can repeat, oldest
/// first, without the present one.
pub struct State {
    board: Chess,
    position: Position,
    history: Vec<u64>,
}

impl State {
    /// The position as the move generator holds it.
    pub closed spec fn chess(&self) -> Chess {
        self.board
    }

    pub closed spec fn summary(&self) -> Position {
        self.position
    }

    pub closed spec fn earlier(&self) -> Seq<u64> {
        self.history@
    }

    /// Holds of every state that the constructors return: the summary is a
    /// position and holds what the move generator reports of the board.
    pub open spec fn wf(&self) -> bool {
        self.summary().wf() && reports(self.chess(), self.summary())
    }

    /// Whether `mv` can be played: it is legal, and what the move generator
    /// reports of the board after it makes a position.
    pub open spec fn accepts(&self, mv: Move) -> bool {
        played(self.chess(), mv) matches Some(next) && reportable(next)
    }

    /// The state with the given board and history, if what the generator
    /// reports of the board makes a position.
    fn from_board(board: Chess, history: Vec<u64>) -> (r: Option<State>)
        ensures
            r.is_some() <==> reportable(board),
            r matches Some(s) ==> s.wf() && s.chess() == board && s.earlier() == history@,
    {
        let (by_role, by_color) = chess_bitboards(&board);
        let turn = Color::from_white(chess_white_to_move(&board));
        let position = Position::from_bitboards(
            &by_role,
            &by_color,
            turn,
            chess_halfmoves(&board),
            chess_is_check(&board),
            chess_is_insufficient_material(&board),
            chess_key(&board),
        );
        match position {
            Some(position) => Some(State { board, position, history }),
            None => None,
        }
    }

    /// The start of a game: the state that the record [`start_fen`]
    /// describes.
    pub fn new() -> (r: Option<State>)
        ensures
            r.is_some() <==> (fen_position(start_fen()) matches Some(board) && reportable(board)),
            r matches Some(s) ==> {
                &&& s.wf()
                &&& Some(s.chess()) == fen_position(start_fen())
                &&& s.earlier().len() == 0
            },
    {
        State::from_fen("rnbqkbnr/pppppppp/8/8/8/8/PPPPPPPP/RNBQKBNR w KQkq - 0 1")
    }

    /// The state that a FEN record describes, with no earlier positions;
    /// none where the record describes no position, or one of which the
    /// move generator reports no position.
    pub fn from_fen(fen: &str) -> (r: Option<State>)
        ensures
            r.is_some() <==> (fen_position(fen@) matches Some(board) && reportable(board)),
            r matches Some(s) ==> {
                &&& s.wf()
                &&& Some(s.chess()) == fen_position(fen@)
                &&& s.earlier().len() == 0
            },
    {
        match chess_from_fen(fen) {
            Some(board) => State::from_board(board, Vec::new()),
            None => None,
        }
    }

    pub fn position(&self) -> (r: &Position)
        ensures
            *r == self.summary(),
    {
        &self.position
    }

    /// The position as the move generator holds it.
    pub fn board(&self) -> (r: &Chess)
        ensures
            *r == self.chess(),
    {
        &self.board
    }

    pub fn side_to_move(&self) -> (r: Color)
        ensures
            r == self.summary().side(),
    {
        self.position.side_to_move()
    }

    pub fn halfmove_counter(&self) -> (r: u32)
        ensures
            r == self.summary().clock(),
    {
        self.position.halfmove_counter()
    }

    pub fn key(&self) -> (r: u64)
        ensures
            r == self.summary().hash(),
    {
        self.position.key()
    }

    /// The legal moves, in the order of the move generator.
    pub fn available_moves(&self) -> (r: Vec<Move>)
        ensures
            r@ == legal_moves_of(self.chess()),
    {
        chess_legal_moves(&self.board)
    }

    /// The kind of the move `mv`: its piece and the square that it goes
    /// to, as the side to move sees the board.
    pub open spec fn move_index(&self, mv: Move) -> int {
        (role_of(mv) - 1) * 64 + if self.summary().side() == Color::White {
            target_of(mv) as int
        } else {
            mirrored(target_of(mv) as int)
        }
    }

    /// The kind of the move `mv`, below `NUMBER_MOVES`.
    pub fn move_to_index(&self, mv: &Move) -> (r: usize)
        ensures
            r == self.move_index(*mv),
            r < NUMBER_MOVES,
    {
        let role = move_role(mv) as usize - 1;
        let to = move_target(mv);
        let seen: u8 = if self.position.side_to_move().is_white() {
            to
        } else {
            let flipped: u8 = to ^ 56;
            assert(flipped == (7 - to / 8) * 8 + to % 8) by (bit_vector)
                requires
                    flipped == to ^ 56,
                    to < 64,
            ;
            flipped
        };
        role * 64 + seen as usize
    }

    /// The features of the state, each below `NUMBER_FEATURES`: the pieces
    /// on their squares as the side to move sees them, a1 first.
    pub fn features(&self) -> (r: Vec<usize>)
        requires
            self.wf(),
        ensures
            r@ == features_below(self.summary().squares(), self.summary().side(), 64),
            forall|i: int| 0 <= i < r@.len() ==> #[trigger] r@[i] < NUMBER_FEATURES,
    {
        let squares = self.position.piece_codes();
        let side = self.position.side_to_move();
        let mut found: Vec<usize> = Vec::new();
        let mut sq: usize = 0;
        while sq < 64
            invariant
                sq <= 64,
                squares@ == self.summary().squares(),
                side == self.summary().side(),
                valid_squares(squares@),
                found@ == features_below(squares@, side, sq as int),
                forall|i: int| 0 <= i < found@.len() ==> #[trigger] found@[i] < NUMBER_FEATURES,
            decreases 64 - sq,
        {
            let code = squares[sq];
            if code != 0 {
                let colour = if code <= 6 {
                    Color::White
                } else {
                    Color::Black
                };
                let piece_type = match Role::from_index(((code - 1) % 6) as usize) {
                    Some(role) => role,
                    None => Role::King,
                };
                assert(colour == code_color(code as int));
                assert(piece_type == code_role(code as int));
                let (white_idx, black_idx) = feature_indices(sq as u8, piece_type, colour);
                found.push(side.fold_wb(white_idx, black_idx));
            }
            sq = sq + 1;
        }
        found
    }

    /// The present position has occurred since the last move that cannot be
    /// taken back.
    pub fn is_repetition(&self) -> (r: bool)
        ensures
            r == self.earlier().contains(self.summary().hash()),
    {
        let key = self.position.key();
        let mut i: usize = 0;
        while i < self.history.len()
            invariant
                i <= self.history.len(),
                key == self.position.hash(),
                forall|k: int| 0 <= k < i ==> self.history@[k] != key,
            decreases self.history.len() - i,
        {
            if self.history[i] == key {
                return true;
            }
            i = i + 1;
        }
        false
    }

    pub fn drawn_by_fifty_move_rule(&self) -> (r: bool)
        ensures
            r == (self.summary().clock() >= FIFTY_MOVE_LIMIT),
    {
        self.position.halfmove_counter() >= FIFTY_MOVE_LIMIT
    }

    /// Whether the rules alone make the position a draw, whatever is played:
    /// by repetition, by the fifty-move rule or for want of material.
    pub open spec fn drawn(&self) -> bool {
        ||| self.earlier().contains(self.summary().hash())
        ||| self.summary().clock() >= FIFTY_MOVE_LIMIT
        ||| self.summary().lacks_material()
    }

    pub fn is_drawn(&self) -> (r: bool)
        ensures
            r == self.drawn(),
    {
        self.is_repetition() || self.drawn_by_fifty_move_rule()
            || self.position.is_insufficient_material()
    }

    /// The earlier positions of a state that follows `self` by a move after
    /// which the half-move clock reads `clock`: none after a move that
    /// cannot be taken back, else those of `self` and its own.
    pub open spec fn earlier_after(&self, clock: u32) -> Seq<u64> {
        if clock == 0 {
            Seq::empty()
        } else {
            self.earlier().push(self.summary().hash())
        }
    }

    /// Plays `mv`, if the state accepts it (see [`State::accepts`]): the
    /// board becomes the board after the move, the summary what the move
    /// generator reports of it, and the earlier positions those that can
    /// still return. Returns `false`, and leaves the state as it is, where
    /// the state does not accept the move.
    pub fn make_move(&mut self, mv: &Move) -> (r: bool)
        requires
            old(self).wf(),
        ensures
            final(self).wf(),
            r == old(self).accepts(*mv),
            !r ==> *final(self) == *old(self),
            r ==> {
                &&& Some(final(self).chess()) == played(old(self).chess(), *mv)
                &&& final(self).earlier() == old(self).earlier_after(
                    final(self).summary().clock(),
                )
            },
    {
        let next = match chess_play(&self.board, mv) {
            Some(next) => next,
            None => {
                return false;
            },
        };
        let mut state = match State::from_board(next, Vec::new()) {
            Some(state) => state,
            None => {
                return false;
            },
        };
        if state.position.halfmove_counter() != 0 {
            let mut history = self.history.clone();
            history.push(self.position.key());
            state.history = history;
        }
        *self = state;
        true
    }
}

impl Clone for State {
    fn clone(&self) -> (r: State)
        ensures
            r.chess() == self.chess(),
            r.summary() == self.summary(),
            r.earlier() == self.earlier(),
            r.wf() == self.wf(),
    {
        State {
            board: chess_clone(&self.board),
            position: self.position,
            history: self.history.clone(),
        }
    }
}

} // verus!
