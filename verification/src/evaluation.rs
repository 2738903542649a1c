//! Classification of positions: what a node of the search tree knows about
//! the game-theoretic status of its position.

use crate::nnue_eval::{lemma_mirror_keeps_score, mirrored_board, NNUEParams, NNUEState};
use crate::position::{valid_squares, Color};
use crate::search_tree::SCALE;
use crate::state::State;
use shakmaty::Move;
use vstd::prelude::*;

verus! {

/// Status of a position, seen from one side.
///
/// `Standard` positions are still to be searched. The `Terminal*` values say
/// that the game is over by the rules, the `Tablebase*` values that an
/// endgame tablebase knows the result.
#[derive(Clone, Copy, Debug, PartialEq, Eq, Structural)]
pub enum Flag {
    Standard,
    TerminalWin,
    TerminalDraw,
    TerminalLoss,
    TablebaseWin,
    TablebaseDraw,
    TablebaseLoss,
}

impl Flag {
    /// The same status seen from the other side: wins and losses trade
    /// places, draws and `Standard` stay.
    pub open spec fn flipped(self) -> Flag {
        match self {
            Flag::TerminalWin => Flag::TerminalLoss,
            Flag::TerminalLoss => Flag::TerminalWin,
            Flag::TablebaseWin => Flag::TablebaseLoss,
            Flag::TablebaseLoss => Flag::TablebaseWin,
            Flag::Standard => Flag::Standard,
            Flag::TerminalDraw => Flag::TerminalDraw,
            Flag::TablebaseDraw => Flag::TablebaseDraw,
        }
    }

    /// The game is over by the rules.
    pub open spec fn terminal(self) -> bool {
        self == Flag::TerminalWin || self == Flag::TerminalDraw || self == Flag::TerminalLoss
    }

    /// The result comes from a tablebase.
    pub open spec fn tablebase(self) -> bool {
        self == Flag::TablebaseWin || self == Flag::TablebaseDraw || self == Flag::TablebaseLoss
    }

    /// The side that the flag speaks for wins.
    pub open spec fn win(self) -> bool {
        self == Flag::TerminalWin || self == Flag::TablebaseWin
    }

    /// The side that the flag speaks for loses.
    pub open spec fn loss(self) -> bool {
        self == Flag::TerminalLoss || self == Flag::TablebaseLoss
    }

    pub fn flip(self) -> (r: Flag)
        ensures
            r == self.flipped(),
    {
        match self {
            Flag::TerminalWin => Flag::TerminalLoss,
            Flag::TerminalLoss => Flag::TerminalWin,
            Flag::TablebaseWin => Flag::TablebaseLoss,
            Flag::TablebaseLoss => Flag::TablebaseWin,
            _ => self,
        }
    }

    #[verifier::when_used_as_spec(terminal)]
    pub fn is_terminal(self) -> (r: bool)
        ensures
            r == self.terminal(),
    {
        match self {
            Flag::TerminalWin | Flag::TerminalDraw | Flag::TerminalLoss => true,
            _ => false,
        }
    }

    #[verifier::when_used_as_spec(tablebase)]
    pub fn is_tablebase(self) -> (r: bool)
        ensures
            r == self.tablebase(),
    {
        match self {
            Flag::TablebaseWin | Flag::TablebaseDraw | Flag::TablebaseLoss => true,
            _ => false,
        }
    }
}

/// Flipping twice gives the flag back.
pub proof fn lemma_flip_involution(f: Flag)
    ensures
        f.flipped().flipped() == f,
{
}

/// Every flag is exactly one of: `Standard`, terminal, from a tablebase.
pub proof fn lemma_flag_kinds_partition(f: Flag)
    ensures
        (f == Flag::Standard) <==> !(f.terminal() || f.tablebase()),
        !(f.terminal() && f.tablebase()),
{
}

/// Flipping keeps the kind of a flag, trades wins for losses and fixes
/// exactly the flags that are neither.
pub proof fn lemma_flip_keeps_kind(f: Flag)
    ensures
        f.flipped().terminal() == f.terminal(),
        f.flipped().tablebase() == f.tablebase(),
        f.flipped().win() == f.loss(),
        f.flipped().loss() == f.win(),
        (f.flipped() == f) <==> !(f.win() || f.loss()),
{
}

/// What a tablebase says of a position, for the side to move and under the
/// fifty-move rule.
#[derive(Clone, Copy, Debug, PartialEq, Eq, Structural)]
pub enum Wdl {
    /// Lost whatever is played.
    Loss,
    /// Lost, but the fifty-move rule saves the draw.
    BlessedLoss,
    Draw,
    /// Won, but the fifty-move rule spoils the win.
    CursedWin,
    /// Won whatever is played.
    Win,
}

/// The flag of a position for the side to move: decided by the rules where
/// no move is left, by the tablebase where it knows the position, and open
/// otherwise.
pub open spec fn mover_flag(no_moves: bool, in_check: bool, tablebase: Option<Wdl>) -> Flag {
    if no_moves {
        if in_check {
            Flag::TerminalLoss
        } else {
            Flag::TerminalDraw
        }
    } else {
        match tablebase {
            Some(Wdl::Win) => Flag::TablebaseWin,
            Some(Wdl::Loss) => Flag::TablebaseLoss,
            Some(_) => Flag::TablebaseDraw,
            None => Flag::Standard,
        }
    }
}

/// The flag of a position as white sees it, `side` being the side to move.
pub open spec fn white_flag(
    no_moves: bool,
    in_check: bool,
    tablebase: Option<Wdl>,
    side: Color,
) -> Flag {
    let flag = mover_flag(no_moves, in_check, tablebase);
    if side == Color::White {
        flag
    } else {
        flag.flipped()
    }
}

/// A value that the side `side` holds, as white counts it.
pub open spec fn white_value(value: int, side: Color) -> int {
    if side == Color::White {
        value
    } else {
        -value
    }
}

/// The flag of a position, as white sees it, from what is known of it:
/// whether a move is left, whether the side to move is in check, what the
/// tablebase answered, and who is to move.
pub fn classify(no_moves: bool, in_check: bool, tablebase: Option<Wdl>, side: Color) -> (r: Flag)
    ensures
        r == white_flag(no_moves, in_check, tablebase, side),
{
    let flag = if no_moves {
        if in_check {
            Flag::TerminalLoss
        } else {
            Flag::TerminalDraw
        }
    } else {
        match tablebase {
            Some(Wdl::Win) => Flag::TablebaseWin,
            Some(Wdl::Loss) => Flag::TablebaseLoss,
            Some(_) => Flag::TablebaseDraw,
            None => Flag::Standard,
        }
    };
    side.fold_wb(flag, flag.flip())
}

/// A value kept within one unit of the search: what lies beyond counts as
/// a certain win or a certain loss.
pub open spec fn within_unit(value: int) -> int {
    if value > SCALE {
        SCALE as int
    } else if value < -SCALE {
        -SCALE
    } else {
        value
    }
}

/// The score of the network for the state, as white counts it, kept within
/// one unit of the search.
pub fn evaluate_state(params: &NNUEParams, state: &State) -> (r: i64)
    requires
        state.wf(),
    ensures
        r == within_unit(
            white_value(
                params.score(state.summary().squares(), state.summary().side()),
                state.summary().side(),
            ),
        ),
        -SCALE <= r <= SCALE,
{
    let mut network = NNUEState::new(params);
    let state_evaluation = network.forward(params, state.position()) as i64;
    let for_white = state.side_to_move().fold_wb(state_evaluation, -state_evaluation);
    if for_white > SCALE {
        SCALE
    } else if for_white < -SCALE {
        -SCALE
    } else {
        for_white
    }
}

/// The flag of the state, as white sees it. `moves` are the legal moves of
/// the state and `tablebase` is what the tablebase answered for it, `None`
/// where it does not know the position or was not asked.
pub fn evaluate_state_flag(state: &State, moves: &Vec<Move>, tablebase: Option<Wdl>) -> (r: Flag)
    ensures
        r == white_flag(
            moves@.len() == 0,
            state.summary().in_check(),
            tablebase,
            state.summary().side(),
        ),
{
    classify(moves.len() == 0, state.position().is_check(), tablebase, state.side_to_move())
}

/// The flag of a position is found from four facts alone. Of these the
/// answer of the tablebase does not count where no move is left, and the
/// check does not count where one is. The flag says that the game is over
/// exactly where no move is left, and that the tablebase knew the position
/// exactly where a move is left and the tablebase answered. For the other
/// side to move, the flag is the flipped one.
pub proof fn lemma_flag_determined(
    no_moves: bool,
    in_check: bool,
    tablebase: Option<Wdl>,
    side: Color,
    in_check_other: bool,
    tablebase_other: Option<Wdl>,
)
    ensures
        no_moves ==> white_flag(no_moves, in_check, tablebase, side) == white_flag(
            no_moves,
            in_check,
            tablebase_other,
            side,
        ),
        !no_moves ==> white_flag(no_moves, in_check, tablebase, side) == white_flag(
            no_moves,
            in_check_other,
            tablebase,
            side,
        ),
        white_flag(no_moves, in_check, tablebase, side).terminal() <==> no_moves,
        white_flag(no_moves, in_check, tablebase, side).tablebase() <==> !no_moves
            && tablebase.is_some(),
        white_flag(no_moves, in_check, tablebase, side.opposite()) == white_flag(
            no_moves,
            in_check,
            tablebase,
            side,
        ).flipped(),
{
}

/// Seen from the other side, with the other side to move, a position is
/// worth to white the opposite of what it was worth before.
pub proof fn lemma_mirror_negates_value(params: NNUEParams, squares: Seq<u8>, side: Color)
    requires
        valid_squares(squares),
    ensures
        white_value(params.score(mirrored_board(squares), side.opposite()), side.opposite())
            == -white_value(params.score(squares, side), side),
        within_unit(
            white_value(params.score(mirrored_board(squares), side.opposite()), side.opposite()),
        ) == -within_unit(white_value(params.score(squares, side), side)),
{
    lemma_mirror_keeps_score(params, squares, side);
}

} // verus!
