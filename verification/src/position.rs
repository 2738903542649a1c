//! The plain view of a chess position that the evaluation and the search
//! read: which piece stands where, who moves, and a few facts about the
//! position that only a move generator can find.

use vstd::prelude::*;

verus! {

/// Number of squares of the board.
pub const SQUARES: usize = 64;

/// Largest number of pieces that a position may hold.
pub const MAX_PIECES: usize = 32;

/// Largest piece code: the black king.
pub const MAX_CODE: u8 = 12;

#[derive(Clone, Copy, Debug, PartialEq, Eq, Structural)]
pub enum Color {
    White,
    Black,
}

#[derive(Clone, Copy, Debug, PartialEq, Eq, Structural)]
pub enum Role {
    Pawn,
    Knight,
    Bishop,
    Rook,
    Queen,
    King,
}

impl Color {
    /// 0 for white, 1 for black.
    pub open spec fn index(self) -> int {
        match self {
            Color::White => 0,
            Color::Black => 1,
        }
    }

    pub open spec fn opposite(self) -> Color {
        match self {
            Color::White => Color::Black,
            Color::Black => Color::White,
        }
    }

    pub fn other(self) -> (r: Color)
        ensures
            r == self.opposite(),
    {
        match self {
            Color::White => Color::Black,
            Color::Black => Color::White,
        }
    }

    pub fn is_white(self) -> (r: bool)
        ensures
            r == (self == Color::White),
    {
        match self {
            Color::White => true,
            Color::Black => false,
        }
    }

    pub fn from_white(white: bool) -> (r: Color)
        ensures
            r == (if white {
                Color::White
            } else {
                Color::Black
            }),
    {
        if white {
            Color::White
        } else {
            Color::Black
        }
    }

    /// `white` for white, `black` for black.
    pub fn fold_wb<T>(self, white: T, black: T) -> (r: T)
        ensures
            r == (if self == Color::White {
                white
            } else {
                black
            }),
    {
        match self {
            Color::White => white,
            Color::Black => black,
        }
    }

    pub fn to_index(self) -> (r: usize)
        ensures
            r == self.index(),
    {
        match self {
            Color::White => 0,
            Color::Black => 1,
        }
    }
}

impl Role {
    /// 0 for the pawn up to 5 for the king.
    pub open spec fn index(self) -> int {
        match self {
            Role::Pawn => 0,
            Role::Knight => 1,
            Role::Bishop => 2,
            Role::Rook => 3,
            Role::Queen => 4,
            Role::King => 5,
        }
    }

    pub fn to_index(self) -> (r: usize)
        ensures
            r == self.index(),
            r < 6,
    {
        match self {
            Role::Pawn => 0,
            Role::Knight => 1,
            Role::Bishop => 2,
            Role::Rook => 3,
            Role::Queen => 4,
            Role::King => 5,
        }
    }

    pub fn from_index(i: usize) -> (r: Option<Role>)
        ensures
            i < 6 <==> r.is_some(),
            r matches Some(role) ==> role.index() == i,
    {
        match i {
            0 => Some(Role::Pawn),
            1 => Some(Role::Knight),
            2 => Some(Role::Bishop),
            3 => Some(Role::Rook),
            4 => Some(Role::Queen),
            5 => Some(Role::King),
            _ => None,
        }
    }
}

/// The square with the same file on the rank counted from the other side.
pub open spec fn mirrored(sq: int) -> int {
    (7 - sq / 8) * 8 + sq % 8
}

/// Colour of the piece with code `code` (1 to 12).
pub open spec fn code_color(code: int) -> Color {
    if code <= 6 {
        Color::White
    } else {
        Color::Black
    }
}

/// Role of the piece with code `code` (1 to 12).
pub open spec fn code_role(code: int) -> Role {
    let r = (code - 1) % 6;
    if r == 0 {
        Role::Pawn
    } else if r == 1 {
        Role::Knight
    } else if r == 2 {
        Role::Bishop
    } else if r == 3 {
        Role::Rook
    } else if r == 4 {
        Role::Queen
    } else {
        Role::King
    }
}

/// The code of the same piece in the other colour; the empty square stays.
pub open spec fn recolored(code: int) -> int {
    if code == 0 {
        0
    } else if code <= 6 {
        code + 6
    } else {
        code - 6
    }
}

/// Number of occupied squares among the first `n`.
pub open spec fn occupied_below(squares: Seq<u8>, n: int) -> int
    decreases n,
{
    if n <= 0 {
        0
    } else {
        occupied_below(squares, n - 1) + if squares[n - 1] != 0 {
            1int
        } else {
            0int
        }
    }
}

/// What a board must meet to be a position: a known code on each square and
/// no more pieces than a game of chess can have.
pub open spec fn valid_squares(squares: Seq<u8>) -> bool {
    &&& squares.len() == SQUARES
    &&& forall|i: int| 0 <= i < SQUARES ==> #[trigger] squares[i] <= MAX_CODE
    &&& occupied_below(squares, SQUARES as int) <= MAX_PIECES
}

/// The count of occupied squares grows with the number of squares counted.
pub proof fn lemma_occupied_monotone(squares: Seq<u8>, a: int, b: int)
    requires
        a <= b,
    ensures
        0 <= occupied_below(squares, a) <= occupied_below(squares, b),
    decreases b - a,
{
    lemma_occupied_nonnegative(squares, a);
    if a < b {
        lemma_occupied_monotone(squares, a, b - 1);
    }
}

pub proof fn lemma_occupied_nonnegative(squares: Seq<u8>, n: int)
    ensures
        0 <= occupied_below(squares, n),
    decreases n,
{
    if n > 0 {
        lemma_occupied_nonnegative(squares, n - 1);
    }
}

/// The piece on a square of a board given as bitboards, one per role and one
/// per colour: `Some(0)` for an empty square, `Some(code)` for a piece, `None`
/// where the bitboards contradict each other.
pub open spec fn code_from_bitboards(by_role: Seq<u64>, by_color: Seq<u64>, sq: int) -> Option<u8>
    recommends
        by_role.len() == 6,
        by_color.len() == 2,
        0 <= sq < 64,
{
    let roles = Seq::new(6, |r: int| bit(by_role[r], sq));
    let count = (if roles[0] { 1int } else { 0 }) + (if roles[1] { 1int } else { 0 }) + (if roles[2] { 1int } else { 0 })
        + (if roles[3] { 1int } else { 0 }) + (if roles[4] { 1int } else { 0 }) + (if roles[5] { 1int } else { 0 });
    let white = bit(by_color[0], sq);
    let black = bit(by_color[1], sq);
    let role: int = if roles[0] {
        0
    } else if roles[1] {
        1
    } else if roles[2] {
        2
    } else if roles[3] {
        3
    } else if roles[4] {
        4
    } else {
        5
    };
    if count == 0 && !white && !black {
        Some(0u8)
    } else if count == 1 && white != black {
        Some((1 + (if white { 0int } else { 6 }) + role) as u8)
    } else {
        None
    }
}

/// Whether bit `sq` of `board` is set.
pub open spec fn bit(board: u64, sq: int) -> bool {
    (board >> (sq as u64)) & 1 == 1
}

/// A chess position as the evaluation and the search see it.
///
/// `squares` holds for each square, a1 first and h8 last, the code of the
/// piece on it or 0: 1 to 6 for the white pawn, knight, bishop, rook, queen
/// and king, 7 to 12 for the black ones. The other fields are facts that a
/// move generator reports of the position; the library stores them and
/// reads them back, it does not derive them.
#[derive(Clone, Copy, Debug)]
pub struct Position {
    squares: [u8; 64],
    turn: Color,
    halfmoves: u32,
    check: bool,
    insufficient_material: bool,
    key: u64,
}

impl Position {
    pub closed spec fn squares(self) -> Seq<u8> {
        self.squares@
    }

    pub closed spec fn side(self) -> Color {
        self.turn
    }

    pub closed spec fn clock(self) -> u32 {
        self.halfmoves
    }

    pub closed spec fn in_check(self) -> bool {
        self.check
    }

    pub closed spec fn lacks_material(self) -> bool {
        self.insufficient_material
    }

    pub closed spec fn hash(self) -> u64 {
        self.key
    }

    /// Holds of every position that the constructors return.
    pub open spec fn wf(self) -> bool {
        valid_squares(self.squares())
    }

    /// A position with the given board and facts, if the board is valid.
    pub fn new(
        squares: [u8; 64],
        turn: Color,
        halfmoves: u32,
        check: bool,
        insufficient_material: bool,
        key: u64,
    ) -> (r: Option<Position>)
        ensures
            r.is_some() <==> valid_squares(squares@),
            r matches Some(p) ==> {
                &&& p.wf()
                &&& p.squares() == squares@
                &&& p.side() == turn
                &&& p.clock() == halfmoves
                &&& p.in_check() == check
                &&& p.lacks_material() == insufficient_material
                &&& p.hash() == key
            },
    {
        let mut count: usize = 0;
        let mut i: usize = 0;
        while i < 64
            invariant
                i <= 64,
                count == occupied_below(squares@, i as int),
                count <= i,
                forall|k: int| 0 <= k < i ==> #[trigger] squares@[k] <= MAX_CODE,
            decreases 64 - i,
        {
            if squares[i] > MAX_CODE {
                return None;
            }
            if squares[i] != 0 {
                count = count + 1;
            }
            i = i + 1;
        }
        if count > MAX_PIECES {
            return None;
        }
        Some(Position { squares, turn, halfmoves, check, insufficient_material, key })
    }

    /// The position whose board is given by bitboards: `by_role` for pawns,
    /// knights, bishops, rooks, queens and kings, `by_color` for white and
    /// black. `None` where the bitboards contradict each other or hold too
    /// many pieces.
    pub fn from_bitboards(
        by_role: &[u64; 6],
        by_color: &[u64; 2],
        turn: Color,
        halfmoves: u32,
        check: bool,
        insufficient_material: bool,
        key: u64,
    ) -> (r: Option<Position>)
        ensures
            r matches Some(p) ==> {
                &&& p.wf()
                &&& forall|sq: int|
                    0 <= sq < 64 ==> code_from_bitboards(by_role@, by_color@, sq) == Some(
                        #[trigger] p.squares()[sq],
                    )
                &&& p.side() == turn
                &&& p.clock() == halfmoves
                &&& p.in_check() == check
                &&& p.lacks_material() == insufficient_material
                &&& p.hash() == key
            },
            r.is_none() <==> {
                ||| exists|sq: int|
                    0 <= sq < 64 && (#[trigger] code_from_bitboards(by_role@, by_color@, sq)).is_none()
                ||| !valid_squares(
                    Seq::new(64, |sq: int| code_from_bitboards(by_role@, by_color@, sq).unwrap()),
                )
            },
    {
        let mut squares: [u8; 64] = [0u8;64];
        let mut sq: usize = 0;
        while sq < 64
            invariant
                sq <= 64,
                forall|k: int|
                    0 <= k < sq ==> code_from_bitboards(by_role@, by_color@, k) == Some(
                        #[trigger] squares@[k],
                    ),
            decreases 64 - sq,
        {
            let code = square_code(by_role, by_color, sq);
            match code {
                None => {
                    return None;
                },
                Some(c) => {
                    squares[sq] = c;
                },
            }
            sq = sq + 1;
        }
        proof {
            assert forall|k: int| 0 <= k < 64 implies (#[trigger] code_from_bitboards(
                by_role@,
                by_color@,
                k,
            )) == Some(squares@[k]) by {}
            assert(squares@ =~= Seq::new(
                64,
                |sq: int| code_from_bitboards(by_role@, by_color@, sq).unwrap(),
            ));
        }
        Position::new(squares, turn, halfmoves, check, insufficient_material, key)
    }

    pub fn piece_codes(&self) -> (r: &[u8; 64])
        ensures
            r@ == self.squares(),
    {
        &self.squares
    }

    pub fn side_to_move(&self) -> (r: Color)
        ensures
            r == self.side(),
    {
        self.turn
    }

    pub fn halfmove_counter(&self) -> (r: u32)
        ensures
            r == self.clock(),
    {
        self.halfmoves
    }

    pub fn is_check(&self) -> (r: bool)
        ensures
            r == self.in_check(),
    {
        self.check
    }

    pub fn is_insufficient_material(&self) -> (r: bool)
        ensures
            r == self.lacks_material(),
    {
        self.insufficient_material
    }

    pub fn key(&self) -> (r: u64)
        ensures
            r == self.hash(),
    {
        self.key
    }
}

/// Tests bit `sq` of `board`.
pub fn test_bit(board: u64, sq: usize) -> (r: bool)
    requires
        sq < 64,
    ensures
        r == bit(board, sq as int),
{
    (board >> (sq as u64)) & 1 == 1
}

/// The code on square `sq` of a board given as bitboards.
pub fn square_code(by_role: &[u64; 6], by_color: &[u64; 2], sq: usize) -> (r: Option<u8>)
    requires
        sq < 64,
    ensures
        r == code_from_bitboards(by_role@, by_color@, sq as int),
        r matches Some(c) ==> c <= MAX_CODE,
{
    let r0 = test_bit(by_role[0], sq);
    let r1 = test_bit(by_role[1], sq);
    let r2 = test_bit(by_role[2], sq);
    let r3 = test_bit(by_role[3], sq);
    let r4 = test_bit(by_role[4], sq);
    let r5 = test_bit(by_role[5], sq);
    let white = test_bit(by_color[0], sq);
    let black = test_bit(by_color[1], sq);
    let mut count: u8 = 0;
    let mut role: u8 = 5;
    if r5 {
        count = count + 1;
        role = 5;
    }
    if r4 {
        count = count + 1;
        role = 4;
    }
    if r3 {
        count = count + 1;
        role = 3;
    }
    if r2 {
        count = count + 1;
        role = 2;
    }
    if r1 {
        count = count + 1;
        role = 1;
    }
    if r0 {
        count = count + 1;
        role = 0;
    }
    if count == 0 && !white && !black {
        Some(0)
    } else if count == 1 && white != black {
        let base: u8 = if white {
            1
        } else {
            7
        };
        Some(base + role)
    } else {
        None
    }
}

} // verus!
