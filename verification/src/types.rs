//! The data model: colors, pieces, squares, the board and the game aggregate,
//! together with the mathematical model of a board used by every contract.

use vstd::prelude::*;

verus! {

/// Phase of a game.
#[derive(Copy, Clone, Debug, PartialEq, Eq, Structural)]
pub enum GameState {
    InProgress,
    Check,
    GameOver,
}

/// Side of a piece, and side to move.
#[derive(Copy, Clone, Debug, PartialEq, Eq, Structural)]
pub enum Color {
    White,
    Black,
}

/// Kind of a piece.
#[derive(Copy, Clone, Debug, PartialEq, Eq, Structural)]
pub enum PieceType {
    Pawn,
    Rook,
    Queen,
    King,
    Knight,
    Bishop,
}

/// A piece: a kind and a color. A piece has no identity beyond its square.
#[derive(Copy, Clone, Debug, PartialEq, Eq, Structural)]
pub struct Piece {
    pub piecetype: PieceType,
    pub color: Color,
}

/// The board, indexed `board[rank][file]`. Rank 0 is Black's back rank and
/// rank 7 is White's; file 0 is the A file.
pub type Board = [[Option<Piece>; 8]; 8];

/// A grid coordinate. Only squares with both coordinates in `0..8` lie on the
/// board, see [`Square::valid`].
#[derive(Copy, Clone, Debug, PartialEq, Eq, Structural)]
pub struct Square {
    pub file: i8,
    pub rank: i8,
}

/// A move: the origin square and the destination square.
#[derive(Copy, Clone, Debug, PartialEq, Eq, Structural)]
pub struct Move {
    pub from: Square,
    pub to: Square,
}

/// Why a request was turned down.
#[derive(Copy, Clone, Debug, PartialEq, Eq, Structural)]
pub enum ChessError {
    /// The text is not a file letter `A`..`H` followed by a rank digit `1`..`8`.
    InvalidLabel,
    /// The destination is not a legal destination of the origin's piece, or
    /// the origin's piece does not belong to the side to move.
    IllegalMove,
    /// There is no piece on the origin square.
    EmptyOrigin,
    /// The board holds no king of the queried color.
    NoKing,
}

/// The single mutable aggregate of a session.
#[derive(Debug)]
pub struct Game {
    pub state: GameState,
    pub board: Board,
    pub color: Color,
}

/// The mathematical model of a board: eight ranks of eight cells,
/// `grid[rank][file]`.
pub type Grid = Seq<Seq<Option<Piece>>>;

/// The model of a concrete board.
pub open spec fn grid(board: Board) -> Grid {
    Seq::new(8, |r: int| board[r]@)
}

/// Both coordinates lie in `0..8`.
pub open spec fn on_board(file: int, rank: int) -> bool {
    0 <= file < 8 && 0 <= rank < 8
}

/// A grid has eight ranks of eight cells.
pub open spec fn well_formed(g: Grid) -> bool {
    g.len() == 8 && forall|r: int| 0 <= r < 8 ==> (#[trigger] g[r]).len() == 8
}

/// What stands on `(file, rank)`; `None` for an empty cell and off the board.
pub open spec fn cell(g: Grid, file: int, rank: int) -> Option<Piece> {
    if on_board(file, rank) {
        g[rank][file]
    } else {
        None
    }
}

/// The other color.
pub open spec fn opposite(color: Color) -> Color {
    match color {
        Color::White => Color::Black,
        Color::Black => Color::White,
    }
}

impl Square {
    /// The square lies on the board.
    pub open spec fn valid(self) -> bool {
        on_board(self.file as int, self.rank as int)
    }
}

/// Two boards with the same model are the same board.
pub proof fn lemma_grid_injective(a: Board, b: Board)
    requires
        grid(a) == grid(b),
    ensures
        a == b,
{
    assert forall|r: int| 0 <= r < 8 implies a[r] == b[r] by {
        assert(grid(a)[r] == grid(b)[r]);
    }
}

/// The mathematical model of a game: its phase, the model of its board and
/// the side to move.
pub struct Position {
    pub state: GameState,
    pub grid: Grid,
    pub color: Color,
}

impl View for Game {
    type V = Position;

    open spec fn view(&self) -> Position {
        Position { state: self.state, grid: grid(self.board), color: self.color }
    }
}

impl Game {
    /// The color that is not `own_color`.
    pub fn opposite_func(own_color: Color) -> (other: Color)
        ensures
            other == opposite(own_color),
    {
        match own_color {
            Color::White => Color::Black,
            Color::Black => Color::White,
        }
    }
}

} // verus!
