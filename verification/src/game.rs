//! The game aggregate: the starting position, the move query, and the
//! application of a move.

use vstd::prelude::*;
use crate::movegen::{contains_square, legal_destinations};
use crate::notation::{label_of, parse_label};
use crate::pattern::{destinations, is_destination, lemma_destinations_exact};
use crate::promotion::{awaits_promotion, lemma_promotion_of_settled, promoted, settled};
use crate::types::{
    cell, grid, lemma_grid_injective, on_board, opposite, well_formed, Board, ChessError, Color,
    Game, GameState, Grid, Move, Piece, PieceType, Position, Square,
};

verus! {

/// The kind of the piece that starts on a file of the back rank.
pub open spec fn back_rank_kind(file: int) -> PieceType {
    if file == 0 || file == 7 {
        PieceType::Rook
    } else if file == 1 || file == 6 {
        PieceType::Knight
    } else if file == 2 || file == 5 {
        PieceType::Bishop
    } else if file == 3 {
        PieceType::Queen
    } else {
        PieceType::King
    }
}

/// What stands on `(file, rank)` in the starting position: Black's back rank
/// on rank 0 and Black's pawns on rank 1, White's pawns on rank 6 and White's
/// back rank on rank 7.
pub open spec fn initial_cell(file: int, rank: int) -> Option<Piece> {
    if rank == 0 {
        Some(Piece { piecetype: back_rank_kind(file), color: Color::Black })
    } else if rank == 1 {
        Some(Piece { piecetype: PieceType::Pawn, color: Color::Black })
    } else if rank == 6 {
        Some(Piece { piecetype: PieceType::Pawn, color: Color::White })
    } else if rank == 7 {
        Some(Piece { piecetype: back_rank_kind(file), color: Color::White })
    } else {
        None
    }
}

/// The starting position.
pub open spec fn initial_grid() -> Grid {
    Seq::new(8, |rank: int| Seq::new(8, |file: int| initial_cell(file, rank)))
}

/// The board after the piece on `from` has gone to `to`: the origin is empty
/// and the destination holds the piece, whatever stood there before.
pub open spec fn moved(g: Grid, from: Square, to: Square) -> Grid {
    Seq::new(
        8,
        |rank: int|
            Seq::new(
                8,
                |file: int|
                    if file == to.file && rank == to.rank {
                        cell(g, from.file as int, from.rank as int)
                    } else if file == from.file && rank == from.rank {
                        None
                    } else {
                        cell(g, file, rank)
                    },
            ),
    )
}

/// The board after a move has been played: the piece has moved and the
/// promotion rule has been applied, with the queen as target kind.
pub open spec fn played(g: Grid, m: Move) -> Grid {
    promoted(moved(g, m.from, m.to), PieceType::Queen)
}

impl Position {
    /// Whether the move from the square that `from` names to the square that
    /// `to` names is accepted, and why not if it is not: both labels must
    /// name squares, a piece must stand on the origin, it must belong to the
    /// side to move, and the destination must be one of its legal
    /// destinations.
    pub open spec fn verdict(self, from: Seq<char>, to: Seq<char>) -> Result<Move, ChessError> {
        match (parse_label(from), parse_label(to)) {
            (Some(origin), Some(target)) => match cell(
                self.grid,
                origin.file as int,
                origin.rank as int,
            ) {
                None => Err(ChessError::EmptyOrigin),
                Some(piece) => if piece.color == self.color && is_destination(
                    self.grid,
                    origin,
                    target,
                ) {
                    Ok(Move { from: origin, to: target })
                } else {
                    Err(ChessError::IllegalMove)
                },
            },
            _ => Err(ChessError::InvalidLabel),
        }
    }

    /// The game after a request to move. The move is played when the game is
    /// not over and the request is accepted; the side to move changes only
    /// if the move is played and `switch_turn` is set. The promotion rule is
    /// applied in every case. The phase never changes.
    pub open spec fn after_move(self, from: Seq<char>, to: Seq<char>, switch_turn: bool) -> Position {
        if self.state != GameState::GameOver && self.verdict(from, to) is Ok {
            Position {
                state: self.state,
                grid: played(self.grid, self.verdict(from, to)->Ok_0),
                color: if switch_turn {
                    opposite(self.color)
                } else {
                    self.color
                },
            }
        } else {
            Position {
                state: self.state,
                grid: promoted(self.grid, PieceType::Queen),
                color: self.color,
            }
        }
    }

    /// The game after the destinations of the piece on `square` have been
    /// asked for: a pawn found on its far rank is promoted at once, along
    /// with every other pawn that awaits promotion.
    pub open spec fn after_query(self, square: Square) -> Position {
        if awaits_promotion(self.grid, square.file as int, square.rank as int) {
            Position {
                state: self.state,
                grid: promoted(self.grid, PieceType::Queen),
                color: self.color,
            }
        } else {
            self
        }
    }
}

/// A request that is turned down, or made when the game is over, leaves the
/// whole game unchanged, provided that no pawn awaited promotion.
pub proof fn lemma_rejected_move(p: Position, from: Seq<char>, to: Seq<char>, switch_turn: bool)
    requires
        well_formed(p.grid),
        settled(p.grid),
        p.state == GameState::GameOver || p.verdict(from, to) is Err,
    ensures
        p.after_move(from, to, switch_turn) == p,
{
    lemma_promotion_of_settled(p.grid, PieceType::Queen);
}

/// A request whose destination is not among the legal destinations of the
/// origin is turned down, and so leaves the whole game unchanged, provided
/// that no pawn awaited promotion.
pub proof fn lemma_illegal_destination_is_pure(
    p: Position,
    from: Seq<char>,
    to: Seq<char>,
    switch_turn: bool,
)
    requires
        well_formed(p.grid),
        settled(p.grid),
        parse_label(from) is Some,
        parse_label(to) is Some,
        !destinations(p.grid, parse_label(from)->0).contains(parse_label(to)->0),
    ensures
        p.verdict(from, to) is Err,
        p.after_move(from, to, switch_turn) == p,
{
    lemma_destinations_exact(p.grid, parse_label(from)->0);
    lemma_rejected_move(p, from, to, switch_turn);
}

impl Game {
    /// A new game: the starting position, White to move, in progress.
    pub fn new() -> (game: Game)
        ensures
            game@ == (Position {
                state: GameState::InProgress,
                grid: initial_grid(),
                color: Color::White,
            }),
    {
        Game { state: GameState::InProgress, color: Color::White, board: Game::generate_board() }
    }

    /// The board of the starting position.
    pub fn generate_board() -> (board: Board)
        ensures
            grid(board) == initial_grid(),
    {
        let mut board: Board = [[None; 8]; 8];
        let pieces: [PieceType; 8] = [
            PieceType::Rook,
            PieceType::Knight,
            PieceType::Bishop,
            PieceType::Queen,
            PieceType::King,
            PieceType::Bishop,
            PieceType::Knight,
            PieceType::Rook,
        ];
        let mut i: usize = 0;
        while i < 8
            invariant
                i <= 8,
                forall|file: int| 0 <= file < 8 ==> #[trigger] pieces[file] == back_rank_kind(file),
                forall|file: int, rank: int|
                    0 <= file < 8 && 0 <= rank < 8 ==> #[trigger] board[rank][file] == (if file
                        < i {
                        initial_cell(file, rank)
                    } else {
                        None
                    }),
            decreases 8 - i,
        {
            board[0][i] = Some(Piece { piecetype: pieces[i], color: Color::Black });
            board[1][i] = Some(Piece { piecetype: PieceType::Pawn, color: Color::Black });
            board[6][i] = Some(Piece { piecetype: PieceType::Pawn, color: Color::White });
            board[7][i] = Some(Piece { piecetype: pieces[i], color: Color::White });
            i += 1;
        }
        assert(grid(board) =~~= initial_grid());
        board
    }

    /// The current phase of the game.
    pub fn get_game_state(&self) -> (state: GameState)
        ensures
            state == self.state,
    {
        self.state
    }

    /// Judges a request to move without playing it: the move that would be
    /// played, or the reason why the request is turned down.
    ///
    /// [`ChessError::InvalidLabel`] when a label names no square; otherwise
    /// [`ChessError::EmptyOrigin`] when nothing stands on the origin;
    /// otherwise [`ChessError::IllegalMove`] when the piece on the origin
    /// belongs to the side that is not to move, or when the destination is
    /// not one of its legal destinations.
    pub fn check_move(&self, from: &str, to: &str) -> (verdict: Result<Move, ChessError>)
        ensures
            verdict == self@.verdict(from@, to@),
            verdict is Ok ==> (verdict->Ok_0).from.valid() && (verdict->Ok_0).to.valid(),
    {
        let origin = match Game::convert_letter_coordinates(from) {
            Ok(square) => square,
            Err(_) => {
                return Err(ChessError::InvalidLabel);
            },
        };
        let target = match Game::convert_letter_coordinates(to) {
            Ok(square) => square,
            Err(_) => {
                return Err(ChessError::InvalidLabel);
            },
        };
        match self.board[origin.rank as usize][origin.file as usize] {
            None => Err(ChessError::EmptyOrigin),
            Some(piece) => {
                if piece.color != self.color {
                    return Err(ChessError::IllegalMove);
                }
                let targets = legal_destinations(&self.board, origin);
                proof {
                    lemma_destinations_exact(grid(self.board), origin);
                }
                if contains_square(&targets, target) {
                    Ok(Move { from: origin, to: target })
                } else {
                    Err(ChessError::IllegalMove)
                }
            },
        }
    }

    /// Plays the move from the square that `from` names to the square that
    /// `to` names, if the game is not over and the request is accepted (see
    /// [`Position::verdict`]): the origin is cleared and the piece is put on
    /// the destination, over whatever stood there. The side to move changes
    /// only if the move was played and `switch_turn` is set. The promotion
    /// rule is applied afterwards in every case, with the queen as target
    /// kind. Returns the phase of the game, which this never changes.
    ///
    /// A request that is turned down leaves the board as it was, but for the
    /// promotion rule.
    pub fn make_move(&mut self, from: &String, to: String, switch_turn: bool) -> (state: GameState)
        ensures
            final(self)@ == old(self)@.after_move(from@, to@, switch_turn),
            state == old(self).state,
            (old(self).state == GameState::GameOver || old(self)@.verdict(from@, to@) is Err)
                && settled(old(self)@.grid) ==> final(self).board == old(self).board
                && final(self).color == old(self).color,
    {
        let ghost before = grid(self.board);
        let mut played_it = false;
        if self.state != GameState::GameOver {
            match self.check_move(from.as_str(), to.as_str()) {
                Ok(m) => {
                    self.play(m);
                    played_it = true;
                    if switch_turn {
                        self.color = Game::opposite_func(self.color);
                    }
                },
                Err(_) => {},
            }
        }
        if !played_it {
            self.set_promotion(PieceType::Queen);
        }
        proof {
            if (old(self).state == GameState::GameOver || old(self)@.verdict(from@, to@) is Err)
                && settled(before) {
                lemma_promotion_of_settled(before, PieceType::Queen);
                lemma_grid_injective(self.board, old(self).board);
            }
        }
        self.state
    }

    /// Plays a move without judging it: clears the origin, puts the piece on
    /// the destination, over whatever stood there, and applies the promotion
    /// rule with the queen as target kind.
    pub fn play(&mut self, m: Move)
        requires
            m.from.valid(),
            m.to.valid(),
        ensures
            final(self)@.grid == played(old(self)@.grid, m),
            final(self).state == old(self).state,
            final(self).color == old(self).color,
    {
        let ghost before = grid(self.board);
        let piece = self.board[m.from.rank as usize][m.from.file as usize];
        self.board[m.from.rank as usize][m.from.file as usize] = None;
        self.board[m.to.rank as usize][m.to.file as usize] = piece;
        assert(grid(self.board) =~~= moved(before, m.from, m.to));
        self.set_promotion(PieceType::Queen);
    }

    /// The legal destinations of the piece on `position`, given as
    /// `[file, rank]`: their labels, and their coordinates as `[file, rank]`
    /// pairs, both in scan order (file by file from A to H, and within a
    /// file from rank 0 to rank 7). Both lists are empty when the square is
    /// empty.
    ///
    /// A pawn found on its far rank has no destination, and is promoted to a
    /// queen by the query. Otherwise the game is left unchanged.
    pub fn get_possible_moves(&mut self, position: &Vec<i8>) -> (found: (Vec<String>, Vec<Vec<i8>>))
        requires
            position@.len() >= 2,
            on_board(position@[0] as int, position@[1] as int),
        ensures
            final(self)@ == old(self)@.after_query(
                Square { file: position@[0], rank: position@[1] },
            ),
            ({
                let listed = destinations(
                    old(self)@.grid,
                    Square { file: position@[0], rank: position@[1] },
                );
                &&& found.0@.len() == listed.len()
                &&& found.1@.len() == listed.len()
                &&& forall|i: int|
                    0 <= i < listed.len() ==> (#[trigger] found.0@[i])@ == label_of(listed[i])
                &&& forall|i: int|
                    0 <= i < listed.len() ==> (#[trigger] found.1@[i])@ == seq![
                        listed[i].file,
                        listed[i].rank,
                    ]
            }),
    {
        let origin = Square { file: position[0], rank: position[1] };
        let ghost before = grid(self.board);
        let squares = legal_destinations(&self.board, origin);
        let labels = Game::convert_coordinates(&squares);
        let mut coordinates: Vec<Vec<i8>> = Vec::new();
        let mut i: usize = 0;
        while i < squares.len()
            invariant
                i <= squares@.len(),
                coordinates@.len() == i,
                forall|j: int|
                    0 <= j < i ==> (#[trigger] coordinates@[j])@ == seq![
                        squares@[j].file,
                        squares@[j].rank,
                    ],
            decreases squares@.len() - i,
        {
            let square = squares[i];
            let pair: Vec<i8> = vec![square.file, square.rank];
            coordinates.push(pair);
            i += 1;
        }
        match self.board[origin.rank as usize][origin.file as usize] {
            Some(piece) => {
                let far: i8 = match piece.color {
                    Color::Black => 7,
                    Color::White => 0,
                };
                if piece.piecetype == PieceType::Pawn && origin.rank == far {
                    self.set_promotion(PieceType::Queen);
                }
            },
            None => {},
        }
        proof {
            if !awaits_promotion(before, origin.file as int, origin.rank as int) {
                lemma_grid_injective(self.board, old(self).board);
            }
        }
        (labels, coordinates)
    }
}

} // verus!
