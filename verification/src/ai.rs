//! A naive evaluation of the board by material, and a brute-force search on
//! top of it: every move of the side to move is tried on a copy of the board
//! and the one that leaves the other side with the least material is kept.

use vstd::prelude::*;
use rand::seq::SliceRandom;
use crate::check::all_moves;
use crate::game::played;
use crate::notation::{label_of, square_label};
use crate::pattern::scan_square;
use crate::types::{cell, grid, opposite, Color, Game, Grid, Move, PieceType, Position, Square};

verus! {

/// The worth of a kind of piece.
pub open spec fn piece_value(kind: PieceType) -> int {
    match kind {
        PieceType::Pawn => 1,
        PieceType::Knight => 3,
        PieceType::Bishop => 3,
        PieceType::Rook => 5,
        PieceType::Queen => 9,
        PieceType::King => 100,
    }
}

/// The worth, to the side `color`, of what stands on `square`: the worth of
/// the piece if it is of that color, nothing otherwise.
pub open spec fn square_value(g: Grid, square: Square, color: Color) -> int {
    match cell(g, square.file as int, square.rank as int) {
        Some(piece) => if piece.color == color {
            piece_value(piece.piecetype)
        } else {
            0
        },
        None => 0,
    }
}

/// The material of `color` on the first `n` squares in scan order.
pub open spec fn material_among(g: Grid, color: Color, n: int) -> int
    decreases n,
{
    if n <= 0 {
        0
    } else {
        material_among(g, color, n - 1) + square_value(g, scan_square(n - 1), color)
    }
}

/// The material of `color`: the sum of the worth of its pieces.
pub open spec fn material(g: Grid, color: Color) -> int {
    material_among(g, color, 64)
}

/// The material on `n` squares lies between 0 and 100 for each square.
pub proof fn lemma_material_bounds(g: Grid, color: Color, n: int)
    requires
        0 <= n,
    ensures
        0 <= material_among(g, color, n) <= 100 * n,
    decreases n,
{
    if n > 0 {
        lemma_material_bounds(g, color, n - 1);
    }
}

/// The score from which a search starts: a move is kept only if it scores
/// strictly less.
pub open spec fn score_limit() -> int {
    150
}

/// The move that a search proposes when no move scores below the limit: the
/// pawn step from A2 to A3.
pub open spec fn fallback_move() -> Move {
    Move { from: Square { file: 0, rank: 6 }, to: Square { file: 0, rank: 5 } }
}

/// The least of the first `n` scores, and of the limit.
pub open spec fn least_among(scores: Seq<int>, n: int) -> int
    decreases n,
{
    if n <= 0 {
        score_limit()
    } else if scores[n - 1] < least_among(scores, n - 1) {
        scores[n - 1]
    } else {
        least_among(scores, n - 1)
    }
}

/// The choice among the first `n` moves: the first move whose score is the
/// least, if that score is below the limit; the fallback move otherwise.
pub open spec fn choice_among(moves: Seq<Move>, scores: Seq<int>, n: int) -> Move
    decreases n,
{
    if n <= 0 {
        fallback_move()
    } else if scores[n - 1] < least_among(scores, n - 1) {
        moves[n - 1]
    } else {
        choice_among(moves, scores, n - 1)
    }
}

/// What the least score and the choice are: the least score is a lower bound
/// of the limit and of every score; if it is the limit, the fallback move is
/// chosen; otherwise the chosen move is the first one that scores it.
pub proof fn lemma_choice(moves: Seq<Move>, scores: Seq<int>, n: int)
    requires
        0 <= n <= scores.len(),
        scores.len() == moves.len(),
    ensures
        least_among(scores, n) <= score_limit(),
        forall|j: int| 0 <= j < n ==> least_among(scores, n) <= #[trigger] scores[j],
        least_among(scores, n) == score_limit() ==> choice_among(moves, scores, n) == fallback_move(),
        least_among(scores, n) < score_limit() ==> exists|j: int|
            0 <= j < n && #[trigger] scores[j] == least_among(scores, n) && moves[j] == choice_among(
                moves,
                scores,
                n,
            ) && forall|i: int| 0 <= i < j ==> #[trigger] scores[i] > least_among(scores, n),
    decreases n,
{
    if n > 0 {
        lemma_choice(moves, scores, n - 1);
    }
}

/// The function that gives the material of `counted` once a move has been
/// played on the board `g`.
pub open spec fn material_after(g: Grid, counted: Color) -> spec_fn(Move) -> int {
    |m: Move| material(played(g, m), counted)
}

/// The material of `counted` after each move of `mover`, in the order of
/// the moves.
pub open spec fn scores_after(g: Grid, mover: Color, counted: Color) -> Seq<int> {
    all_moves(g, mover).map_values(material_after(g, counted))
}

/// The outlook of the side `color` that has just moved: the least material
/// that the other side is left with after a move of its own, or the limit if
/// no move of the other side leaves it with less.
pub open spec fn reply_outlook(g: Grid, color: Color) -> int {
    least_among(
        scores_after(g, opposite(color), opposite(color)),
        all_moves(g, opposite(color)).len() as int,
    )
}

/// The function that gives the outlook of `color` once it has played a move
/// on the board `g`.
pub open spec fn outlook_after(g: Grid, color: Color) -> spec_fn(Move) -> int {
    |m: Move| reply_outlook(played(g, m), color)
}

/// The outlook of `color` after each of its moves, in the order of the moves.
pub open spec fn outlooks_after(g: Grid, color: Color) -> Seq<int> {
    all_moves(g, color).map_values(outlook_after(g, color))
}

impl Position {
    /// The move that a search of one ply proposes: the first move of the
    /// side to move that leaves the other side with the least material, if
    /// that is below the limit; the fallback move otherwise.
    pub open spec fn shallow_choice(self) -> Move {
        choice_among(
            all_moves(self.grid, self.color),
            scores_after(self.grid, self.color, opposite(self.color)),
            all_moves(self.grid, self.color).len() as int,
        )
    }

    /// The move that a search of two plies proposes: the first move of the
    /// side to move with the least outlook, if that is below the limit; the
    /// fallback move otherwise.
    pub open spec fn deep_choice(self) -> Move {
        choice_among(
            all_moves(self.grid, self.color),
            outlooks_after(self.grid, self.color),
            all_moves(self.grid, self.color).len() as int,
        )
    }

    /// The score of the move that a search of one ply proposes: the least
    /// material that a move of the side to move leaves to the other side, or
    /// the limit if no move leaves less.
    pub open spec fn shallow_score(self) -> int {
        least_among(
            scores_after(self.grid, self.color, opposite(self.color)),
            all_moves(self.grid, self.color).len() as int,
        )
    }

    /// The score of the move that a search of two plies proposes: the least
    /// outlook after a move of the side to move, or the limit if no move has
    /// a lower one.
    pub open spec fn deep_score(self) -> int {
        least_among(
            outlooks_after(self.grid, self.color),
            all_moves(self.grid, self.color).len() as int,
        )
    }

    /// The game after a request to play the move `m` and to pass the turn.
    pub open spec fn after_choice(self, m: Move) -> Position {
        self.after_move(label_of(m.from), label_of(m.to), true)
    }

    /// A side has lost its king: its material is under the worth of a king.
    pub open spec fn king_lost(self) -> bool {
        material(self.grid, Color::White) < 100 || material(self.grid, Color::Black) < 100
    }
}

/// Picks one item of a list of moves at random.
///
/// This is `rand::seq::SliceRandom::choose` on the slice of the moves, with
/// the generator of `rand::thread_rng`. All that is claimed of it is what
/// holds of every draw: nothing is picked from an empty list, and what is
/// picked from another list is one of its items. Which item is picked is
/// left open. The generator is seeded from the operating system when a
/// thread first uses it, and `rand` panics if that seeding fails.
#[verifier::external_body]
fn pick_at_random(moves: &Vec<Move>) -> (picked: Option<Move>)
    ensures
        moves@.len() == 0 ==> picked is None,
        moves@.len() > 0 ==> picked is Some && moves@.contains(picked->0),
{
    moves.choose(&mut rand::thread_rng()).copied()
}

impl PieceType {
    /// The worth of a piece of this kind.
    pub fn value(&self) -> (worth: i32)
        ensures
            worth == piece_value(*self),
    {
        match *self {
            PieceType::Pawn => 1,
            PieceType::Knight => 3,
            PieceType::Bishop => 3,
            PieceType::Rook => 5,
            PieceType::Queen => 9,
            PieceType::King => 100,
        }
    }
}

impl Game {
    /// The material of White and the material of Black, in this order.
    pub fn evaluate_board_state(&self) -> (sums: (i32, i32))
        ensures
            sums.0 == material(self@.grid, Color::White),
            sums.1 == material(self@.grid, Color::Black),
            0 <= sums.0 <= 6400,
            0 <= sums.1 <= 6400,
    {
        let ghost g = grid(self.board);
        let mut white: i32 = 0;
        let mut black: i32 = 0;
        let mut i: i8 = 0;
        while i < 8
            invariant
                0 <= i <= 8,
                g == grid(self.board),
                white == material_among(g, Color::White, 8 * i),
                black == material_among(g, Color::Black, 8 * i),
            decreases 8 - i,
        {
            let mut j: i8 = 0;
            while j < 8
                invariant
                    0 <= i < 8,
                    0 <= j <= 8,
                    g == grid(self.board),
                    white == material_among(g, Color::White, 8 * i + j),
                    black == material_among(g, Color::Black, 8 * i + j),
                decreases 8 - j,
            {
                proof {
                    lemma_material_bounds(g, Color::White, 8 * i + j);
                    lemma_material_bounds(g, Color::Black, 8 * i + j);
                }
                match self.board[j as usize][i as usize] {
                    Some(piece) => {
                        let value = piece.piecetype.value();
                        if piece.color == Color::White {
                            white += value;
                        } else {
                            black += value;
                        }
                    },
                    None => {},
                }
                j += 1;
            }
            i += 1;
        }
        proof {
            lemma_material_bounds(g, Color::White, 64);
            lemma_material_bounds(g, Color::Black, 64);
        }
        (white, black)
    }

    /// Whether a side has lost its king: whether the material of a side is
    /// under the worth of a king.
    pub fn king_lost(&self) -> (lost: bool)
        ensures
            lost == self@.king_lost(),
    {
        let (white, black) = self.evaluate_board_state();
        white < 100 || black < 100
    }

    /// The `i`-th move of the side to move, in the order of
    /// [`Game::get_all_possible_moves`]; its last move if it has fewer;
    /// `None` if it has no move at all.
    pub fn ai_get_sequential_move(&self, i: usize) -> (sequential: Option<Move>)
        ensures
            sequential == (if all_moves(self@.grid, self.color).len() == 0 {
                None
            } else if i < all_moves(self@.grid, self.color).len() {
                Some(all_moves(self@.grid, self.color)[i as int])
            } else {
                Some(all_moves(self@.grid, self.color).last())
            }),
    {
        let moves = self.get_all_possible_moves(self.color);
        if moves.len() == 0 {
            return None;
        }
        let mut index = i;
        if i >= moves.len() {
            index = moves.len() - 1;
        }
        Some(moves[index])
    }

    /// One of the moves of the side to move, picked at random; `None` if it
    /// has no move at all.
    pub fn ai_get_random_move(&self) -> (random: Option<Move>)
        ensures
            all_moves(self@.grid, self.color).len() == 0 ==> random is None,
            all_moves(self@.grid, self.color).len() > 0 ==> random is Some && all_moves(
                self@.grid,
                self.color,
            ).contains(random->0),
    {
        let moves = self.get_all_possible_moves(self.color);
        pick_at_random(&moves)
    }

    /// The material that `counted` is left with once `m` has been played on
    /// a copy of the board.
    fn material_once_played(&self, m: Move, counted: Color) -> (worth: i32)
        requires
            m.from.valid(),
            m.to.valid(),
        ensures
            worth == material(played(self@.grid, m), counted),
            0 <= worth <= 6400,
    {
        let mut trial = Game { state: self.state, board: self.board, color: self.color };
        trial.play(m);
        let (white, black) = trial.evaluate_board_state();
        match counted {
            Color::White => white,
            Color::Black => black,
        }
    }

    /// The outlook of the side to move once it has moved: every move of the
    /// other side is tried on a copy of the board, and the least material
    /// that the other side is left with is returned, or 150 if none of its
    /// moves leaves it with less.
    pub fn get_data_of_opposite_color(&self) -> (least: i32)
        ensures
            least == reply_outlook(self@.grid, self.color),
    {
        let ghost g = grid(self.board);
        let enemy = Game::opposite_func(self.color);
        let moves = self.get_all_possible_moves(enemy);
        let ghost scores = scores_after(g, enemy, enemy);
        let mut least: i32 = 150;
        let mut j: usize = 0;
        while j < moves.len()
            invariant
                j <= moves@.len(),
                g == grid(self.board),
                moves@ == all_moves(g, enemy),
                scores == scores_after(g, enemy, enemy),
                forall|k: int|
                    0 <= k < moves@.len() ==> (
                    #[trigger] moves@[k]).from.valid()
                        && moves@[k].to.valid(),
                least == least_among(scores, j as int),
            decreases moves@.len() - j,
        {
            let value = self.material_once_played(moves[j], enemy);
            if least > value {
                least = value;
            }
            j += 1;
        }
        least
    }

    /// The score and the move that a search of one ply proposes.
    fn shallow_choice(&self) -> (best: (i32, Move))
        ensures
            best.0 == self@.shallow_score(),
            best.1 == self@.shallow_choice(),
            best.1.from.valid(),
            best.1.to.valid(),
    {
        let ghost g = grid(self.board);
        let enemy = Game::opposite_func(self.color);
        let moves = self.get_all_possible_moves(self.color);
        let ghost scores = scores_after(g, self.color, enemy);
        let mut least: i32 = 150;
        let mut best = Move { from: Square { file: 0, rank: 6 }, to: Square { file: 0, rank: 5 } };
        let mut j: usize = 0;
        while j < moves.len()
            invariant
                j <= moves@.len(),
                g == grid(self.board),
                enemy == opposite(self.color),
                moves@ == all_moves(g, self.color),
                scores == scores_after(g, self.color, enemy),
                forall|k: int|
                    0 <= k < moves@.len() ==> (
                    #[trigger] moves@[k]).from.valid()
                        && moves@[k].to.valid(),
                least == least_among(scores, j as int),
                best == choice_among(moves@, scores, j as int),
            decreases moves@.len() - j,
        {
            let value = self.material_once_played(moves[j], enemy);
            if least > value {
                least = value;
                best = moves[j];
            }
            j += 1;
        }
        proof {
            lemma_choice(moves@, scores, moves@.len() as int);
        }
        (least, best)
    }

    /// The score and the move that a search of two plies proposes.
    fn deep_choice(&self) -> (best: (i32, Move))
        ensures
            best.0 == self@.deep_score(),
            best.1 == self@.deep_choice(),
            best.1.from.valid(),
            best.1.to.valid(),
    {
        let ghost g = grid(self.board);
        let moves = self.get_all_possible_moves(self.color);
        let ghost scores = outlooks_after(g, self.color);
        let mut least: i32 = 150;
        let mut best = Move { from: Square { file: 0, rank: 6 }, to: Square { file: 0, rank: 5 } };
        let mut j: usize = 0;
        while j < moves.len()
            invariant
                j <= moves@.len(),
                g == grid(self.board),
                moves@ == all_moves(g, self.color),
                scores == outlooks_after(g, self.color),
                forall|k: int|
                    0 <= k < moves@.len() ==> (
                    #[trigger] moves@[k]).from.valid()
                        && moves@[k].to.valid(),
                least == least_among(scores, j as int),
                best == choice_among(moves@, scores, j as int),
            decreases moves@.len() - j,
        {
            let mut trial = Game { state: self.state, board: self.board, color: self.color };
            trial.play(moves[j]);
            let outlook = trial.get_data_of_opposite_color();
            if least > outlook {
                least = outlook;
                best = moves[j];
            }
            j += 1;
        }
        proof {
            lemma_choice(moves@, scores, moves@.len() as int);
        }
        (least, best)
    }

    /// One turn of the search of one ply. A side without a move does
    /// nothing. Otherwise the move that the search proposes is requested,
    /// with the turn passed on, and returned with its score. The request
    /// goes through [`Game::make_move`], so the fallback move, if it is not
    /// legal, and any move when the game is over, change nothing but for the
    /// promotion rule.
    pub fn chess_ai_turn(&mut self) -> (turn: Option<(i32, Move)>)
        ensures
            all_moves(old(self)@.grid, old(self).color).len() == 0 ==> turn is None && final(self)@
                == old(self)@ && final(self).board == old(self).board,
            all_moves(old(self)@.grid, old(self).color).len() > 0 ==> turn == Some(
                (old(self)@.shallow_score() as i32, old(self)@.shallow_choice()),
            ) && final(self)@ == old(self)@.after_choice(old(self)@.shallow_choice()),
    {
        if self.get_all_possible_moves(self.color).len() == 0 {
            return None;
        }
        let (least, best) = self.shallow_choice();
        let from = square_label(best.from);
        let to = square_label(best.to);
        self.make_move(&from, to, true);
        Some((least, best))
    }

    /// One turn of the search of two plies: the move that the search
    /// proposes is requested, with the turn passed on, and returned with its
    /// score. The request goes through [`Game::make_move`], as in
    /// [`Game::chess_ai_turn`]; a side without a move asks for the fallback
    /// move.
    pub fn get_data_of_my_color(&mut self) -> (turn: (i32, Move))
        ensures
            turn.0 == old(self)@.deep_score(),
            turn.1 == old(self)@.deep_choice(),
            final(self)@ == old(self)@.after_choice(turn.1),
    {
        let (least, best) = self.deep_choice();
        let from = square_label(best.from);
        let to = square_label(best.to);
        self.make_move(&from, to, true);
        (least, best)
    }
}

} // verus!
