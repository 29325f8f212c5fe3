//! Check and checkmate: whether a king stands on a square that the other
//! side's pieces may move to, and whether any move of a side ends that.

use vstd::prelude::*;
use crate::game::played;
use crate::movegen::{holds, legal_destinations};
use crate::pattern::{
    destinations, holds_color, is_destination, lemma_destinations_exact, scan_square,
};
use crate::types::{
    cell, grid, opposite, ChessError, Color, Game, GameState, Grid, Move, Piece, PieceType, Square,
};

verus! {

/// The king of `color` stands on `square`.
pub open spec fn is_king_of(g: Grid, square: Square, color: Color) -> bool {
    cell(g, square.file as int, square.rank as int) == Some(
        Piece { piecetype: PieceType::King, color },
    )
}

/// The last of the first `n` squares in scan order on which the king of
/// `color` stands, if there is one.
pub open spec fn king_among(g: Grid, color: Color, n: int) -> Option<Square>
    decreases n,
{
    if n <= 0 {
        None
    } else if is_king_of(g, scan_square(n - 1), color) {
        Some(scan_square(n - 1))
    } else {
        king_among(g, color, n - 1)
    }
}

/// The square of the king of `color`: the last one in scan order, should the
/// board hold several; `None` if it holds none.
pub open spec fn king_square(g: Grid, color: Color) -> Option<Square> {
    king_among(g, color, 64)
}

/// Some piece of the color `by` has `target` among its legal destinations.
pub open spec fn attacked(g: Grid, target: Square, by: Color) -> bool {
    exists|from: Square|
        from.valid() && holds_color(g, from.file as int, from.rank as int, by)
            && #[trigger] is_destination(g, from, target)
}

/// The king of `color` is attacked by the other side. False on a board
/// without a king of `color`.
pub open spec fn checked(g: Grid, color: Color) -> bool {
    match king_square(g, color) {
        Some(king) => attacked(g, king, opposite(color)),
        None => false,
    }
}

/// The function that makes a move from `from` out of a destination.
pub open spec fn move_from(from: Square) -> spec_fn(Square) -> Move {
    |to: Square| Move { from, to }
}

/// The moves of the piece on `from`, in the order of its legal destinations,
/// if that piece is of `color`; no move otherwise.
pub open spec fn moves_from(g: Grid, color: Color, from: Square) -> Seq<Move> {
    if holds_color(g, from.file as int, from.rank as int, color) {
        destinations(g, from).map_values(move_from(from))
    } else {
        Seq::empty()
    }
}

/// The moves of the pieces of `color` that stand on the first `n` squares in
/// scan order.
pub open spec fn moves_among(g: Grid, color: Color, n: int) -> Seq<Move>
    decreases n,
{
    if n <= 0 {
        Seq::empty()
    } else {
        moves_among(g, color, n - 1) + moves_from(g, color, scan_square(n - 1))
    }
}

/// Every move of the side `color`: origins in scan order, and for each
/// origin its legal destinations in scan order.
pub open spec fn all_moves(g: Grid, color: Color) -> Seq<Move> {
    moves_among(g, color, 64)
}

/// No move of `color` leaves its king out of check: after each of them the
/// king is still attacked. True in particular when `color` has no move.
pub open spec fn no_escape(g: Grid, color: Color) -> bool {
    forall|m: Move| #[trigger] all_moves(g, color).contains(m) ==> checked(played(g, m), color)
}

/// The king that is found stands on the board and is a king of the color;
/// none is found only if no square holds one.
pub proof fn lemma_king_square(g: Grid, color: Color)
    ensures
        king_square(g, color) matches Some(king) ==> king.valid() && is_king_of(g, king, color),
        king_square(g, color) is None ==> forall|s: Square|
            s.valid() ==> !#[trigger] is_king_of(g, s, color),
{
    lemma_king_among(g, color, 64);
    assert forall|s: Square| s.valid() && king_square(g, color) is None implies !#[trigger] is_king_of(
        g,
        s,
        color,
    ) by {
        assert(scan_square(8 * s.file + s.rank) == s);
    }
}

/// What is found among the first `n` squares is a king of the color on the
/// board; nothing is found only if none of those squares holds one.
proof fn lemma_king_among(g: Grid, color: Color, n: int)
    requires
        0 <= n <= 64,
    ensures
        king_among(g, color, n) matches Some(king) ==> king.valid() && is_king_of(g, king, color),
        king_among(g, color, n) is None ==> forall|i: int|
            0 <= i < n ==> !is_king_of(g, #[trigger] scan_square(i), color),
    decreases n,
{
    if n > 0 {
        lemma_king_among(g, color, n - 1);
    }
}

/// The list of all moves of a side holds exactly the moves that take a piece
/// of that side from its square to one of its legal destinations.
pub proof fn lemma_all_moves_exact(g: Grid, color: Color)
    ensures
        forall|m: Move| #[trigger]
            all_moves(g, color).contains(m) <==> m.from.valid() && holds_color(
                g,
                m.from.file as int,
                m.from.rank as int,
                color,
            ) && is_destination(g, m.from, m.to),
{
    lemma_moves_among(g, color, 64);
    assert forall|m: Move| #[trigger]
        all_moves(g, color).contains(m) <==> m.from.valid() && holds_color(
            g,
            m.from.file as int,
            m.from.rank as int,
            color,
        ) && is_destination(g, m.from, m.to) by {
        if m.from.valid() {
            assert(scan_square(8 * m.from.file + m.from.rank) == m.from);
        }
    }
}

/// The moves of the piece on `from` are the moves from `from` to its legal
/// destinations, if the piece is of the color.
proof fn lemma_moves_from(g: Grid, color: Color, from: Square)
    ensures
        forall|m: Move| #[trigger]
            moves_from(g, color, from).contains(m) <==> m.from == from && holds_color(
                g,
                from.file as int,
                from.rank as int,
                color,
            ) && is_destination(g, from, m.to),
{
    let listed = destinations(g, from);
    let made = moves_from(g, color, from);
    lemma_destinations_exact(g, from);
    assert forall|m: Move| #[trigger]
        made.contains(m) <==> m.from == from && holds_color(
            g,
            from.file as int,
            from.rank as int,
            color,
        ) && is_destination(g, from, m.to) by {
        if m.from == from && holds_color(g, from.file as int, from.rank as int, color)
            && is_destination(g, from, m.to) {
            assert(listed.contains(m.to));
            let i = choose|i: int| 0 <= i < listed.len() && listed[i] == m.to;
            assert(made[i] == m);
        }
    }
}

/// The moves from the first `n` squares are the moves of the pieces of the
/// color that stand on those squares.
proof fn lemma_moves_among(g: Grid, color: Color, n: int)
    requires
        0 <= n <= 64,
    ensures
        forall|m: Move| #[trigger]
            moves_among(g, color, n).contains(m) <==> (exists|i: int|
                0 <= i < n && m.from == #[trigger] scan_square(i)) && holds_color(
                g,
                m.from.file as int,
                m.from.rank as int,
                color,
            ) && is_destination(g, m.from, m.to),
    decreases n,
{
    if n > 0 {
        let before = moves_among(g, color, n - 1);
        let here = moves_from(g, color, scan_square(n - 1));
        let both = moves_among(g, color, n);
        lemma_moves_among(g, color, n - 1);
        lemma_moves_from(g, color, scan_square(n - 1));
        assert forall|m: Move| #[trigger]
            both.contains(m) <==> (exists|i: int| 0 <= i < n && m.from == #[trigger] scan_square(i))
                && holds_color(g, m.from.file as int, m.from.rank as int, color) && is_destination(
                g,
                m.from,
                m.to,
            ) by {
            if both.contains(m) {
                let k = choose|k: int| 0 <= k < both.len() && both[k] == m;
                if k < before.len() {
                    assert(before.contains(m));
                }
            }
            if (exists|i: int| 0 <= i < n && m.from == #[trigger] scan_square(i)) && holds_color(
                g,
                m.from.file as int,
                m.from.rank as int,
                color,
            ) && is_destination(g, m.from, m.to) {
                let i = choose|i: int| 0 <= i < n && m.from == #[trigger] scan_square(i);
                if i == n - 1 {
                    assert(here.contains(m));
                    let k = choose|k: int| 0 <= k < here.len() && here[k] == m;
                    assert(both[before.len() + k] == m);
                } else {
                    assert(before.contains(m));
                    let k = choose|k: int| 0 <= k < before.len() && before[k] == m;
                    assert(both[k] == m);
                }
            }
        }
    }
}

impl Game {
    /// The square of the king of the side to move, if the board holds one:
    /// the last one in scan order, should it hold several.
    pub fn get_king_position(&self) -> (king: Option<Square>)
        ensures
            king == king_square(self@.grid, self.color),
            king matches Some(king) ==> king.valid() && is_king_of(
                self@.grid,
                king,
                self.color,
            ),
            king is None ==> forall|s: Square|
                s.valid() ==> !#[trigger] is_king_of(self@.grid, s, self.color),
    {
        let ghost g = grid(self.board);
        proof {
            lemma_king_square(g, self.color);
        }
        let mut king: Option<Square> = None;
        let mut i: i8 = 0;
        while i < 8
            invariant
                0 <= i <= 8,
                g == grid(self.board),
                king == king_among(g, self.color, 8 * i),
                king matches Some(king) ==> king.valid(),
            decreases 8 - i,
        {
            let mut j: i8 = 0;
            while j < 8
                invariant
                    0 <= i < 8,
                    0 <= j <= 8,
                    g == grid(self.board),
                    king == king_among(g, self.color, 8 * i + j),
                    king matches Some(king) ==> king.valid(),
                decreases 8 - j,
            {
                match self.board[j as usize][i as usize] {
                    Some(piece) => {
                        if piece.color == self.color && piece.piecetype == PieceType::King {
                            king = Some(Square { file: i, rank: j });
                        }
                    },
                    None => {},
                }
                j += 1;
            }
            i += 1;
        }
        king
    }

    /// Every move of the side `color`: for each of its pieces, square by
    /// square in scan order, the moves to its legal destinations.
    pub fn get_all_possible_moves(&self, color: Color) -> (moves: Vec<Move>)
        ensures
            moves@ == all_moves(self@.grid, color),
            forall|k: int|
                0 <= k < moves@.len() ==> (#[trigger] moves@[k]).from.valid()
                    && moves@[k].to.valid(),
    {
        let ghost g = grid(self.board);
        let mut moves: Vec<Move> = Vec::new();
        let mut i: i8 = 0;
        while i < 8
            invariant
                0 <= i <= 8,
                g == grid(self.board),
                moves@ == moves_among(g, color, 8 * i),
            decreases 8 - i,
        {
            let mut j: i8 = 0;
            while j < 8
                invariant
                    0 <= i < 8,
                    0 <= j <= 8,
                    g == grid(self.board),
                    moves@ == moves_among(g, color, 8 * i + j),
                decreases 8 - j,
            {
                let from = Square { file: i, rank: j };
                let ghost before = moves@;
                if holds(&self.board, from, color) {
                    let targets = legal_destinations(&self.board, from);
                    let mut n: usize = 0;
                    while n < targets.len()
                        invariant
                            n <= targets@.len(),
                            targets@ == destinations(g, from),
                            moves@ == before + targets@.take(n as int).map_values(
                                move_from(from),
                            ),
                        decreases targets@.len() - n,
                    {
                        moves.push(Move { from, to: targets[n] });
                        assert(moves@ =~= before + targets@.take(
                            n + 1,
                        ).map_values(move_from(from))) by {
                            assert(targets@.take(n + 1) =~= targets@.take(n as int).push(
                                targets@[n as int],
                            ));
                        }
                        n += 1;
                    }
                }
                j += 1;
            }
            i += 1;
        }
        proof {
            lemma_all_moves_exact(g, color);
            assert forall|k: int| 0 <= k < moves@.len() implies (
            #[trigger] moves@[k]).from.valid() && moves@[k].to.valid() by {
                let m = moves@[k];
                assert(all_moves(g, color).contains(m));
            }
        }
        moves
    }

    /// Whether the king of `color` is in check: whether its square is among
    /// the legal destinations of some piece of the other color. The game is
    /// not changed.
    ///
    /// Fails with [`ChessError::NoKing`] exactly when the board holds no king
    /// of `color`.
    pub fn in_check(&self, color: Color) -> (check: Result<bool, ChessError>)
        ensures
            check == match king_square(self@.grid, color) {
                Some(king) => Ok::<bool, ChessError>(attacked(self@.grid, king, opposite(color))),
                None => Err::<bool, ChessError>(ChessError::NoKing),
            },
            check matches Ok(found) ==> found == checked(self@.grid, color),
    {
        let ghost g = grid(self.board);
        let side = Game { state: self.state, board: self.board, color };
        let king = match side.get_king_position() {
            Some(king) => king,
            None => {
                return Err(ChessError::NoKing);
            },
        };
        let enemy = Game::opposite_func(color);
        let moves = self.get_all_possible_moves(enemy);
        let mut found = false;
        let mut n: usize = 0;
        while n < moves.len()
            invariant
                n <= moves@.len(),
                found <==> exists|k: int| 0 <= k < n && (#[trigger] moves@[k]).to == king,
            decreases moves@.len() - n,
        {
            if moves[n].to == king {
                found = true;
            }
            n += 1;
        }
        proof {
            lemma_all_moves_exact(g, enemy);
            if found {
                let k = choose|k: int|
                    0 <= k < n && (#[trigger] moves@[k]).to == king;
                assert(moves@.contains(moves@[k]));
            }
            if attacked(g, king, enemy) {
                let from = choose|from: Square|
                    from.valid() && holds_color(g, from.file as int, from.rank as int, enemy)
                        && #[trigger] is_destination(g, from, king);
                let m = Move { from, to: king };
                assert(moves@.contains(m));
            }
        }
        Ok(found)
    }

    /// Tests whether the king of the side to move is in check, and sets the
    /// phase of the game to [`GameState::Check`] if it is. Otherwise the game
    /// is not changed.
    ///
    /// Fails with [`ChessError::NoKing`] exactly when the board holds no king
    /// of the side to move.
    pub fn check_check(&mut self) -> (check: Result<bool, ChessError>)
        ensures
            check == match king_square(old(self)@.grid, old(self).color) {
                Some(king) => Ok::<bool, ChessError>(
                    attacked(old(self)@.grid, king, opposite(old(self).color)),
                ),
                None => Err::<bool, ChessError>(ChessError::NoKing),
            },
            final(self).board == old(self).board,
            final(self).color == old(self).color,
            final(self).state == if check == Ok::<bool, ChessError>(true) {
                GameState::Check
            } else {
                old(self).state
            },
    {
        let check = self.in_check(self.color);
        match check {
            Ok(true) => {
                self.state = GameState::Check;
            },
            _ => {},
        }
        check
    }

    /// Whether no move of `color` leaves its king out of check. Every move of
    /// `color` is tried in turn on a copy of the board, promotion included,
    /// and the king tested there; the whole list is tried, whatever the
    /// earlier trials gave. The game is not changed.
    ///
    /// A side with no move at all cannot escape, whether or not its king is
    /// attacked: stalemate is not told apart from checkmate.
    ///
    /// Fails with [`ChessError::NoKing`] exactly when the board holds no king
    /// of `color`.
    pub fn cannot_escape(&self, color: Color) -> (mate: Result<bool, ChessError>)
        ensures
            mate == if king_square(self@.grid, color) is None {
                Err::<bool, ChessError>(ChessError::NoKing)
            } else {
                Ok::<bool, ChessError>(no_escape(self@.grid, color))
            },
    {
        let ghost g = grid(self.board);
        let side = Game { state: self.state, board: self.board, color };
        if side.get_king_position().is_none() {
            return Err(ChessError::NoKing);
        }
        let moves = self.get_all_possible_moves(color);
        let mut checkmate = true;
        let mut i: usize = 0;
        while i < moves.len()
            invariant
                i <= moves@.len(),
                g == grid(self.board),
                forall|k: int|
                    0 <= k < moves@.len() ==> (
                    #[trigger] moves@[k]).from.valid()
                        && moves@[k].to.valid(),
                checkmate <==> forall|k: int|
                    0 <= k < i ==> checked(played(g, #[trigger] moves@[k]), color),
            decreases moves@.len() - i,
        {
            let mut trial = Game { state: self.state, board: self.board, color };
            trial.play(moves[i]);
            let check = match trial.in_check(color) {
                Ok(found) => found,
                Err(_) => false,
            };
            if !check {
                checkmate = false;
            }
            i += 1;
        }
        proof {
            let listed = moves@;
            if !checkmate {
                let k = choose|k: int| 0 <= k < i && !checked(played(g, #[trigger] listed[k]), color);
                assert(all_moves(g, color).contains(listed[k]));
            }
        }
        Ok(checkmate)
    }

    /// Tests whether the side `color` is mated, that is, whether none of its
    /// moves leaves its king out of check (see [`Game::cannot_escape`]), and
    /// sets the phase of the game to [`GameState::GameOver`] if it is.
    /// Otherwise the game is not changed.
    ///
    /// Fails with [`ChessError::NoKing`] exactly when the board holds no king
    /// of `color`.
    pub fn is_checkmate(&mut self, color: Color) -> (mate: Result<bool, ChessError>)
        ensures
            mate == if king_square(old(self)@.grid, color) is None {
                Err::<bool, ChessError>(ChessError::NoKing)
            } else {
                Ok::<bool, ChessError>(no_escape(old(self)@.grid, color))
            },
            final(self).board == old(self).board,
            final(self).color == old(self).color,
            final(self).state == if mate == Ok::<bool, ChessError>(true) {
                GameState::GameOver
            } else {
                old(self).state
            },
    {
        let mate = self.cannot_escape(color);
        match mate {
            Ok(true) => {
                self.state = GameState::GameOver;
            },
            _ => {},
        }
        mate
    }

    /// Tests whether the side to move is mated, as [`Game::is_checkmate`]
    /// does for a given side.
    pub fn checkmate(&mut self) -> (mate: Result<bool, ChessError>)
        ensures
            mate == if king_square(old(self)@.grid, old(self).color) is None {
                Err::<bool, ChessError>(ChessError::NoKing)
            } else {
                Ok::<bool, ChessError>(no_escape(old(self)@.grid, old(self).color))
            },
            final(self).board == old(self).board,
            final(self).color == old(self).color,
            final(self).state == if mate == Ok::<bool, ChessError>(true) {
                GameState::GameOver
            } else {
                old(self).state
            },
    {
        self.is_checkmate(self.color)
    }
}

} // verus!
