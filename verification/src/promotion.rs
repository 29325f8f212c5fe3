//! The promotion rule: a pawn that stands on the far rank of its color is
//! replaced, where it stands, by a piece of a chosen kind and the same color.
//!
//! The rule is keyed by rank, not by the move that brought the pawn there, so
//! it may be applied at any time; applying it again changes nothing.

use vstd::prelude::*;
use crate::pattern::far_rank;
use crate::types::{cell, grid, well_formed, Color, Game, Grid, Piece, PieceType};

verus! {

/// A pawn stands on `(file, rank)`, and `rank` is the far rank of its color.
pub open spec fn awaits_promotion(g: Grid, file: int, rank: int) -> bool {
    match cell(g, file, rank) {
        Some(piece) => piece.piecetype == PieceType::Pawn && rank == far_rank(piece.color),
        None => false,
    }
}

/// No pawn of the board awaits promotion.
pub open spec fn settled(g: Grid) -> bool {
    forall|file: int, rank: int| !#[trigger] awaits_promotion(g, file, rank)
}

/// What stands on `(file, rank)` once the rule has been applied.
pub open spec fn promoted_cell(g: Grid, file: int, rank: int, kind: PieceType) -> Option<Piece> {
    if awaits_promotion(g, file, rank) {
        Some(Piece { piecetype: kind, color: cell(g, file, rank)->0.color })
    } else {
        cell(g, file, rank)
    }
}

/// The board once the rule has been applied with the target kind `kind`.
pub open spec fn promoted(g: Grid, kind: PieceType) -> Grid {
    Seq::new(8, |rank: int| Seq::new(8, |file: int| promoted_cell(g, file, rank, kind)))
}

/// Applying the rule again, with the same kind, changes nothing.
pub proof fn lemma_promotion_idempotent(g: Grid, kind: PieceType)
    ensures
        promoted(promoted(g, kind), kind) == promoted(g, kind),
{
    let once = promoted(g, kind);
    let twice = promoted(once, kind);
    assert(twice =~~= once);
}

/// Once the rule has been applied with a kind other than `Pawn`, no pawn
/// awaits promotion, and applying the rule with any kind changes nothing.
pub proof fn lemma_promotion_settles(g: Grid, kind: PieceType, again: PieceType)
    requires
        kind != PieceType::Pawn,
    ensures
        settled(promoted(g, kind)),
        promoted(promoted(g, kind), again) == promoted(g, kind),
{
    let once = promoted(g, kind);
    let twice = promoted(once, again);
    assert(twice =~~= once);
}

/// On a board where no pawn awaits promotion the rule changes nothing.
pub proof fn lemma_promotion_of_settled(g: Grid, kind: PieceType)
    requires
        well_formed(g),
        settled(g),
    ensures
        promoted(g, kind) == g,
{
    let after = promoted(g, kind);
    assert(after =~~= g);
}

impl Game {
    /// Applies the promotion rule: every White pawn on rank 0 and every Black
    /// pawn on rank 7 becomes a piece of `kind` of the same color, on the
    /// same square. Nothing else changes.
    pub fn set_promotion(&mut self, kind: PieceType)
        ensures
            final(self)@.grid == promoted(old(self)@.grid, kind),
            final(self).state == old(self).state,
            final(self).color == old(self).color,
            kind != PieceType::Pawn ==> settled(final(self)@.grid),
    {
        let ghost before = grid(self.board);
        proof {
            if kind != PieceType::Pawn {
                lemma_promotion_settles(before, kind, kind);
            }
        }
        let mut n: usize = 0;
        while n < 16
            invariant
                n <= 16,
                self.state == old(self).state,
                self.color == old(self).color,
                before == grid(old(self).board),
                forall|file: int, rank: int|
                    0 <= file < 8 && 0 <= rank < 8 ==> #[trigger] self.board[rank][file] == (if (rank
                        == 0 && file < n) || (rank == 7 && file + 8 < n) {
                        promoted_cell(before, file, rank, kind)
                    } else {
                        cell(before, file, rank)
                    }),
            decreases 16 - n,
        {
            let mut i: usize = n;
            let mut promoted_color = Color::White;
            let mut rank: usize = 0;
            if n > 7 {
                i = n - 8;
                promoted_color = Color::Black;
                rank = 7;
            }
            match self.board[rank][i] {
                Some(piece) => {
                    if piece.piecetype == PieceType::Pawn && piece.color == promoted_color {
                        self.board[rank][i] = Some(
                            Piece { piecetype: kind, color: piece.color },
                        );
                    }
                },
                None => {},
            }
            n += 1;
        }
        assert(grid(self.board) =~~= promoted(before, kind));
    }
}

} // verus!
