//! The movement patterns of the pieces, as predicates on the model of a
//! board.
//!
//! A destination is a square that the piece on the origin may move to under
//! its movement pattern and the occupancy of the board: leapers (knight,
//! king) jump by fixed offsets, sliders (bishop, rook, queen) run along rays
//! until blocked, pawns step forward onto empty squares and capture
//! diagonally. Whether a move would leave the mover's own king attacked plays
//! no part here.

use vstd::prelude::*;
use crate::types::{cell, on_board, opposite, Color, Grid, Piece, PieceType, Square};

verus! {

/// A piece of the given color stands on `(file, rank)`.
pub open spec fn holds_color(g: Grid, file: int, rank: int, color: Color) -> bool {
    match cell(g, file, rank) {
        Some(piece) => piece.color == color,
        None => false,
    }
}

/// `(file, rank)` lies on the board and nothing stands on it.
pub open spec fn is_empty(g: Grid, file: int, rank: int) -> bool {
    on_board(file, rank) && cell(g, file, rank) is None
}

/// The displacement after `k` steps of `d`, for a step `d` of -1, 0 or 1.
pub open spec fn shift(d: int, k: int) -> int {
    if d > 0 {
        k
    } else if d < 0 {
        -k
    } else {
        0
    }
}

/// The `k`-th square of the ray that leaves `from` in direction `(dx, dy)`
/// lies on the board and is empty.
pub open spec fn ray_empty(g: Grid, from: Square, dx: int, dy: int, k: int) -> bool {
    is_empty(g, from.file + shift(dx, k), from.rank + shift(dy, k))
}

/// `to` is the `k`-th square of the ray that leaves `from` in direction
/// `(dx, dy)`, and every square of the ray before it is empty.
pub open spec fn ray_hits(g: Grid, from: Square, to: Square, dx: int, dy: int, k: int) -> bool {
    &&& to.file == from.file + shift(dx, k)
    &&& to.rank == from.rank + shift(dy, k)
    &&& forall|j: int| 1 <= j < k ==> #[trigger] ray_empty(g, from, dx, dy, j)
}

/// A slider on `from` reaches `to` along the direction `(dx, dy)`: `to` lies
/// on that ray and nothing stands between the two squares.
pub open spec fn ray_reaches(g: Grid, from: Square, to: Square, dx: int, dy: int) -> bool {
    exists|k: int| 1 <= k < 8 && #[trigger] ray_hits(g, from, to, dx, dy, k)
}

/// `to` is reached along one of the four orthogonal rays from `from`.
pub open spec fn rook_reach(g: Grid, from: Square, to: Square) -> bool {
    ||| ray_reaches(g, from, to, 1, 0)
    ||| ray_reaches(g, from, to, -1, 0)
    ||| ray_reaches(g, from, to, 0, 1)
    ||| ray_reaches(g, from, to, 0, -1)
}

/// `to` is reached along one of the four diagonal rays from `from`.
pub open spec fn bishop_reach(g: Grid, from: Square, to: Square) -> bool {
    ||| ray_reaches(g, from, to, 1, 1)
    ||| ray_reaches(g, from, to, 1, -1)
    ||| ray_reaches(g, from, to, -1, 1)
    ||| ray_reaches(g, from, to, -1, -1)
}

/// `to` is a knight's jump away from `from`.
pub open spec fn knight_jump(from: Square, to: Square) -> bool {
    let df = to.file - from.file;
    let dr = to.rank - from.rank;
    ||| ((df == 1 || df == -1) && (dr == 2 || dr == -2))
    ||| ((df == 2 || df == -2) && (dr == 1 || dr == -1))
}

/// `to` is one of the eight squares next to `from`.
pub open spec fn king_step(from: Square, to: Square) -> bool {
    let df = to.file - from.file;
    let dr = to.rank - from.rank;
    -1 <= df <= 1 && -1 <= dr <= 1 && !(df == 0 && dr == 0)
}

/// The rank step of a pawn: Black moves toward rank 7, White toward rank 0.
pub open spec fn forward(color: Color) -> int {
    match color {
        Color::Black => 1,
        Color::White => -1,
    }
}

/// The rank on which the pawns of a color start.
pub open spec fn home_rank(color: Color) -> int {
    match color {
        Color::Black => 1,
        Color::White => 6,
    }
}

/// The rank on which the pawns of a color are promoted.
pub open spec fn far_rank(color: Color) -> int {
    match color {
        Color::Black => 7,
        Color::White => 0,
    }
}

/// A pawn of `color` on `from` may go to `to`: one step forward onto an empty
/// square; two steps forward from its home rank over an empty square onto an
/// empty square; or one step diagonally forward onto a piece of the other
/// color.
pub open spec fn pawn_reach(g: Grid, color: Color, from: Square, to: Square) -> bool {
    let ahead = from.rank + forward(color);
    ||| (to.file == from.file && to.rank == ahead && is_empty(g, to.file as int, to.rank as int))
    ||| (to.file == from.file && from.rank == home_rank(color) && to.rank == ahead + forward(color)
        && is_empty(g, from.file as int, ahead) && is_empty(g, to.file as int, to.rank as int))
    ||| ((to.file == from.file + 1 || to.file == from.file - 1) && to.rank == ahead && holds_color(
        g,
        to.file as int,
        to.rank as int,
        opposite(color),
    ))
}

/// The movement pattern of `piece` takes it from `from` to `to` on this board.
pub open spec fn pattern_reach(g: Grid, piece: Piece, from: Square, to: Square) -> bool {
    match piece.piecetype {
        PieceType::Pawn => pawn_reach(g, piece.color, from, to),
        PieceType::Knight => knight_jump(from, to),
        PieceType::King => king_step(from, to),
        PieceType::Rook => rook_reach(g, from, to),
        PieceType::Bishop => bishop_reach(g, from, to),
        PieceType::Queen => bishop_reach(g, from, to) || rook_reach(g, from, to),
    }
}

/// `to` is a legal destination of the piece on `from`: both squares lie on
/// the board and differ, a piece stands on `from`, its movement pattern takes
/// it to `to`, and no piece of its own color stands on `to`.
pub open spec fn is_destination(g: Grid, from: Square, to: Square) -> bool {
    &&& from.valid()
    &&& to.valid()
    &&& to != from
    &&& match cell(g, from.file as int, from.rank as int) {
        Some(piece) => pattern_reach(g, piece, from, to) && !holds_color(
            g,
            to.file as int,
            to.rank as int,
            piece.color,
        ),
        None => false,
    }
}

/// The `index`-th square in scan order: file by file from A to H, and within
/// a file from rank 0 to rank 7.
pub open spec fn scan_square(index: int) -> Square {
    Square { file: (index / 8) as i8, rank: (index % 8) as i8 }
}

/// The 64 squares of the board in scan order.
pub open spec fn all_squares() -> Seq<Square> {
    Seq::new(64, |index: int| scan_square(index))
}

/// The test "is a legal destination of the piece on `from`".
pub open spec fn destination_test(g: Grid, from: Square) -> spec_fn(Square) -> bool {
    |to: Square| is_destination(g, from, to)
}

/// The legal destinations of the piece on `from`, in scan order; empty when
/// no piece stands there.
pub open spec fn destinations(g: Grid, from: Square) -> Seq<Square> {
    all_squares().filter(destination_test(g, from))
}

/// The first `n + 1` squares in scan order are the first `n` and the `n`-th.
pub(crate) proof fn lemma_scan_step(g: Grid, from: Square, n: int)
    requires
        0 <= n < 64,
    ensures
        all_squares().take(n + 1).filter(destination_test(g, from)) == if is_destination(
            g,
            from,
            scan_square(n),
        ) {
            all_squares().take(n).filter(destination_test(g, from)).push(scan_square(n))
        } else {
            all_squares().take(n).filter(destination_test(g, from))
        },
{
    let prefix = all_squares().take(n);
    assert(all_squares().take(n + 1) =~= prefix.push(scan_square(n)));
    prefix.lemma_filter_push(scan_square(n), destination_test(g, from));
}

/// The position of a square in scan order.
pub open spec fn scan_index(square: Square) -> int {
    8 * square.file + square.rank
}

/// What is kept of the first `n` squares in scan order: legal destinations
/// only, in rising scan order, and every legal destination among those
/// squares.
proof fn lemma_scan_prefix(g: Grid, from: Square, n: int)
    requires
        0 <= n <= 64,
    ensures
        ({
            let kept = all_squares().take(n).filter(destination_test(g, from));
            &&& forall|i: int|
                0 <= i < kept.len() ==> is_destination(g, from, #[trigger] kept[i]) && scan_index(
                    kept[i],
                ) < n
            &&& forall|i: int, j: int|
                0 <= i < j < kept.len() ==> scan_index(#[trigger] kept[i]) < scan_index(
                    #[trigger] kept[j],
                )
            &&& forall|s: Square|
                s.valid() && scan_index(s) < n && is_destination(g, from, s) ==> #[trigger] kept.contains(s)
        }),
    decreases n,
{
    let test = destination_test(g, from);
    let kept = all_squares().take(n).filter(test);
    if n == 0 {
        reveal(Seq::filter);
    } else {
        let before = all_squares().take(n - 1).filter(test);
        lemma_scan_prefix(g, from, n - 1);
        lemma_scan_step(g, from, n - 1);
        assert forall|s: Square|
            s.valid() && scan_index(s) < n && is_destination(g, from, s) implies #[trigger] kept.contains(
            s,
        ) by {
            if scan_index(s) == n - 1 {
                assert(kept[kept.len() - 1] == s);
            } else {
                assert(before.contains(s));
                let i = choose|i: int| 0 <= i < before.len() && before[i] == s;
                assert(kept[i] == s);
            }
        }
    }
}

/// The list of legal destinations holds exactly the legal destinations, in
/// rising scan order, so no square is listed twice.
pub proof fn lemma_destinations_exact(g: Grid, from: Square)
    ensures
        forall|s: Square| #[trigger] destinations(g, from).contains(s) <==> is_destination(g, from, s),
        forall|i: int, j: int|
            0 <= i < j < destinations(g, from).len() ==> scan_index(
                #[trigger] destinations(g, from)[i],
            ) < scan_index(#[trigger] destinations(g, from)[j]),
        destinations(g, from).no_duplicates(),
        destinations(g, from).len() <= 64,
{
    let listed = destinations(g, from);
    lemma_scan_prefix(g, from, 64);
    assert(all_squares().take(64) =~= all_squares());
    all_squares().lemma_filter_len(destination_test(g, from));
    assert forall|i: int, j: int| 0 <= i < listed.len() && 0 <= j < listed.len() && i != j implies listed[i]
        != listed[j] by {
        assert(scan_index(listed[i]) != scan_index(listed[j]));
    }
}

/// A legal destination never holds a piece of the mover's own color, and is
/// never the origin itself.
pub proof fn lemma_no_self_capture(g: Grid, from: Square, to: Square)
    requires
        destinations(g, from).contains(to),
    ensures
        to.valid(),
        to != from,
        cell(g, from.file as int, from.rank as int) is Some,
        !holds_color(
            g,
            to.file as int,
            to.rank as int,
            cell(g, from.file as int, from.rank as int)->0.color,
        ),
{
    lemma_destinations_exact(g, from);
}

/// The neighbor of `from` in direction `(dx, dy)` is off the board or holds a
/// piece of `color`.
pub open spec fn hemmed_in(g: Grid, from: Square, dx: int, dy: int, color: Color) -> bool {
    !on_board(from.file + dx, from.rank + dy) || holds_color(g, from.file + dx, from.rank + dy, color)
}

/// `(dx, dy)` is one of the four orthogonal directions.
pub open spec fn orthogonal(dx: int, dy: int) -> bool {
    (dx == 0 && (dy == 1 || dy == -1)) || (dy == 0 && (dx == 1 || dx == -1))
}

/// A rook whose orthogonal neighbors all hold pieces of its own color (or
/// lie off the board) has no legal destination.
pub proof fn lemma_rook_hemmed_in(g: Grid, from: Square, color: Color)
    requires
        from.valid(),
        cell(g, from.file as int, from.rank as int) == Some(
            Piece { piecetype: PieceType::Rook, color },
        ),
        hemmed_in(g, from, 1, 0, color),
        hemmed_in(g, from, -1, 0, color),
        hemmed_in(g, from, 0, 1, color),
        hemmed_in(g, from, 0, -1, color),
    ensures
        destinations(g, from) == Seq::<Square>::empty(),
{
    let test = destination_test(g, from);
    assert forall|to: Square| !is_destination(g, from, to) by {
        if is_destination(g, from, to) {
            lemma_ray_needs_first_step(g, from, to, 1, 0);
            lemma_ray_needs_first_step(g, from, to, -1, 0);
            lemma_ray_needs_first_step(g, from, to, 0, 1);
            lemma_ray_needs_first_step(g, from, to, 0, -1);
        }
    }
    all_squares().lemma_all_neg_filter_empty(test);
}

/// A rook with a piece of the other color on one orthogonal neighbor, and
/// pieces of its own color (or the edge of the board) on the other three,
/// has exactly one legal destination: the capture of that neighbor. Nothing
/// beyond the captured piece is reached.
pub proof fn lemma_rook_single_capture(g: Grid, from: Square, color: Color, dx: int, dy: int)
    requires
        from.valid(),
        cell(g, from.file as int, from.rank as int) == Some(
            Piece { piecetype: PieceType::Rook, color },
        ),
        orthogonal(dx, dy),
        holds_color(g, from.file + dx, from.rank + dy, opposite(color)),
        forall|ex: int, ey: int|
            orthogonal(ex, ey) && !(ex == dx && ey == dy) ==> #[trigger] hemmed_in(g, from, ex, ey, color),
    ensures
        destinations(g, from) == seq![
            Square { file: (from.file + dx) as i8, rank: (from.rank + dy) as i8 },
        ],
{
    let taken = Square { file: (from.file + dx) as i8, rank: (from.rank + dy) as i8 };
    let listed = destinations(g, from);
    assert(hemmed_in(g, from, 1, 0, color) || (dx == 1 && dy == 0));
    assert(hemmed_in(g, from, -1, 0, color) || (dx == -1 && dy == 0));
    assert(hemmed_in(g, from, 0, 1, color) || (dx == 0 && dy == 1));
    assert(hemmed_in(g, from, 0, -1, color) || (dx == 0 && dy == -1));
    assert forall|to: Square| is_destination(g, from, to) <==> to == taken by {
        if is_destination(g, from, to) {
            lemma_ray_needs_first_step(g, from, to, 1, 0);
            lemma_ray_needs_first_step(g, from, to, -1, 0);
            lemma_ray_needs_first_step(g, from, to, 0, 1);
            lemma_ray_needs_first_step(g, from, to, 0, -1);
        }
        if to == taken {
            assert(ray_hits(g, from, to, dx, dy, 1));
        }
    }
    lemma_destinations_exact(g, from);
    assert(listed.contains(taken));
    if listed.len() >= 2 {
        assert(listed.contains(listed[0]));
        assert(listed.contains(listed[1]));
    }
}

/// A ray reaches its first square freely; to reach any further square, the
/// first square must be empty.
proof fn lemma_ray_needs_first_step(g: Grid, from: Square, to: Square, dx: int, dy: int)
    ensures
        ray_reaches(g, from, to, dx, dy) ==> (to.file == from.file + shift(dx, 1) && to.rank
            == from.rank + shift(dy, 1)) || ray_empty(g, from, dx, dy, 1),
{
}

} // verus!
