//! Move generation: the executable generators of each movement pattern and
//! the scan that turns their candidates into the list of legal destinations.

use vstd::prelude::*;
use crate::pattern::{
    all_squares, bishop_reach, destination_test, destinations, holds_color, king_step,
    knight_jump, lemma_destinations_exact, lemma_scan_step, pawn_reach, ray_empty, ray_hits,
    ray_reaches, rook_reach, shift,
};
use crate::types::{cell, grid, Board, Color, Grid, PieceType, Square};

verus! {

/// A slider of `color` on `from` may go to `to` along the direction
/// `(dx, dy)`: `to` lies on the board, the ray reaches it, and no piece of
/// the slider's own color stands on it.
spec fn ray_target(g: Grid, from: Square, to: Square, dx: int, dy: int, color: Color) -> bool {
    to.valid() && ray_reaches(g, from, to, dx, dy) && !holds_color(
        g,
        to.file as int,
        to.rank as int,
        color,
    )
}

/// As [`ray_target`], for the squares that lie fewer than `limit` steps away.
spec fn ray_target_within(
    g: Grid,
    from: Square,
    to: Square,
    dx: int,
    dy: int,
    color: Color,
    limit: int,
) -> bool {
    to.valid() && !holds_color(g, to.file as int, to.rank as int, color) && exists|k: int|
        1 <= k < limit && #[trigger] ray_hits(g, from, to, dx, dy, k)
}

/// A list with one more item holds what the list held, and the item.
proof fn lemma_push_contains(list: Seq<Square>, added: Square, s: Square)
    ensures
        list.push(added).contains(s) <==> list.contains(s) || s == added,
{
    let longer = list.push(added);
    if list.contains(s) {
        let i = choose|i: int| 0 <= i < list.len() && list[i] == s;
        assert(longer[i] == s);
    }
    if s == added {
        assert(longer[list.len() as int] == s);
    }
}

/// Whether a piece of `color` stands on a square of the board.
pub(crate) fn holds(board: &Board, square: Square, color: Color) -> (found: bool)
    requires
        square.valid(),
    ensures
        found == holds_color(grid(*board), square.file as int, square.rank as int, color),
{
    match board[square.rank as usize][square.file as usize] {
        Some(piece) => piece.color == color,
        None => false,
    }
}

/// Whether a list of squares holds a square.
pub(crate) fn contains_square(list: &Vec<Square>, square: Square) -> (found: bool)
    ensures
        found == list@.contains(square),
{
    let mut i: usize = 0;
    while i < list.len()
        invariant
            i <= list@.len(),
            forall|j: int| 0 <= j < i ==> list@[j] != square,
        decreases list@.len() - i,
    {
        if list[i] == square {
            return true;
        }
        i += 1;
    }
    false
}

/// Walks outward from `origin` along the direction `(dx, dy)`, one square
/// at a time, and adds what a slider of `color` may go to: each empty square
/// until the walk is stopped, and the square that stops the walk if a piece
/// of the other color stands on it. The edge of the board and any piece stop
/// the walk.
fn walk_ray(
    board: &Board,
    origin: Square,
    color: Color,
    dx: i8,
    dy: i8,
    targets: &mut Vec<Square>,
)
    requires
        origin.valid(),
        -1 <= dx <= 1,
        -1 <= dy <= 1,
    ensures
        forall|s: Square|
            #[trigger] final(targets)@.contains(s) <==> old(targets)@.contains(s)
                || ray_target(grid(*board), origin, s, dx as int, dy as int, color),
{
    let ghost g = grid(*board);
    let ghost before = targets@;
    let mut k: i8 = 1;
    let mut file: i8 = origin.file + dx;
    let mut rank: i8 = origin.rank + dy;
    let mut blocked = false;
    while !blocked && k < 8
        invariant
            origin.valid(),
            -1 <= dx <= 1,
            -1 <= dy <= 1,
            g == grid(*board),
            1 <= k <= 8,
            file == origin.file + shift(dx as int, k as int),
            rank == origin.rank + shift(dy as int, k as int),
            forall|j: int|
                1 <= j < (if blocked { k - 1 } else { k as int }) ==> #[trigger] ray_empty(
                    g,
                    origin,
                    dx as int,
                    dy as int,
                    j,
                ),
            blocked ==> k >= 2 && !ray_empty(g, origin, dx as int, dy as int, k - 1),
            forall|s: Square|
                #[trigger] targets@.contains(s) <==> before.contains(s) || ray_target_within(
                    g,
                    origin,
                    s,
                    dx as int,
                    dy as int,
                    color,
                    k as int,
                ),
        decreases 8 - k,
    {
        let ghost listed = targets@;
        let square = Square { file, rank };
        let mut keep = false;
        blocked = true;
        if 0 <= file && file < 8 && 0 <= rank && rank < 8 {
            match board[rank as usize][file as usize] {
                None => {
                    keep = true;
                    blocked = false;
                },
                Some(piece) => {
                    keep = piece.color != color;
                },
            }
        }
        if keep {
            targets.push(square);
        }
        proof {
            assert forall|s: Square|
                #[trigger] targets@.contains(s) <==> before.contains(s) || ray_target_within(
                    g,
                    origin,
                    s,
                    dx as int,
                    dy as int,
                    color,
                    k + 1,
                ) by {
                if keep {
                    lemma_push_contains(listed, square, s);
                    assert(ray_hits(g, origin, square, dx as int, dy as int, k as int));
                }
            }
        }
        k += 1;
        file += dx;
        rank += dy;
    }
}

/// Adds one square to a list of squares.
fn add_square(list: &mut Vec<Square>, square: Square)
    ensures
        forall|s: Square| #[trigger] final(list)@.contains(s) <==> old(list)@.contains(s) || s == square,
{
    proof {
        assert forall|s: Square| #[trigger]
            old(list)@.push(square).contains(s) <==> old(list)@.contains(s) || s == square by {
            lemma_push_contains(old(list)@, square, s);
        }
    }
    list.push(square);
}

/// Adds what a rook of `color` on `origin` may go to: the targets of the
/// four orthogonal rays. Each ray is walked on its own, so a piece that
/// blocks one direction has no effect on another.
fn add_rook_targets(board: &Board, origin: Square, color: Color, targets: &mut Vec<Square>)
    requires
        origin.valid(),
    ensures
        forall|s: Square|
            #[trigger] final(targets)@.contains(s) <==> old(targets)@.contains(s) || (
            s.valid() && rook_reach(grid(*board), origin, s) && !holds_color(
                grid(*board),
                s.file as int,
                s.rank as int,
                color,
            )),
{
    walk_ray(board, origin, color, 1, 0, targets);
    walk_ray(board, origin, color, -1, 0, targets);
    walk_ray(board, origin, color, 0, 1, targets);
    walk_ray(board, origin, color, 0, -1, targets);
}

/// Adds what a bishop of `color` on `origin` may go to: the targets of the
/// four diagonal rays, each walked on its own.
fn add_bishop_targets(board: &Board, origin: Square, color: Color, targets: &mut Vec<Square>)
    requires
        origin.valid(),
    ensures
        forall|s: Square|
            #[trigger] final(targets)@.contains(s) <==> old(targets)@.contains(s) || (
            s.valid() && bishop_reach(grid(*board), origin, s) && !holds_color(
                grid(*board),
                s.file as int,
                s.rank as int,
                color,
            )),
{
    walk_ray(board, origin, color, 1, 1, targets);
    walk_ray(board, origin, color, 1, -1, targets);
    walk_ray(board, origin, color, -1, 1, targets);
    walk_ray(board, origin, color, -1, -1, targets);
}

/// `to` is `from` displaced by the `i`-th offset of a table.
spec fn offset_hits(offsets: Seq<(i8, i8)>, from: Square, to: Square, i: int) -> bool {
    to.file == from.file + offsets[i].0 && to.rank == from.rank + offsets[i].1
}

/// `to` lies on the board and is `from` displaced by an offset of the table.
spec fn offset_target(offsets: Seq<(i8, i8)>, from: Square, to: Square) -> bool {
    to.valid() && exists|i: int| 0 <= i < offsets.len() && #[trigger] offset_hits(offsets, from, to, i)
}

/// Adds each offset of a table to `origin` and keeps the squares that land
/// on the board.
fn add_leaps(offsets: &[(i8, i8); 8], origin: Square, targets: &mut Vec<Square>)
    requires
        origin.valid(),
        forall|i: int|
            0 <= i < 8 ==> -2 <= (#[trigger] offsets@[i]).0 <= 2 && -2 <= offsets@[i].1
                <= 2,
    ensures
        forall|s: Square|
            #[trigger] final(targets)@.contains(s) <==> old(targets)@.contains(s)
                || offset_target(offsets@, origin, s),
{
    let ghost before = targets@;
    let ghost table = offsets@;
    let mut i: usize = 0;
    while i < 8
        invariant
            i <= 8,
            origin.valid(),
            table == offsets@,
            table.len() == 8,
            forall|j: int| 0 <= j < 8 ==> -2 <= (#[trigger] table[j]).0 <= 2 && -2 <= table[j].1 <= 2,
            forall|s: Square|
                #[trigger] targets@.contains(s) <==> before.contains(s) || (s.valid()
                    && exists|j: int| 0 <= j < i && #[trigger] offset_hits(table, origin, s, j)),
        decreases 8 - i,
    {
        let offset = offsets[i];
        let square = Square { file: origin.file + offset.0, rank: origin.rank + offset.1 };
        if 0 <= square.file && square.file < 8 && 0 <= square.rank && square.rank < 8 {
            add_square(targets, square);
        }
        assert(offset_hits(table, origin, square, i as int));
        i += 1;
    }
}

/// The eight jumps of a knight, as `(file, rank)` offsets.
spec fn knight_offsets() -> Seq<(i8, i8)> {
    seq![
        (1i8, 2i8),
        (-1i8, 2i8),
        (-1i8, -2i8),
        (1i8, -2i8),
        (2i8, -1i8),
        (-2i8, 1i8),
        (2i8, 1i8),
        (-2i8, -1i8),
    ]
}

/// The eight steps of a king, as `(file, rank)` offsets.
spec fn king_offsets() -> Seq<(i8, i8)> {
    seq![
        (1i8, 1i8),
        (-1i8, -1i8),
        (-1i8, 0i8),
        (1i8, 0i8),
        (0i8, -1i8),
        (0i8, 1i8),
        (1i8, -1i8),
        (-1i8, 1i8),
    ]
}

/// The knight's table holds exactly the knight's jumps.
proof fn lemma_knight_offsets(from: Square, to: Square)
    requires
        from.valid(),
        to.valid(),
    ensures
        offset_target(knight_offsets(), from, to) <==> knight_jump(from, to),
{
    let t = knight_offsets();
    let df = to.file - from.file;
    let dr = to.rank - from.rank;
    if knight_jump(from, to) {
        if df == 1 && dr == 2 {
            assert(offset_hits(t, from, to, 0));
        } else if df == -1 && dr == 2 {
            assert(offset_hits(t, from, to, 1));
        } else if df == -1 && dr == -2 {
            assert(offset_hits(t, from, to, 2));
        } else if df == 1 && dr == -2 {
            assert(offset_hits(t, from, to, 3));
        } else if df == 2 && dr == -1 {
            assert(offset_hits(t, from, to, 4));
        } else if df == -2 && dr == 1 {
            assert(offset_hits(t, from, to, 5));
        } else if df == 2 && dr == 1 {
            assert(offset_hits(t, from, to, 6));
        } else {
            assert(offset_hits(t, from, to, 7));
        }
    }
}

/// The king's table holds exactly the king's steps.
proof fn lemma_king_offsets(from: Square, to: Square)
    requires
        from.valid(),
        to.valid(),
    ensures
        offset_target(king_offsets(), from, to) <==> king_step(from, to),
{
    let t = king_offsets();
    let df = to.file - from.file;
    let dr = to.rank - from.rank;
    if king_step(from, to) {
        if df == 1 && dr == 1 {
            assert(offset_hits(t, from, to, 0));
        } else if df == -1 && dr == -1 {
            assert(offset_hits(t, from, to, 1));
        } else if df == -1 && dr == 0 {
            assert(offset_hits(t, from, to, 2));
        } else if df == 1 && dr == 0 {
            assert(offset_hits(t, from, to, 3));
        } else if df == 0 && dr == -1 {
            assert(offset_hits(t, from, to, 4));
        } else if df == 0 && dr == 1 {
            assert(offset_hits(t, from, to, 5));
        } else if df == 1 && dr == -1 {
            assert(offset_hits(t, from, to, 6));
        } else {
            assert(offset_hits(t, from, to, 7));
        }
    }
}

/// Adds what a pawn of `color` on `origin` may go to.
fn add_pawn_targets(board: &Board, origin: Square, color: Color, targets: &mut Vec<Square>)
    requires
        origin.valid(),
    ensures
        forall|s: Square|
            #[trigger] final(targets)@.contains(s) <==> old(targets)@.contains(s) || (
            s.valid() && pawn_reach(grid(*board), color, origin, s)),
{
    let step: i8 = match color {
        Color::Black => 1,
        Color::White => -1,
    };
    let home: i8 = match color {
        Color::Black => 1,
        Color::White => 6,
    };
    let enemy = match color {
        Color::Black => Color::White,
        Color::White => Color::Black,
    };
    let ahead: i8 = origin.rank + step;
    if 0 <= ahead && ahead < 8 {
        if board[ahead as usize][origin.file as usize].is_none() {
            add_square(targets, Square { file: origin.file, rank: ahead });
            if origin.rank == home {
                let two_ahead: i8 = ahead + step;
                if board[two_ahead as usize][origin.file as usize].is_none() {
                    add_square(targets, Square { file: origin.file, rank: two_ahead });
                }
            }
        }
        if origin.file + 1 < 8 {
            let target = Square { file: origin.file + 1, rank: ahead };
            if holds(board, target, enemy) {
                add_square(targets, target);
            }
        }
        if origin.file - 1 >= 0 {
            let target = Square { file: origin.file - 1, rank: ahead };
            if holds(board, target, enemy) {
                add_square(targets, target);
            }
        }
    }
}

/// The legal destinations of the piece on `origin`, in scan order (file by
/// file from A to H, and within a file from rank 0 to rank 7), each listed
/// once. The list is empty when no piece stands on `origin`.
///
/// The candidates of the piece's movement pattern are generated first; the
/// board is scanned afterwards, and a candidate is kept unless it is the
/// origin itself or holds a piece of the mover's color.
pub fn legal_destinations(board: &Board, origin: Square) -> (moves: Vec<Square>)
    requires
        origin.valid(),
    ensures
        moves@ == destinations(grid(*board), origin),
        forall|i: int|
            0 <= i < moves@.len() ==> (#[trigger] moves@[i]).valid() && moves@[i] != origin
                && !holds_color(
                grid(*board),
                moves@[i].file as int,
                moves@[i].rank as int,
                cell(grid(*board), origin.file as int, origin.rank as int)->0.color,
            ),
{
    let ghost g = grid(*board);
    let ghost test = destination_test(g, origin);
    proof {
        lemma_destinations_exact(g, origin);
    }
    let mover = board[origin.rank as usize][origin.file as usize];
    let mut candidates: Vec<Square> = Vec::new();
    let mut kept: Vec<Square> = Vec::new();
    let own_color = match mover {
        None => {
            proof {
                all_squares().lemma_all_neg_filter_empty(test);
            }
            return kept;
        },
        Some(piece) => {
            match piece.piecetype {
                PieceType::Pawn => {
                    add_pawn_targets(board, origin, piece.color, &mut candidates);
                },
                PieceType::Rook => {
                    add_rook_targets(board, origin, piece.color, &mut candidates);
                },
                PieceType::Knight => {
                    let jumps: [(i8, i8); 8] = [
                        (1, 2),
                        (-1, 2),
                        (-1, -2),
                        (1, -2),
                        (2, -1),
                        (-2, 1),
                        (2, 1),
                        (-2, -1),
                    ];
                    add_leaps(&jumps, origin, &mut candidates);
                    proof {
                        assert forall|s: Square| s.valid() implies (#[trigger] candidates@.contains(s)
                            <==> knight_jump(origin, s)) by {
                            lemma_knight_offsets(origin, s);
                        }
                    }
                },
                PieceType::King => {
                    let steps: [(i8, i8); 8] = [
                        (1, 1),
                        (-1, -1),
                        (-1, 0),
                        (1, 0),
                        (0, -1),
                        (0, 1),
                        (1, -1),
                        (-1, 1),
                    ];
                    add_leaps(&steps, origin, &mut candidates);
                    proof {
                        assert forall|s: Square| s.valid() implies (#[trigger] candidates@.contains(s)
                            <==> king_step(origin, s)) by {
                            lemma_king_offsets(origin, s);
                        }
                    }
                },
                PieceType::Bishop => {
                    add_bishop_targets(board, origin, piece.color, &mut candidates);
                },
                PieceType::Queen => {
                    add_bishop_targets(board, origin, piece.color, &mut candidates);
                    add_rook_targets(board, origin, piece.color, &mut candidates);
                },
            }
            piece.color
        },
    };
    assert forall|s: Square| s.valid() implies (test(s) <==> #[trigger] candidates@.contains(s) && s
        != origin && !holds_color(g, s.file as int, s.rank as int, own_color)) by {}
    let mut i: i8 = 0;
    while i < 8
        invariant
            0 <= i <= 8,
            g == grid(*board),
            test == destination_test(g, origin),
            forall|s: Square|
                s.valid() ==> (test(s) <==> #[trigger] candidates@.contains(s) && s != origin
                    && !holds_color(g, s.file as int, s.rank as int, own_color)),
            kept@ == all_squares().take(8 * i).filter(test),
        decreases 8 - i,
    {
        let mut j: i8 = 0;
        while j < 8
            invariant
                0 <= i < 8,
                0 <= j <= 8,
                g == grid(*board),
                test == destination_test(g, origin),
                forall|s: Square|
                    s.valid() ==> (test(s) <==> #[trigger] candidates@.contains(s) && s != origin
                        && !holds_color(g, s.file as int, s.rank as int, own_color)),
                kept@ == all_squares().take(8 * i + j).filter(test),
            decreases 8 - j,
        {
            let square = Square { file: i, rank: j };
            proof {
                lemma_scan_step(g, origin, 8 * i + j);
            }
            if contains_square(&candidates, square) && !(square == origin) && !holds(
                board,
                square,
                own_color,
            ) {
                kept.push(square);
            }
            j += 1;
        }
        i += 1;
    }
    assert(all_squares().take(64) =~= all_squares());
    kept
}

} // verus!
