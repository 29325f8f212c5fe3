//! Text in and out: reading a move command from a line of text, and drawing
//! the board as text. Nothing here reads or writes; the caller does.

use vstd::prelude::*;
use crate::notation::{digit_rank, file_of, letter_file, rank_digit, rank_name, rank_of};
use crate::types::{cell, grid, Color, Game, Grid, Move, Piece, PieceType, Square};

verus! {

/// The file index that a letter names in either case, if it is one of
/// `A`..`H` or `a`..`h`.
pub open spec fn letter_file_any_case(c: char) -> Option<i8> {
    if c == 'a' {
        Some(0i8)
    } else if c == 'b' {
        Some(1i8)
    } else if c == 'c' {
        Some(2i8)
    } else if c == 'd' {
        Some(3i8)
    } else if c == 'e' {
        Some(4i8)
    } else if c == 'f' {
        Some(5i8)
    } else if c == 'g' {
        Some(6i8)
    } else if c == 'h' {
        Some(7i8)
    } else {
        letter_file(c)
    }
}

/// The square that the two characters `letter` and `digit` name, the letter
/// in either case.
pub open spec fn parse_square_any_case(letter: char, digit: char) -> Option<Square> {
    match (letter_file_any_case(letter), digit_rank(digit)) {
        (Some(file), Some(rank)) => Some(Square { file, rank }),
        _ => None,
    }
}

/// The move that a line of text asks for: the line must hold at least five
/// characters; the first two name the origin and the fourth and fifth name
/// the destination, with the file letters in either case. The third
/// character and whatever follows the fifth are not read.
pub open spec fn parse_command(line: Seq<char>) -> Option<Move> {
    if line.len() < 5 {
        None
    } else {
        match (parse_square_any_case(line[0], line[1]), parse_square_any_case(line[3], line[4])) {
            (Some(from), Some(to)) => Some(Move { from, to }),
            _ => None,
        }
    }
}

/// The three characters that draw a cell: a dot for an empty cell; for a
/// piece its chess symbol, outlined for Black and filled for White. The
/// filled pawn is followed by the text-style selector, so that cell takes
/// four characters.
pub open spec fn cell_text(content: Option<Piece>) -> Seq<char> {
    match content {
        None => seq![' ', '.', ' '],
        Some(piece) => match piece.color {
            Color::Black => match piece.piecetype {
                PieceType::King => seq![' ', '\u{2654}', ' '],
                PieceType::Queen => seq![' ', '\u{2655}', ' '],
                PieceType::Rook => seq![' ', '\u{2656}', ' '],
                PieceType::Bishop => seq![' ', '\u{2657}', ' '],
                PieceType::Knight => seq![' ', '\u{2658}', ' '],
                PieceType::Pawn => seq![' ', '\u{2659}', ' '],
            },
            Color::White => match piece.piecetype {
                PieceType::King => seq![' ', '\u{265A}', ' '],
                PieceType::Queen => seq![' ', '\u{265B}', ' '],
                PieceType::Rook => seq![' ', '\u{265C}', ' '],
                PieceType::Bishop => seq![' ', '\u{265D}', ' '],
                PieceType::Knight => seq![' ', '\u{265E}', ' '],
                PieceType::Pawn => seq![' ', '\u{265F}', '\u{FE0E}', ' '],
            },
        },
    }
}

/// The border line above and below the ranks, with the file letters.
pub open spec fn border_text() -> Seq<char> {
    "#-A--B--C--D--E--F--G--H-#\n"@
}

/// The text of the first `n` cells of a rank.
pub open spec fn cells_text(g: Grid, rank: int, n: int) -> Seq<char>
    decreases n,
{
    if n <= 0 {
        Seq::empty()
    } else {
        cells_text(g, rank, n - 1) + cell_text(cell(g, n - 1, rank))
    }
}

/// The line of a rank: its digit, its eight cells from file A to file H, its
/// digit again, and a line end.
pub open spec fn rank_text(g: Grid, rank: int) -> Seq<char> {
    seq![rank_digit(rank)] + cells_text(g, rank, 8) + seq![rank_digit(rank), '\n']
}

/// The lines of the first `n` ranks, from rank 0 (digit 8) downwards.
pub open spec fn ranks_text(g: Grid, n: int) -> Seq<char>
    decreases n,
{
    if n <= 0 {
        Seq::empty()
    } else {
        ranks_text(g, n - 1) + rank_text(g, n - 1)
    }
}

/// The drawing of a board: the border, the eight ranks from 8 down to 1, and
/// the border again.
pub open spec fn rendering(g: Grid) -> Seq<char> {
    border_text() + ranks_text(g, 8) + border_text()
}

/// The file index of a letter in either case.
fn file_of_any_case(c: char) -> (file: Option<i8>)
    ensures
        file == letter_file_any_case(c),
{
    if c == 'a' {
        Some(0)
    } else if c == 'b' {
        Some(1)
    } else if c == 'c' {
        Some(2)
    } else if c == 'd' {
        Some(3)
    } else if c == 'e' {
        Some(4)
    } else if c == 'f' {
        Some(5)
    } else if c == 'g' {
        Some(6)
    } else if c == 'h' {
        Some(7)
    } else {
        file_of(c)
    }
}

/// The text that draws a cell.
fn cell_symbol(content: Option<Piece>) -> (symbol: &'static str)
    ensures
        symbol@ == cell_text(content),
{
    proof {
        reveal_strlit(" . ");
        reveal_strlit(" \u{2654} ");
        reveal_strlit(" \u{2655} ");
        reveal_strlit(" \u{2656} ");
        reveal_strlit(" \u{2657} ");
        reveal_strlit(" \u{2658} ");
        reveal_strlit(" \u{2659} ");
        reveal_strlit(" \u{265A} ");
        reveal_strlit(" \u{265B} ");
        reveal_strlit(" \u{265C} ");
        reveal_strlit(" \u{265D} ");
        reveal_strlit(" \u{265E} ");
        reveal_strlit(" \u{265F}\u{FE0E} ");
    }
    match content {
        None => " . ",
        Some(piece) => match piece.color {
            Color::Black => match piece.piecetype {
                PieceType::King => " \u{2654} ",
                PieceType::Queen => " \u{2655} ",
                PieceType::Rook => " \u{2656} ",
                PieceType::Bishop => " \u{2657} ",
                PieceType::Knight => " \u{2658} ",
                PieceType::Pawn => " \u{2659} ",
            },
            Color::White => match piece.piecetype {
                PieceType::King => " \u{265A} ",
                PieceType::Queen => " \u{265B} ",
                PieceType::Rook => " \u{265C} ",
                PieceType::Bishop => " \u{265D} ",
                PieceType::Knight => " \u{265E} ",
                PieceType::Pawn => " \u{265F}\u{FE0E} ",
            },
        },
    }
}

impl Game {
    /// Reads a move command from a line of text, see [`parse_command`]:
    /// `None` exactly when the line asks for no move.
    pub fn read_command(line: &str) -> (command: Option<Move>)
        ensures
            command == parse_command(line@),
            command matches Some(m) ==> m.from.valid() && m.to.valid(),
    {
        if line.unicode_len() < 5 {
            return None;
        }
        let from_file = file_of_any_case(line.get_char(0));
        let from_rank = rank_of(line.get_char(1));
        let to_file = file_of_any_case(line.get_char(3));
        let to_rank = rank_of(line.get_char(4));
        match (from_file, from_rank, to_file, to_rank) {
            (Some(ff), Some(fr), Some(tf), Some(tr)) => Some(
                Move { from: Square { file: ff, rank: fr }, to: Square { file: tf, rank: tr } },
            ),
            _ => None,
        }
    }

    /// Draws the board as text: ten lines, each with a line end; the border
    /// with the file letters, the ranks from 8 down to 1 with their digit on
    /// both margins, and the border again.
    pub fn render(&self) -> (text: String)
        ensures
            text@ == rendering(self@.grid),
    {
        let ghost g = grid(self.board);
        let mut text = String::new();
        text.append("#-A--B--C--D--E--F--G--H-#\n");
        let mut rank: usize = 0;
        while rank < 8
            invariant
                rank <= 8,
                g == grid(self.board),
                text@ == border_text() + ranks_text(g, rank as int),
            decreases 8 - rank,
        {
            let ghost above = text@;
            text.append(rank_name(rank as i8));
            let mut file: usize = 0;
            while file < 8
                invariant
                    rank < 8,
                    file <= 8,
                    g == grid(self.board),
                    text@ == above + seq![rank_digit(rank as int)] + cells_text(
                        g,
                        rank as int,
                        file as int,
                    ),
                decreases 8 - file,
            {
                text.append(cell_symbol(self.board[rank][file]));
                assert(text@ =~= above + seq![rank_digit(rank as int)] + cells_text(
                    g,
                    rank as int,
                    file + 1,
                ));
                file += 1;
            }
            text.append(rank_name(rank as i8));
            text.append("\n");
            proof {
                reveal_strlit("\n");
            }
            rank += 1;
        }
        text.append("#-A--B--C--D--E--F--G--H-#\n");
        text
    }
}

} // verus!
