//! Square labels: a file letter `A`..`H` followed by a rank digit `1`..`8`.
//!
//! The rank digit counts from White's side, so the digit `d` names the rank
//! index `8 - d`: `"A8"` is `(0, 0)` and `"H1"` is `(7, 7)`.

use vstd::prelude::*;
use crate::types::{ChessError, Game, Square};

verus! {

/// The letter of a file index.
pub open spec fn file_letter(file: int) -> char {
    if file == 0 {
        'A'
    } else if file == 1 {
        'B'
    } else if file == 2 {
        'C'
    } else if file == 3 {
        'D'
    } else if file == 4 {
        'E'
    } else if file == 5 {
        'F'
    } else if file == 6 {
        'G'
    } else {
        'H'
    }
}

/// The digit of a rank index: rank 0 is written `8`, rank 7 is written `1`.
pub open spec fn rank_digit(rank: int) -> char {
    if rank == 0 {
        '8'
    } else if rank == 1 {
        '7'
    } else if rank == 2 {
        '6'
    } else if rank == 3 {
        '5'
    } else if rank == 4 {
        '4'
    } else if rank == 5 {
        '3'
    } else if rank == 6 {
        '2'
    } else {
        '1'
    }
}

/// The file index that a letter names, if it is one of `A`..`H`.
pub open spec fn letter_file(c: char) -> Option<i8> {
    if c == 'A' {
        Some(0i8)
    } else if c == 'B' {
        Some(1i8)
    } else if c == 'C' {
        Some(2i8)
    } else if c == 'D' {
        Some(3i8)
    } else if c == 'E' {
        Some(4i8)
    } else if c == 'F' {
        Some(5i8)
    } else if c == 'G' {
        Some(6i8)
    } else if c == 'H' {
        Some(7i8)
    } else {
        None
    }
}

/// The rank index that a digit names, if it is one of `1`..`8`.
pub open spec fn digit_rank(c: char) -> Option<i8> {
    if c == '8' {
        Some(0i8)
    } else if c == '7' {
        Some(1i8)
    } else if c == '6' {
        Some(2i8)
    } else if c == '5' {
        Some(3i8)
    } else if c == '4' {
        Some(4i8)
    } else if c == '3' {
        Some(5i8)
    } else if c == '2' {
        Some(6i8)
    } else if c == '1' {
        Some(7i8)
    } else {
        None
    }
}

/// The label of a square: its file letter, then its rank digit.
pub open spec fn label_of(square: Square) -> Seq<char> {
    seq![file_letter(square.file as int), rank_digit(square.rank as int)]
}

/// The square that a text names. Only the first two characters are read; the
/// text names no square if it is shorter, if the first character is not a
/// file letter, or if the second is not a rank digit.
pub open spec fn parse_label(text: Seq<char>) -> Option<Square> {
    if text.len() < 2 {
        None
    } else {
        match (letter_file(text[0]), digit_rank(text[1])) {
            (Some(file), Some(rank)) => Some(Square { file, rank }),
            _ => None,
        }
    }
}

/// Reading a square's label gives the square back.
pub proof fn lemma_decode_encode(square: Square)
    requires
        square.valid(),
    ensures
        parse_label(label_of(square)) == Some(square),
{
}

/// Writing the square that a two-character label names gives the label back.
pub proof fn lemma_encode_decode(text: Seq<char>)
    requires
        text.len() == 2,
        parse_label(text) is Some,
    ensures
        label_of(parse_label(text)->0) == text,
{
}

/// The one-letter text of a file index.
fn file_name(file: i8) -> (name: &'static str)
    requires
        0 <= file < 8,
    ensures
        name@ == seq![file_letter(file as int)],
{
    proof {
        reveal_strlit("A");
        reveal_strlit("B");
        reveal_strlit("C");
        reveal_strlit("D");
        reveal_strlit("E");
        reveal_strlit("F");
        reveal_strlit("G");
        reveal_strlit("H");
    }
    if file == 0 {
        "A"
    } else if file == 1 {
        "B"
    } else if file == 2 {
        "C"
    } else if file == 3 {
        "D"
    } else if file == 4 {
        "E"
    } else if file == 5 {
        "F"
    } else if file == 6 {
        "G"
    } else {
        "H"
    }
}

/// The one-digit text of a rank index.
pub(crate) fn rank_name(rank: i8) -> (name: &'static str)
    requires
        0 <= rank < 8,
    ensures
        name@ == seq![rank_digit(rank as int)],
{
    proof {
        reveal_strlit("1");
        reveal_strlit("2");
        reveal_strlit("3");
        reveal_strlit("4");
        reveal_strlit("5");
        reveal_strlit("6");
        reveal_strlit("7");
        reveal_strlit("8");
    }
    if rank == 0 {
        "8"
    } else if rank == 1 {
        "7"
    } else if rank == 2 {
        "6"
    } else if rank == 3 {
        "5"
    } else if rank == 4 {
        "4"
    } else if rank == 5 {
        "3"
    } else if rank == 6 {
        "2"
    } else {
        "1"
    }
}

/// The file index of a letter `A`..`H`.
pub(crate) fn file_of(c: char) -> (file: Option<i8>)
    ensures
        file == letter_file(c),
{
    if c == 'A' {
        Some(0)
    } else if c == 'B' {
        Some(1)
    } else if c == 'C' {
        Some(2)
    } else if c == 'D' {
        Some(3)
    } else if c == 'E' {
        Some(4)
    } else if c == 'F' {
        Some(5)
    } else if c == 'G' {
        Some(6)
    } else if c == 'H' {
        Some(7)
    } else {
        None
    }
}

/// The rank index of a digit `1`..`8`.
pub(crate) fn rank_of(c: char) -> (rank: Option<i8>)
    ensures
        rank == digit_rank(c),
{
    if c == '8' {
        Some(0)
    } else if c == '7' {
        Some(1)
    } else if c == '6' {
        Some(2)
    } else if c == '5' {
        Some(3)
    } else if c == '4' {
        Some(4)
    } else if c == '3' {
        Some(5)
    } else if c == '2' {
        Some(6)
    } else if c == '1' {
        Some(7)
    } else {
        None
    }
}

/// Writes the label of a square of the board.
pub fn square_label(square: Square) -> (label: String)
    requires
        square.valid(),
    ensures
        label@ == label_of(square),
{
    String::from_str(file_name(square.file)).concat(rank_name(square.rank))
}

impl Game {
    /// Reads the square that a label names.
    ///
    /// Fails with [`ChessError::InvalidLabel`] exactly when the text names no
    /// square, see [`parse_label`].
    pub fn convert_letter_coordinates(position: &str) -> (square: Result<Square, ChessError>)
        ensures
            square == match parse_label(position@) {
                Some(s) => Ok::<Square, ChessError>(s),
                None => Err::<Square, ChessError>(ChessError::InvalidLabel),
            },
            square is Ok ==> (square->Ok_0).valid(),
    {
        if position.unicode_len() < 2 {
            return Err(ChessError::InvalidLabel);
        }
        match (file_of(position.get_char(0)), rank_of(position.get_char(1))) {
            (Some(file), Some(rank)) => Ok(Square { file, rank }),
            _ => Err(ChessError::InvalidLabel),
        }
    }

    /// Writes the labels of a list of squares, in order.
    pub fn convert_coordinates(positions: &Vec<Square>) -> (labels: Vec<String>)
        requires
            forall|i: int| 0 <= i < positions@.len() ==> (#[trigger] positions@[i]).valid(),
        ensures
            labels@.len() == positions@.len(),
            forall|i: int|
                0 <= i < positions@.len() ==> (#[trigger] labels@[i])@ == label_of(positions@[i]),
    {
        let mut labels: Vec<String> = Vec::new();
        let mut i: usize = 0;
        while i < positions.len()
            invariant
                i <= positions@.len(),
                labels@.len() == i,
                forall|j: int| 0 <= j < positions@.len() ==> (#[trigger] positions@[j]).valid(),
                forall|j: int| 0 <= j < i ==> (#[trigger] labels@[j])@ == label_of(positions@[j]),
            decreases positions@.len() - i,
        {
            labels.push(square_label(positions[i]));
            i += 1;
        }
        labels
    }
}

} // verus!
