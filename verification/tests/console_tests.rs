use chess_engine::{Color, Game, Piece, PieceType};

#[test]
fn drawing_of_the_starting_position() {
    let game = Game::new();
    let pawn = " \u{265F}\u{FE0E} ";
    let lines = [
        "#-A--B--C--D--E--F--G--H-#".to_string(),
        "8 \u{2656}  \u{2658}  \u{2657}  \u{2655}  \u{2654}  \u{2657}  \u{2658}  \u{2656} 8".to_string(),
        "7 \u{2659}  \u{2659}  \u{2659}  \u{2659}  \u{2659}  \u{2659}  \u{2659}  \u{2659} 7".to_string(),
        "6 .  .  .  .  .  .  .  . 6".to_string(),
        "5 .  .  .  .  .  .  .  . 5".to_string(),
        "4 .  .  .  .  .  .  .  . 4".to_string(),
        "3 .  .  .  .  .  .  .  . 3".to_string(),
        format!("2{}2", pawn.repeat(8)),
        "1 \u{265C}  \u{265E}  \u{265D}  \u{265B}  \u{265A}  \u{265D}  \u{265E}  \u{265C} 1".to_string(),
        "#-A--B--C--D--E--F--G--H-#".to_string(),
    ];
    let mut expected = String::new();
    for line in lines {
        expected.push_str(&line);
        expected.push_str("\n");
    }
    assert_eq!(game.render(), expected);
}

#[test]
fn drawing_of_an_empty_board() {
    let mut game = Game::new();
    game.board = [[None; 8]; 8];
    let mut expected = String::from("#-A--B--C--D--E--F--G--H-#\n");
    for digit in ["8", "7", "6", "5", "4", "3", "2", "1"] {
        expected.push_str(digit);
        expected.push_str(" .  .  .  .  .  .  .  . ");
        expected.push_str(digit);
        expected.push_str("\n");
    }
    expected.push_str("#-A--B--C--D--E--F--G--H-#\n");
    assert_eq!(game.render(), expected);
}

#[test]
fn drawing_puts_a_piece_in_its_cell() {
    let mut game = Game::new();
    game.board = [[None; 8]; 8];
    game.board[2][7] = Some(Piece {
        piecetype: PieceType::Queen,
        color: Color::White,
    });
    let text = game.render();
    let lines: Vec<&str> = text.lines().collect();
    assert_eq!(lines.len(), 10);
    assert_eq!(lines[3], "6 .  .  .  .  .  .  .  \u{265B} 6");
    assert_eq!(lines[1], "8 .  .  .  .  .  .  .  . 8");
}
