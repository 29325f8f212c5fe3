use chess_engine::notation::square_label;
use chess_engine::{Color, Game, GameState, Piece, PieceType};

fn piece(piecetype: PieceType, color: Color) -> Option<Piece> {
    Some(Piece { piecetype, color })
}

#[test]
fn lib_it_works() {
    assert_eq!(2 + 2, 4);
}

#[test]
fn lib_game_in_progress_after_init() {
    let game = Game::new();

    println!("{:?}", game);

    assert_eq!(game.get_game_state(), GameState::InProgress);
}

#[test]
fn lib_get_possible_moves_pawn() {
    let mut game = Game::new();
    let (irrelevant, _possible_moves) = Game::get_possible_moves(&mut game, &vec![0, 1]);
    println!("{:?}", irrelevant);
    assert_eq!(vec!["A6".to_string(), "A5".to_string()], irrelevant);
}

#[test]
fn lib_get_possible_moves_knight() {
    let mut game = Game::new();
    let (irrelevant, _possible_moves) = Game::get_possible_moves(&mut game, &vec![1, 0]);
    println!("{:?}", irrelevant);
    assert_eq!(vec!["A6".to_string(), "C6".to_string()], irrelevant);
}

#[test]
fn test_it_works() {
    assert_eq!(2 + 2, 4);
}

#[test]
fn test_game_in_progress_after_init() {
    let game = Game::new();

    println!("{:?}", game);

    assert_eq!(game.get_game_state(), GameState::InProgress);
}

#[test]
fn move_a_pawn() {
    let mut game = Game::new();
    Game::make_move(&mut game, &"A2".to_string(), "A3".to_string(), true);
    let a_boardstate = [
        [
            piece(PieceType::Rook, Color::Black),
            piece(PieceType::Knight, Color::Black),
            piece(PieceType::Bishop, Color::Black),
            piece(PieceType::Queen, Color::Black),
            piece(PieceType::King, Color::Black),
            piece(PieceType::Bishop, Color::Black),
            piece(PieceType::Knight, Color::Black),
            piece(PieceType::Rook, Color::Black),
        ],
        [
            piece(PieceType::Pawn, Color::Black),
            piece(PieceType::Pawn, Color::Black),
            piece(PieceType::Pawn, Color::Black),
            piece(PieceType::Pawn, Color::Black),
            piece(PieceType::Pawn, Color::Black),
            piece(PieceType::Pawn, Color::Black),
            piece(PieceType::Pawn, Color::Black),
            piece(PieceType::Pawn, Color::Black),
        ],
        [None, None, None, None, None, None, None, None],
        [None, None, None, None, None, None, None, None],
        [None, None, None, None, None, None, None, None],
        [
            Some(Piece {
                piecetype: PieceType::Pawn,
                color: Color::White,
            }),
            None,
            None,
            None,
            None,
            None,
            None,
            None,
        ],
        [
            None,
            piece(PieceType::Pawn, Color::White),
            piece(PieceType::Pawn, Color::White),
            piece(PieceType::Pawn, Color::White),
            piece(PieceType::Pawn, Color::White),
            piece(PieceType::Pawn, Color::White),
            piece(PieceType::Pawn, Color::White),
            piece(PieceType::Pawn, Color::White),
        ],
        [
            piece(PieceType::Rook, Color::White),
            piece(PieceType::Knight, Color::White),
            piece(PieceType::Bishop, Color::White),
            piece(PieceType::Queen, Color::White),
            piece(PieceType::King, Color::White),
            piece(PieceType::Bishop, Color::White),
            piece(PieceType::Knight, Color::White),
            piece(PieceType::Rook, Color::White),
        ],
    ];
    println!("{}", game.render());
    assert_eq!(game.board, a_boardstate);
}

#[test]
fn test_promotion() {
    let mut game = Game::new();
    game.board[0][0] = Some(Piece {
        piecetype: PieceType::Pawn,
        color: Color::White,
    });
    Game::set_promotion(&mut game, PieceType::Queen);
    assert_eq!(
        game.board[0][0],
        Some(Piece {
            piecetype: PieceType::Queen,
            color: Color::White,
        })
    );
}

#[test]
fn test_check() {
    let mut game = Game::new();
    game.board = [
        [
            piece(PieceType::Rook, Color::Black),
            None,
            piece(PieceType::Bishop, Color::Black),
            None,
            piece(PieceType::King, Color::Black),
            piece(PieceType::Bishop, Color::Black),
            piece(PieceType::Knight, Color::Black),
            None,
        ],
        [
            piece(PieceType::Pawn, Color::Black),
            piece(PieceType::Pawn, Color::Black),
            None,
            None,
            piece(PieceType::Queen, Color::White),
            piece(PieceType::Pawn, Color::Black),
            None,
            None,
        ],
        [
            None,
            None,
            piece(PieceType::Knight, Color::Black),
            None,
            None,
            None,
            None,
            None,
        ],
        [
            piece(PieceType::Queen, Color::Black),
            None,
            None,
            piece(PieceType::Pawn, Color::Black),
            None,
            None,
            piece(PieceType::Pawn, Color::Black),
            piece(PieceType::Pawn, Color::Black),
        ],
        [
            None,
            piece(PieceType::Rook, Color::Black),
            None,
            piece(PieceType::Pawn, Color::White),
            piece(PieceType::Pawn, Color::White),
            None,
            piece(PieceType::Pawn, Color::White),
            None,
        ],
        [
            piece(PieceType::Bishop, Color::White),
            None,
            piece(PieceType::Pawn, Color::White),
            None,
            None,
            None,
            None,
            piece(PieceType::Pawn, Color::White),
        ],
        [
            None,
            piece(PieceType::Rook, Color::White),
            None,
            None,
            None,
            piece(PieceType::Pawn, Color::White),
            None,
            piece(PieceType::Rook, Color::White),
        ],
        [
            None,
            piece(PieceType::Knight, Color::White),
            None,
            piece(PieceType::King, Color::White),
            None,
            piece(PieceType::Bishop, Color::White),
            piece(PieceType::Knight, Color::White),
            None,
        ],
    ];
    println!("{}", game.render());
    game.color = Color::Black;
    let check = Game::check_check(&mut game);
    assert_eq!(Ok(true), check);
}

#[test]
fn test_game_state() {
    let game = Game::new();
    assert_eq!(game.state, GameState::InProgress);
}

#[test]
fn test_get_possible_moves_pawn() {
    let mut game = Game::new();
    let (irrelevant, _possible_moves) = Game::get_possible_moves(&mut game, &vec![0, 1]);
    println!("{:?}", irrelevant);
    assert_eq!(vec!["A6".to_string(), "A5".to_string()], irrelevant);
}

#[test]
fn test_get_possible_moves_knight() {
    let mut game = Game::new();
    let (irrelevant, _possible_moves) = Game::get_possible_moves(&mut game, &vec![1, 0]);
    println!("{:?}", irrelevant);
    assert_eq!(vec!["A6".to_string(), "C6".to_string()], irrelevant);
}

#[test]
fn test_print() {
    let game = Game::new();
    println!("{}", game.render());
    println!("Does it look right?");
}

#[test]
fn test_it_yourself() {
    let mut game = Game::new();
    for line in ["e2 e4", "E7 E5", "g1-f3", "nonsense", "B8 C6"] {
        match Game::read_command(line) {
            Some(command) => {
                game.make_move(
                    &square_label(command.from),
                    square_label(command.to),
                    true,
                );
                println!("{:?}, enter your move: ", game.color);
            }
            None => println!("Invalid move! Enter new:"),
        }
    }
    println!("{}", game.render());
    assert_eq!(game.color, Color::White);
    assert_eq!(
        game.board[4][4],
        Some(Piece {
            piecetype: PieceType::Pawn,
            color: Color::White,
        })
    );
    assert_eq!(
        game.board[3][4],
        Some(Piece {
            piecetype: PieceType::Pawn,
            color: Color::Black,
        })
    );
    assert_eq!(
        game.board[5][5],
        Some(Piece {
            piecetype: PieceType::Knight,
            color: Color::White,
        })
    );
    assert_eq!(
        game.board[2][2],
        Some(Piece {
            piecetype: PieceType::Knight,
            color: Color::Black,
        })
    );
}
