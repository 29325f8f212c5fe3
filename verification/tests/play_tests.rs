use chess_engine::{Board, ChessError, Color, Game, GameState, Move, Piece, PieceType, Square};

fn piece(piecetype: PieceType, color: Color) -> Option<Piece> {
    Some(Piece { piecetype, color })
}

fn sq(file: i8, rank: i8) -> Square {
    Square { file, rank }
}

fn bare(color: Color) -> Game {
    let mut game = Game::new();
    game.board = [[None; 8]; 8];
    game.color = color;
    game
}

fn request(game: &mut Game, from: &str, to: &str, switch_turn: bool) -> GameState {
    game.make_move(&from.to_string(), to.to_string(), switch_turn)
}

#[test]
fn new_game_is_the_starting_position() {
    let game = Game::new();
    assert_eq!(game.state, GameState::InProgress);
    assert_eq!(game.color, Color::White);
    let back = [
        PieceType::Rook,
        PieceType::Knight,
        PieceType::Bishop,
        PieceType::Queen,
        PieceType::King,
        PieceType::Bishop,
        PieceType::Knight,
        PieceType::Rook,
    ];
    for file in 0..8 {
        assert_eq!(game.board[0][file], piece(back[file], Color::Black));
        assert_eq!(game.board[1][file], piece(PieceType::Pawn, Color::Black));
        for rank in 2..6 {
            assert_eq!(game.board[rank][file], None);
        }
        assert_eq!(game.board[6][file], piece(PieceType::Pawn, Color::White));
        assert_eq!(game.board[7][file], piece(back[file], Color::White));
    }
    assert_eq!(Game::generate_board(), game.board);
}

#[test]
fn opposite_of_each_color() {
    assert_eq!(Game::opposite_func(Color::White), Color::Black);
    assert_eq!(Game::opposite_func(Color::Black), Color::White);
}

#[test]
fn first_pawn_move_end_to_end() {
    let mut game = Game::new();
    let state = request(&mut game, "A2", "A3", true);
    assert_eq!(state, GameState::InProgress);
    assert_eq!(game.board[6][0], None);
    assert_eq!(game.board[5][0], piece(PieceType::Pawn, Color::White));
    assert_eq!(game.color, Color::Black);
    assert_eq!(game.get_game_state(), GameState::InProgress);
}

#[test]
fn move_without_passing_the_turn_keeps_the_side_to_move() {
    let mut game = Game::new();
    request(&mut game, "B1", "C3", false);
    assert_eq!(game.board[7][1], None);
    assert_eq!(game.board[5][2], piece(PieceType::Knight, Color::White));
    assert_eq!(game.color, Color::White);
}

#[test]
fn capture_overwrites_the_destination() {
    let mut game = bare(Color::Black);
    game.board[3][3] = piece(PieceType::Rook, Color::Black);
    game.board[3][6] = piece(PieceType::Bishop, Color::White);
    request(&mut game, "D5", "G5", true);
    assert_eq!(game.board[3][3], None);
    assert_eq!(game.board[3][6], piece(PieceType::Rook, Color::Black));
    assert_eq!(game.color, Color::White);
}

#[test]
fn illegal_destination_leaves_everything_as_it_was() {
    let mut game = Game::new();
    let before = game.board;
    for (from, to) in [("A2", "A5"), ("A1", "A3"), ("B1", "B3"), ("E1", "E2"), ("A2", "A2")] {
        assert_eq!(
            game.check_move(from, to),
            Err(ChessError::IllegalMove),
            "{} {}",
            from,
            to
        );
        let state = request(&mut game, from, to, true);
        assert_eq!(state, GameState::InProgress);
        assert_eq!(game.board, before);
        assert_eq!(game.color, Color::White);
        assert_eq!(game.state, GameState::InProgress);
    }
}

#[test]
fn rejection_returns_the_prior_state() {
    let mut game = Game::new();
    game.state = GameState::Check;
    let before = game.board;
    assert_eq!(request(&mut game, "A2", "A5", true), GameState::Check);
    assert_eq!(game.board, before);
    assert_eq!(game.color, Color::White);
}

#[test]
fn piece_of_the_side_not_to_move_is_refused() {
    let mut game = Game::new();
    let before = game.board;
    assert_eq!(game.check_move("A7", "A6"), Err(ChessError::IllegalMove));
    request(&mut game, "A7", "A6", true);
    assert_eq!(game.board, before);
    assert_eq!(game.color, Color::White);
}

#[test]
fn empty_origin_is_refused() {
    let mut game = Game::new();
    let before = game.board;
    assert_eq!(game.check_move("A4", "A5"), Err(ChessError::EmptyOrigin));
    request(&mut game, "A4", "A5", true);
    assert_eq!(game.board, before);
    assert_eq!(game.color, Color::White);
}

#[test]
fn malformed_label_is_refused() {
    let mut game = Game::new();
    let before = game.board;
    for (from, to) in [("Z9", "A3"), ("A2", "A9"), ("", "A3"), ("A2", "3A"), ("A4", "??")] {
        assert_eq!(game.check_move(from, to), Err(ChessError::InvalidLabel));
        request(&mut game, from, to, true);
        assert_eq!(game.board, before);
        assert_eq!(game.color, Color::White);
    }
}

#[test]
fn accepted_request_names_the_move() {
    let game = Game::new();
    assert_eq!(
        game.check_move("A2", "A4"),
        Ok(Move {
            from: sq(0, 6),
            to: sq(0, 4),
        })
    );
    assert_eq!(
        game.check_move("G1", "F3"),
        Ok(Move {
            from: sq(6, 7),
            to: sq(5, 5),
        })
    );
}

#[test]
fn finished_game_accepts_no_move() {
    let mut game = Game::new();
    game.state = GameState::GameOver;
    let before = game.board;
    assert_eq!(request(&mut game, "A2", "A3", true), GameState::GameOver);
    assert_eq!(game.board, before);
    assert_eq!(game.color, Color::White);
    assert_eq!(game.state, GameState::GameOver);
}

#[test]
fn game_in_check_still_accepts_moves() {
    let mut game = Game::new();
    game.state = GameState::Check;
    assert_eq!(request(&mut game, "E2", "E4", true), GameState::Check);
    assert_eq!(game.board[6][4], None);
    assert_eq!(game.board[4][4], piece(PieceType::Pawn, Color::White));
    assert_eq!(game.color, Color::Black);
}

#[test]
fn pawn_that_reaches_the_far_rank_becomes_a_queen() {
    let mut game = bare(Color::White);
    game.board[1][6] = piece(PieceType::Pawn, Color::White);
    request(&mut game, "G7", "G8", true);
    assert_eq!(game.board[1][6], None);
    assert_eq!(game.board[0][6], piece(PieceType::Queen, Color::White));

    let mut game = bare(Color::Black);
    game.board[6][1] = piece(PieceType::Pawn, Color::Black);
    game.board[7][2] = piece(PieceType::Rook, Color::White);
    request(&mut game, "B2", "C1", false);
    assert_eq!(game.board[6][1], None);
    assert_eq!(game.board[7][2], piece(PieceType::Queen, Color::Black));
    assert_eq!(game.color, Color::Black);
}

#[test]
fn promotion_runs_even_when_the_request_is_refused() {
    let mut game = bare(Color::White);
    game.board[0][0] = piece(PieceType::Pawn, Color::White);
    game.board[6][3] = piece(PieceType::Pawn, Color::White);
    assert_eq!(request(&mut game, "D2", "D6", true), GameState::InProgress);
    assert_eq!(game.board[0][0], piece(PieceType::Queen, Color::White));
    assert_eq!(game.board[6][3], piece(PieceType::Pawn, Color::White));
    assert_eq!(game.color, Color::White);

    let mut over = bare(Color::White);
    over.state = GameState::GameOver;
    over.board[7][7] = piece(PieceType::Pawn, Color::Black);
    request(&mut over, "A2", "A3", true);
    assert_eq!(over.board[7][7], piece(PieceType::Queen, Color::Black));
}

#[test]
fn play_moves_and_promotes_without_judging() {
    let mut game = bare(Color::White);
    game.board[4][4] = piece(PieceType::Pawn, Color::Black);
    game.play(Move {
        from: sq(4, 4),
        to: sq(0, 7),
    });
    assert_eq!(game.board[4][4], None);
    assert_eq!(game.board[7][0], piece(PieceType::Queen, Color::Black));
    assert_eq!(game.color, Color::White);
    assert_eq!(game.state, GameState::InProgress);
}

#[test]
fn promotion_turns_far_rank_pawns_into_the_chosen_kind() {
    let mut game = bare(Color::White);
    game.board[0][3] = piece(PieceType::Pawn, Color::White);
    game.board[0][4] = piece(PieceType::Pawn, Color::Black);
    game.board[7][1] = piece(PieceType::Pawn, Color::Black);
    game.board[7][2] = piece(PieceType::Pawn, Color::White);
    game.board[3][3] = piece(PieceType::Pawn, Color::White);
    game.board[0][7] = piece(PieceType::Rook, Color::White);
    let mut expected: Board = game.board;
    expected[0][3] = piece(PieceType::Knight, Color::White);
    expected[7][1] = piece(PieceType::Knight, Color::Black);
    game.set_promotion(PieceType::Knight);
    assert_eq!(game.board, expected);
    assert_eq!(game.color, Color::White);
    assert_eq!(game.state, GameState::InProgress);
}

#[test]
fn promotion_twice_is_promotion_once() {
    let mut game = Game::new();
    game.board[0][0] = piece(PieceType::Pawn, Color::White);
    game.set_promotion(PieceType::Queen);
    assert_eq!(game.board[0][0], piece(PieceType::Queen, Color::White));
    let once = game.board;
    game.set_promotion(PieceType::Queen);
    assert_eq!(game.board, once);
    game.set_promotion(PieceType::Rook);
    assert_eq!(game.board, once);
}

#[test]
fn promotion_leaves_a_settled_board_alone() {
    let mut game = Game::new();
    game.set_promotion(PieceType::Queen);
    assert_eq!(game.board, Game::new().board);
}

#[test]
fn king_is_found_where_it_stands() {
    let mut game = Game::new();
    assert_eq!(game.get_king_position(), Some(sq(4, 7)));
    game.color = Color::Black;
    assert_eq!(game.get_king_position(), Some(sq(4, 0)));
    game.board[0][4] = None;
    assert_eq!(game.get_king_position(), None);
    game.board[2][1] = piece(PieceType::King, Color::Black);
    game.board[5][1] = piece(PieceType::King, Color::Black);
    game.board[0][6] = piece(PieceType::King, Color::Black);
    assert_eq!(game.get_king_position(), Some(sq(6, 0)));
}

#[test]
fn each_side_starts_with_twenty_moves() {
    let game = Game::new();
    let white = game.get_all_possible_moves(Color::White);
    let black = game.get_all_possible_moves(Color::Black);
    assert_eq!(white.len(), 20);
    assert_eq!(black.len(), 20);
    assert_eq!(
        &white[..5],
        &[
            Move { from: sq(0, 6), to: sq(0, 4) },
            Move { from: sq(0, 6), to: sq(0, 5) },
            Move { from: sq(1, 6), to: sq(1, 4) },
            Move { from: sq(1, 6), to: sq(1, 5) },
            Move { from: sq(1, 7), to: sq(0, 5) },
        ]
    );
    assert_eq!(
        &black[..3],
        &[
            Move { from: sq(0, 1), to: sq(0, 2) },
            Move { from: sq(0, 1), to: sq(0, 3) },
            Move { from: sq(1, 0), to: sq(0, 2) },
        ]
    );
    assert!(bare(Color::White).get_all_possible_moves(Color::White).is_empty());
}

#[test]
fn nobody_is_in_check_at_the_start() {
    let mut game = Game::new();
    assert_eq!(game.in_check(Color::White), Ok(false));
    assert_eq!(game.in_check(Color::Black), Ok(false));
    assert_eq!(game.check_check(), Ok(false));
    assert_eq!(game.state, GameState::InProgress);
    assert_eq!(game.board, Game::new().board);
}

#[test]
fn queen_on_an_open_rank_gives_check() {
    let mut game = bare(Color::White);
    game.board[7][4] = piece(PieceType::King, Color::White);
    game.board[7][0] = piece(PieceType::Queen, Color::Black);
    game.board[0][4] = piece(PieceType::King, Color::Black);
    let before = game.board;
    assert_eq!(game.in_check(Color::White), Ok(true));
    assert_eq!(game.in_check(Color::Black), Ok(false));
    assert_eq!(game.state, GameState::InProgress);
    assert_eq!(game.check_check(), Ok(true));
    assert_eq!(game.state, GameState::Check);
    assert_eq!(game.board, before);
    assert_eq!(game.color, Color::White);
}

#[test]
fn piece_in_between_shields_the_king() {
    let mut game = bare(Color::White);
    game.board[7][4] = piece(PieceType::King, Color::White);
    game.board[7][0] = piece(PieceType::Queen, Color::Black);
    game.board[7][2] = piece(PieceType::Bishop, Color::White);
    assert_eq!(game.check_check(), Ok(false));
    assert_eq!(game.state, GameState::InProgress);
}

#[test]
fn check_is_not_cleared_by_a_later_test() {
    let mut game = Game::new();
    game.state = GameState::Check;
    assert_eq!(game.check_check(), Ok(false));
    assert_eq!(game.state, GameState::Check);
}

#[test]
fn check_without_a_king_fails() {
    let mut game = bare(Color::White);
    game.board[3][3] = piece(PieceType::Queen, Color::Black);
    assert_eq!(game.in_check(Color::White), Err(ChessError::NoKing));
    assert_eq!(game.check_check(), Err(ChessError::NoKing));
    assert_eq!(game.state, GameState::InProgress);
    assert_eq!(game.cannot_escape(Color::White), Err(ChessError::NoKing));
    assert_eq!(game.is_checkmate(Color::White), Err(ChessError::NoKing));
    assert_eq!(game.checkmate(), Err(ChessError::NoKing));
    assert_eq!(game.state, GameState::InProgress);
}

#[test]
fn back_rank_mate_ends_the_game() {
    let mut game = bare(Color::White);
    game.board[7][7] = piece(PieceType::King, Color::White);
    game.board[6][6] = piece(PieceType::Pawn, Color::White);
    game.board[6][7] = piece(PieceType::Pawn, Color::White);
    game.board[7][0] = piece(PieceType::Rook, Color::Black);
    game.board[0][0] = piece(PieceType::King, Color::Black);
    let before = game.board;
    assert_eq!(game.in_check(Color::White), Ok(true));
    assert_eq!(game.cannot_escape(Color::White), Ok(true));
    assert_eq!(game.cannot_escape(Color::Black), Ok(false));
    assert_eq!(game.is_checkmate(Color::Black), Ok(false));
    assert_eq!(game.state, GameState::InProgress);
    assert_eq!(game.checkmate(), Ok(true));
    assert_eq!(game.state, GameState::GameOver);
    assert_eq!(game.board, before);
    assert_eq!(game.color, Color::White);
}

#[test]
fn check_with_an_escape_is_no_mate() {
    let mut game = bare(Color::White);
    game.board[7][7] = piece(PieceType::King, Color::White);
    game.board[6][7] = piece(PieceType::Pawn, Color::White);
    game.board[7][0] = piece(PieceType::Rook, Color::Black);
    game.board[0][0] = piece(PieceType::King, Color::Black);
    assert_eq!(game.in_check(Color::White), Ok(true));
    assert_eq!(game.checkmate(), Ok(false));
    assert_eq!(game.state, GameState::InProgress);
}

#[test]
fn start_is_no_mate() {
    let mut game = Game::new();
    assert_eq!(game.cannot_escape(Color::White), Ok(false));
    assert_eq!(game.is_checkmate(Color::White), Ok(false));
    assert_eq!(game.is_checkmate(Color::Black), Ok(false));
    assert_eq!(game.checkmate(), Ok(false));
    assert_eq!(game.state, GameState::InProgress);
    assert_eq!(game.board, Game::new().board);
}

#[test]
fn side_without_a_move_counts_as_mated() {
    let mut game = bare(Color::Black);
    game.board[0][0] = piece(PieceType::King, Color::Black);
    game.board[0][1] = piece(PieceType::Pawn, Color::Black);
    for rank in 1..8 {
        game.board[rank][0] = piece(PieceType::Pawn, Color::Black);
        game.board[rank][1] = piece(PieceType::Pawn, Color::Black);
    }
    game.board[7][7] = piece(PieceType::King, Color::White);
    assert!(game.get_all_possible_moves(Color::Black).is_empty());
    assert_eq!(game.in_check(Color::Black), Ok(false));
    assert_eq!(game.checkmate(), Ok(true));
    assert_eq!(game.state, GameState::GameOver);
}

#[test]
fn mate_of_the_side_not_to_move_ends_the_game_too() {
    let mut game = bare(Color::Black);
    game.board[7][7] = piece(PieceType::King, Color::White);
    game.board[6][6] = piece(PieceType::Pawn, Color::White);
    game.board[6][7] = piece(PieceType::Pawn, Color::White);
    game.board[7][0] = piece(PieceType::Rook, Color::Black);
    game.board[0][0] = piece(PieceType::King, Color::Black);
    let before = game.board;
    assert_eq!(game.is_checkmate(Color::White), Ok(true));
    assert_eq!(game.state, GameState::GameOver);
    assert_eq!(game.board, before);
    assert_eq!(game.color, Color::Black);
}
