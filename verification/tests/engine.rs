use reversi::{Coordinate, Direction, Game, MoveError, Player};

#[test]
fn it_initializes_an_empty_board() {
    let board = Game::default();

    assert!(board.board.len() == 8, "Board should be 8x8.");

    for row in board.board.iter() {
        assert!(row.len() == 8, "Board should be 8x8.");
    }
}

#[test]
fn it_is_alice_to_move() {
    let board = Game::default();

    match board.current_player {
        Player::Alice => assert!(true),
        _ => panic!("oh god"),
    }
}

#[test]
fn it_initializes_the_center() {
    let board = Game::default();

    assert!(board.position(&Coordinate { x: 3, y: 4 }).unwrap() == Player::Alice);
    assert!(board.position(&Coordinate { x: 4, y: 3 }).unwrap() == Player::Alice);
    assert!(board.position(&Coordinate { x: 3, y: 3 }).unwrap() == Player::Bob);
    assert!(board.position(&Coordinate { x: 4, y: 4 }).unwrap() == Player::Bob);
}

#[test]
fn it_does_not_allow_playing_on_an_occuppied_square() {
    let mut board = Game::default();

    match board.make_move(3, 3) {
        Err(MoveError::NonEmptyPosition) => assert!(true),
        _ => assert!(false),
    }
}

#[test]
fn it_does_not_allow_playing_unless_it_is_a_valid_move() {
    let mut board = Game::default();

    match board.make_move(5, 4) {
        Ok(_) => assert!(true),
        _ => assert!(false),
    }

    match board.make_move(4, 1) {
        Err(MoveError::InvalidPosition) => assert!(true),
        _ => assert!(false),
    }
}

#[test]
fn it_changes_player_on_valid_move() {
    let mut board = Game::default();

    if let Ok(_) = board.make_move(5, 4) {};
    assert!(Player::Bob == board.current_player);
}

#[test]
fn it_does_not_change_player_on_invalid_move() {
    let mut board = Game::default();

    if let Ok(_) = board.make_move(4, 4) {};
    assert!(Player::Alice == board.current_player);
}

#[test]
fn it_detects_out_of_bounds() {
    let mut board = Game::default();

    if let Ok(_) = board.make_move(1004, 1004) {
        assert!(false)
    };
}

#[test]
fn it_returns_other_player() {
    let board = Game::default();

    assert!(Player::Bob == board.other(Player::Alice));
    assert!(Player::Alice == board.other(Player::Bob));
}

#[test]
fn it_raytraces() {
    let board = Game::default();
    let cs = board.raytrace(&Coordinate { x: 5, y: 4 }, &Direction::West, Player::Alice);

    assert!(!cs.is_empty());

    match cs.first() {
        Some(c) => {
            assert!(4 == c.x);
            assert!(4 == c.y);
        }
        None => assert!(false),
    }
}

#[test]
fn it_flips_a_single_piece() {
    let mut board = Game::default();
    let flipped_piece = Coordinate { x: 4, y: 4 };

    if let Ok(_) = board.make_move(5, 4) {};
    println!("{:?}", board);

    match board.position(&flipped_piece).unwrap() {
        Player::Alice => assert!(true),
        _ => assert!(false, "Piece should be flipped."),
    }

    if let Ok(_) = board.make_move(5, 5) {};
    println!("{:?}", board);
}

#[test]
fn it_calculates_score_tie() {
    let board = Game::default();
    let score: [i32; 2] = board.score();

    assert!(2 == score[0]);
    assert!(2 == score[1]);
}
