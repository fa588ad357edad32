use reversi::{Coordinate, Direction, Game, MoveError, Player};

#[test]
fn rejects_out_of_bounds_with_invalid_position_and_keeps_state() {
    let mut board = Game::default();
    let before = board.clone();

    for &(x, y) in [(8usize, 0usize), (0, 8), (8, 8), (1004, 1004)].iter() {
        match board.make_move(x, y) {
            Err(MoveError::InvalidPosition) => {}
            _ => panic!("an off-board move must fail with InvalidPosition"),
        }
        assert_eq!(before, board);
    }
}

#[test]
fn rejects_occupied_cell_with_non_empty_position_and_keeps_state() {
    let mut board = Game::default();
    let before = board.clone();

    for &(x, y) in [(3usize, 3usize), (3, 4), (4, 3), (4, 4)].iter() {
        match board.make_move(x, y) {
            Err(MoveError::NonEmptyPosition) => {}
            _ => panic!("a move onto a piece must fail with NonEmptyPosition"),
        }
        assert_eq!(before, board);
    }
}

#[test]
fn rejects_move_without_bracket_and_keeps_state() {
    let mut board = Game::default();
    let before = board.clone();

    match board.make_move(0, 0) {
        Err(MoveError::InvalidPosition) => {}
        _ => panic!("a move that flips nothing must fail with InvalidPosition"),
    }
    assert_eq!(before, board);
}

#[test]
fn initial_board_has_sixty_empty_cells() {
    let board = Game::default();
    let mut empty = 0;

    for x in 0..8 {
        for y in 0..8 {
            if board.position(&Coordinate { x, y }).is_none() {
                empty += 1;
            }
        }
    }
    assert_eq!(60, empty);
}

#[test]
fn opening_move_flips_one_piece_and_hands_turn_over() {
    let mut board = Game::default();

    let r = board.make_move(5, 4);
    assert_eq!(Ok(Player::Bob), r);
    assert_eq!(Some(Player::Alice), board.position(&Coordinate { x: 5, y: 4 }));
    assert_eq!(Some(Player::Alice), board.position(&Coordinate { x: 4, y: 4 }));
    assert_eq!(Some(Player::Bob), board.position(&Coordinate { x: 3, y: 3 }));
    assert_eq!(Player::Bob, board.current_player);

    let score = board.score();
    assert_eq!(4, score[0]);
    assert_eq!(1, score[1]);
}

#[test]
fn validation_lists_the_bracketed_run() {
    let board = Game::default();

    let r = board.is_valid_move(&Coordinate { x: 5, y: 4 }, Player::Alice);
    assert_eq!(Ok(vec![Coordinate { x: 4, y: 4 }]), r);
}

#[test]
fn validation_is_idempotent() {
    let board = Game::default();

    for x in 0..8 {
        for y in 0..8 {
            let c = Coordinate { x, y };
            let first = board.is_valid_move(&c, Player::Alice);
            let second = board.is_valid_move(&c, Player::Alice);
            assert_eq!(first, second);
        }
    }
    let far = Coordinate { x: 1004, y: 1004 };
    assert_eq!(
        board.is_valid_move(&far, Player::Bob),
        board.is_valid_move(&far, Player::Bob)
    );
}

#[test]
fn raytrace_returns_nothing_without_a_bracket() {
    let board = Game::default();

    let cs = board.raytrace(&Coordinate { x: 5, y: 4 }, &Direction::East, Player::Alice);
    assert!(cs.is_empty());

    let cs = board.raytrace(&Coordinate { x: 5, y: 4 }, &Direction::West, Player::Bob);
    assert!(cs.is_empty());
}

#[test]
fn initial_valid_moves_are_the_four_openings() {
    let board = Game::default();

    let moves = board.valid_moves(Player::Alice);
    assert_eq!(4, moves.len());
    for c in [
        Coordinate { x: 2, y: 3 },
        Coordinate { x: 3, y: 2 },
        Coordinate { x: 4, y: 5 },
        Coordinate { x: 5, y: 4 },
    ]
    .iter()
    {
        assert!(moves.iter().any(|m| m == c));
    }
}

#[test]
fn game_is_not_finished_at_the_start() {
    let board = Game::default();
    assert!(!board.finished());
}

#[test]
fn game_is_finished_when_neither_player_can_move() {
    let board = Game {
        current_player: Player::Alice,
        board: [[Some(Player::Alice); 8]; 8],
    };
    assert!(board.finished());

    let score = board.score();
    assert_eq!(64, score[0]);
    assert_eq!(0, score[1]);
}

#[test]
fn within_bounds_matches_the_board_edge() {
    let board = Game::default();
    assert!(board.within_bounds(&Coordinate { x: 0, y: 0 }));
    assert!(board.within_bounds(&Coordinate { x: 7, y: 7 }));
    assert!(!board.within_bounds(&Coordinate { x: 8, y: 7 }));
    assert!(!board.within_bounds(&Coordinate { x: 7, y: 8 }));
}

#[test]
fn forward_stops_at_every_edge() {
    let corner = Coordinate { x: 0, y: 0 };
    assert!(corner.forward(&Direction::South).is_none());
    assert!(corner.forward(&Direction::West).is_none());
    assert!(corner.forward(&Direction::Southwest).is_none());

    let stepped = corner.forward(&Direction::Northeast).unwrap();
    assert_eq!(1, stepped.x);
    assert_eq!(1, stepped.y);

    let far = Coordinate { x: 7, y: 7 };
    assert!(far.forward(&Direction::North).is_none());
    assert!(far.forward(&Direction::East).is_none());
    assert!(far.forward(&Direction::Northeast).is_none());

    let back = far.forward(&Direction::Southwest).unwrap();
    assert_eq!(6, back.x);
    assert_eq!(6, back.y);
}
