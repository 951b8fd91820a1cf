use tictactoe::game::{Game, GameState, Mark};

fn play(start: Mark, moves: &[((usize, usize), GameState)]) -> Game {
    let mut game = Game::new(start);
    for ((x, y), expected_state) in moves.iter() {
        game = game.apply_move(*x, *y);
        assert_eq!(game.get_game_state(), *expected_state);
    }
    game
}

#[test]
fn test_row_win() {
    let test_moves = [
        ((0, 0), GameState::InProgress),
        ((1, 0), GameState::InProgress),
        ((0, 1), GameState::InProgress),
        ((1, 1), GameState::InProgress),
        ((0, 2), GameState::Win(Mark::X)),
    ];

    let mut game = Game::new(Mark::X);

    for ((x, y), expected_state) in test_moves.iter() {
        game = game.apply_move(*x, *y);
        assert_eq!(game.get_game_state(), *expected_state);
    }
}

#[test]
fn test_column_win() {
    let test_moves = [
        ((0, 0), GameState::InProgress),
        ((0, 1), GameState::InProgress),
        ((1, 0), GameState::InProgress),
        ((1, 1), GameState::InProgress),
        ((2, 0), GameState::Win(Mark::X)),
    ];

    let mut game = Game::new(Mark::X);

    for ((x, y), expected_state) in test_moves.iter() {
        game = game.apply_move(*x, *y);
        assert_eq!(game.get_game_state(), *expected_state);
    }
}

#[test]
fn test_diagonal_win() {
    let test_moves = [
        ((0, 0), GameState::InProgress),
        ((0, 1), GameState::InProgress),
        ((1, 1), GameState::InProgress),
        ((1, 2), GameState::InProgress),
        ((2, 2), GameState::Win(Mark::X)),
    ];

    let mut game = Game::new(Mark::X);

    for ((x, y), expected_state) in test_moves.iter() {
        game = game.apply_move(*x, *y);
        assert_eq!(game.get_game_state(), *expected_state);
    }
}

#[test]
fn test_draw() {
    let test_moves = [
        ((0, 0), GameState::InProgress),
        ((0, 1), GameState::InProgress),
        ((0, 2), GameState::InProgress),
        ((1, 1), GameState::InProgress),
        ((1, 0), GameState::InProgress),
        ((1, 2), GameState::InProgress),
        ((2, 1), GameState::InProgress),
        ((2, 0), GameState::InProgress),
        ((2, 2), GameState::Draw),
    ];

    let mut game = Game::new(Mark::X);

    for ((x, y), expected_state) in test_moves.iter() {
        game = game.apply_move(*x, *y);
        assert_eq!(game.get_game_state(), *expected_state);
    }
}

#[test]
fn anti_diagonal_win_for_o() {
    play(
        Mark::O,
        &[
            ((0, 2), GameState::InProgress),
            ((0, 0), GameState::InProgress),
            ((1, 1), GameState::InProgress),
            ((1, 0), GameState::InProgress),
            ((2, 0), GameState::Win(Mark::O)),
        ],
    );
}

#[test]
fn column_zero_scenario() {
    play(
        Mark::X,
        &[
            ((0, 0), GameState::InProgress),
            ((1, 1), GameState::InProgress),
            ((0, 1), GameState::InProgress),
            ((2, 2), GameState::InProgress),
            ((0, 2), GameState::Win(Mark::X)),
        ],
    );
}

#[test]
fn fill_order_through_centre_completes_main_diagonal() {
    // X ends up on (0,0), (1,1) and (2,2), so the last move wins.
    play(
        Mark::X,
        &[
            ((0, 0), GameState::InProgress),
            ((0, 1), GameState::InProgress),
            ((0, 2), GameState::InProgress),
            ((1, 0), GameState::InProgress),
            ((1, 1), GameState::InProgress),
            ((1, 2), GameState::InProgress),
            ((2, 1), GameState::InProgress),
            ((2, 0), GameState::InProgress),
            ((2, 2), GameState::Win(Mark::X)),
        ],
    );
}

#[test]
fn full_grid_draw_scenario() {
    let game = play(
        Mark::O,
        &[
            ((0, 0), GameState::InProgress),
            ((0, 1), GameState::InProgress),
            ((0, 2), GameState::InProgress),
            ((1, 1), GameState::InProgress),
            ((1, 0), GameState::InProgress),
            ((1, 2), GameState::InProgress),
            ((2, 1), GameState::InProgress),
            ((2, 0), GameState::InProgress),
            ((2, 2), GameState::Draw),
        ],
    );
    assert_eq!(game.get_cell(2, 2), Some(Mark::O));
    assert_eq!(game.get_mark(), Mark::X);
    for x in 0..3 {
        for y in 0..3 {
            assert!(game.get_cell(x, y).is_some());
            assert!(!game.is_valid_move(x, y));
        }
    }
}

#[test]
fn new_game_is_empty_and_in_progress() {
    let game = Game::new(Mark::O);
    assert_eq!(game.get_mark(), Mark::O);
    assert_eq!(game.get_game_state(), GameState::InProgress);
    for x in 0..3 {
        for y in 0..3 {
            assert_eq!(game.get_cell(x, y), None);
            assert!(game.is_valid_move(x, y));
        }
    }
}

#[test]
fn apply_move_toggles_and_marks_mover() {
    let game = Game::new(Mark::X);
    let next = game.apply_move(2, 1);
    assert_eq!(next.get_mark(), Mark::O);
    assert_eq!(next.get_cell(2, 1), Some(Mark::X));
    assert_eq!(next.get_cell(1, 2), None);
    assert_eq!(game.get_cell(2, 1), None);
    let after = next.apply_move(1, 2);
    assert_eq!(after.get_mark(), Mark::X);
    assert_eq!(after.get_cell(1, 2), Some(Mark::O));
    assert_eq!(after.get_cell(2, 1), Some(Mark::X));
}

#[test]
fn is_valid_move_rejects_occupied_and_outside() {
    let game = Game::new(Mark::X).apply_move(1, 1);
    assert!(!game.is_valid_move(1, 1));
    assert!(game.is_valid_move(0, 0));
    assert!(game.is_valid_move(2, 2));
    assert!(!game.is_valid_move(3, 0));
    assert!(!game.is_valid_move(0, 3));
    assert!(!game.is_valid_move(usize::MAX, usize::MAX));
}
