use tictactoe::game::{Game, Mark};
use tictactoe::players::{parse_move, parse_usize, Human, MoveInputError};

#[test]
fn parses_move_with_spaces() {
    assert_eq!(parse_move(" 1 , 2 "), Ok((1, 2)));
    assert_eq!(parse_move("0,0"), Ok((0, 0)));
    assert_eq!(parse_move("\t2,\t1\n"), Ok((2, 1)));
}

#[test]
fn extra_fields_are_ignored() {
    assert_eq!(parse_move("1,2,3"), Ok((1, 2)));
    assert_eq!(parse_move("1,2,"), Ok((1, 2)));
}

#[test]
fn bad_first_field_is_a_row_error() {
    assert_eq!(parse_move("a,1"), Err(MoveInputError::BadRow));
    assert_eq!(parse_move(",1"), Err(MoveInputError::BadRow));
    assert_eq!(parse_move(""), Err(MoveInputError::BadRow));
    assert_eq!(parse_move("-1,2"), Err(MoveInputError::BadRow));
    assert_eq!(parse_move("1 2,3"), Err(MoveInputError::BadRow));
}

#[test]
fn missing_or_bad_second_field_is_a_column_error() {
    assert_eq!(parse_move("1"), Err(MoveInputError::BadColumn));
    assert_eq!(parse_move("1,"), Err(MoveInputError::BadColumn));
    assert_eq!(parse_move("1,x"), Err(MoveInputError::BadColumn));
    assert_eq!(parse_move("1,+"), Err(MoveInputError::BadColumn));
}

#[test]
fn usize_parsing_matches_std() {
    for text in [
        "0", "7", "+7", "+", "", "-0", "12a", "007", "18446744073709551615",
        "18446744073709551616", "99999999999999999999999", " 1", "٣",
    ] {
        assert_eq!(parse_usize(text), text.parse::<usize>().ok(), "{text:?}");
    }
}

#[test]
fn check_move_reports_occupied_and_outside_cells() {
    let game = Game::new(Mark::X).apply_move(1, 1);
    let human = Human;
    assert_eq!(human.check_move(&game, "1,1"), Err(MoveInputError::Occupied));
    assert_eq!(human.check_move(&game, "3,0"), Err(MoveInputError::Occupied));
    assert_eq!(human.check_move(&game, "0, 2"), Ok((0, 2)));
    assert_eq!(human.check_move(&game, "zero"), Err(MoveInputError::BadRow));
    assert_eq!(human.check_move(&game, "0"), Err(MoveInputError::BadColumn));
}

#[test]
fn error_messages() {
    assert_eq!(MoveInputError::BadRow.message(), "Could not parse row");
    assert_eq!(MoveInputError::BadColumn.message(), "Could not parse column");
    assert_eq!(MoveInputError::Occupied.message(), "Cell is already occupied");
}

#[test]
fn board_rendering() {
    let game = Game::new(Mark::X).apply_move(0, 0).apply_move(2, 1);
    let expected = " X | 0 | 1 | 2 |\n\
                    ---+---+---+---+\n \
                    0 | X |   |   |\n\
                    ---+---+---+---+\n \
                    1 |   |   | O |\n\
                    ---+---+---+---+\n \
                    2 |   |   |   |\n\
                    ---+---+---+---+\n";
    assert_eq!(game.render(), expected);
}
