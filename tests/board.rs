use connect_n::{Board, Color, GameError};

fn drop_all(board: &mut Board, moves: &[(Color, usize)]) {
    for &(color, col) in moves {
        board.drop_piece(color, col).unwrap();
    }
}

#[test]
fn new_board_is_empty() {
    let board = Board::new(6, 7, 3, 7);
    assert_eq!(board.data.len(), 6);
    for row in &board.data {
        assert_eq!(row.len(), 7);
        assert!(row.iter().all(|c| c.is_none()));
    }
    assert_eq!((board.num_rows, board.num_columns, board.row_height, board.column_width), (6, 7, 3, 7));
}

#[test]
fn pieces_land_on_the_lowest_free_row() {
    for c in 0..7 {
        let mut board = Board::new(6, 7, 3, 7);
        assert!(board.available_column(c));
        board.drop_piece(Color::Red, c).unwrap();
        assert_eq!(board.data[5][c], Some(Color::Red));
        board.drop_piece(Color::Black, c).unwrap();
        assert_eq!(board.data[4][c], Some(Color::Black));
        board.drop_piece(Color::Red, c).unwrap();
        assert_eq!(board.data[3][c], Some(Color::Red));
        assert_eq!(board.data[2][c], None);
    }
}

#[test]
fn full_column_refuses_and_keeps_board() {
    let mut board = Board::new(6, 7, 3, 7);
    for _ in 0..6 {
        board.drop_piece(Color::Black, 2).unwrap();
    }
    assert!(!board.available_column(2));
    let before = board.data.clone();
    assert_eq!(board.drop_piece(Color::Red, 2), Err(GameError::InvalidColumn));
    assert_eq!(board.data, before);
    assert_eq!(board.drop_piece(Color::Red, 2), Err(GameError::InvalidColumn));
    assert_eq!(board.data, before);
}

#[test]
fn out_of_range_column_is_refused() {
    let mut board = Board::new(6, 7, 3, 7);
    assert!(!board.available_column(7));
    let before = board.data.clone();
    assert_eq!(board.drop_piece(Color::Red, 7), Err(GameError::InvalidColumn));
    assert_eq!(board.data, before);
}

#[test]
fn is_full_exactly_when_no_column_is_available() {
    let mut board = Board::new(2, 3, 1, 5);
    assert!(!board.is_full());
    for c in 0..3 {
        board.drop_piece(Color::Red, c).unwrap();
        assert!(!board.is_full());
        board.drop_piece(Color::Black, c).unwrap();
        let all_unavailable = (0..3).all(|k| !board.available_column(k));
        assert_eq!(board.is_full(), all_unavailable);
    }
    assert!(board.is_full());
}

#[test]
fn empty_dimensions_have_no_room() {
    let board = Board::new(0, 3, 1, 5);
    assert!(!board.available_column(0));
    assert!(board.is_full());
    assert_eq!(board.get_winning_color(4), None);
}

#[test]
fn horizontal_run_of_four_wins() {
    let mut board = Board::new(6, 7, 3, 7);
    drop_all(&mut board, &[(Color::Red, 0), (Color::Red, 1), (Color::Red, 2)]);
    assert_eq!(board.get_winning_color(4), None);
    drop_all(&mut board, &[(Color::Red, 3)]);
    assert_eq!(board.get_winning_color(4), Some(Color::Red));
}

#[test]
fn vertical_run_of_four_wins() {
    let mut board = Board::new(6, 7, 3, 7);
    drop_all(&mut board, &[(Color::Black, 4), (Color::Black, 4), (Color::Black, 4)]);
    assert_eq!(board.get_winning_color(4), None);
    drop_all(&mut board, &[(Color::Black, 4)]);
    assert_eq!(board.get_winning_color(4), Some(Color::Black));
}

#[test]
fn rising_diagonal_wins() {
    let mut board = Board::new(6, 7, 3, 7);
    drop_all(
        &mut board,
        &[
            (Color::Red, 0),
            (Color::Black, 1),
            (Color::Red, 1),
            (Color::Black, 2),
            (Color::Black, 2),
            (Color::Red, 2),
            (Color::Black, 3),
            (Color::Black, 3),
            (Color::Black, 3),
        ],
    );
    assert_eq!(board.get_winning_color(4), None);
    drop_all(&mut board, &[(Color::Red, 3)]);
    assert_eq!(board.get_winning_color(4), Some(Color::Red));
}

#[test]
fn falling_diagonal_wins() {
    let mut board = Board::new(6, 7, 3, 7);
    drop_all(
        &mut board,
        &[
            (Color::Black, 6),
            (Color::Red, 5),
            (Color::Black, 5),
            (Color::Red, 4),
            (Color::Red, 4),
            (Color::Black, 4),
            (Color::Red, 3),
            (Color::Red, 3),
            (Color::Red, 3),
        ],
    );
    assert_eq!(board.get_winning_color(4), None);
    drop_all(&mut board, &[(Color::Black, 3)]);
    assert_eq!(board.get_winning_color(4), Some(Color::Black));
}

#[test]
fn interrupted_run_does_not_win() {
    let mut board = Board::new(1, 5, 1, 7);
    drop_all(
        &mut board,
        &[(Color::Red, 0), (Color::Red, 1), (Color::Black, 2), (Color::Red, 3), (Color::Red, 4)],
    );
    assert_eq!(board.get_winning_color(4), None);
    assert_eq!(board.get_winning_color(2), Some(Color::Red));
}

#[test]
fn gap_resets_the_run() {
    let mut board = Board::new(2, 5, 1, 7);
    drop_all(&mut board, &[(Color::Red, 0), (Color::Red, 1), (Color::Red, 3), (Color::Red, 4)]);
    assert_eq!(board.get_winning_color(3), None);
    drop_all(&mut board, &[(Color::Red, 2)]);
    assert_eq!(board.get_winning_color(5), Some(Color::Red));
}

#[test]
fn rows_are_scanned_before_columns() {
    let mut board = Board::new(4, 4, 1, 7);
    drop_all(&mut board, &[(Color::Black, 0), (Color::Black, 0), (Color::Black, 0)]);
    drop_all(&mut board, &[(Color::Red, 1), (Color::Red, 2), (Color::Red, 3)]);
    assert_eq!(board.get_winning_color(3), Some(Color::Red));
}

#[test]
fn columns_are_scanned_left_to_right() {
    let mut board = Board::new(4, 4, 1, 7);
    drop_all(&mut board, &[(Color::Black, 0), (Color::Black, 0), (Color::Black, 0)]);
    drop_all(&mut board, &[(Color::Red, 1), (Color::Red, 1), (Color::Red, 1), (Color::Red, 1)]);
    drop_all(&mut board, &[(Color::Black, 2), (Color::Black, 3)]);
    assert_eq!(board.get_winning_color(3), Some(Color::Black));
}

#[test]
fn thresholds_below_two_never_win() {
    let mut board = Board::new(6, 7, 3, 7);
    drop_all(&mut board, &[(Color::Red, 0), (Color::Red, 0)]);
    assert_eq!(board.get_winning_color(1), None);
    assert_eq!(board.get_winning_color(0), None);
    assert_eq!(board.get_winning_color(2), Some(Color::Red));
}

#[test]
fn available_columns_lists_open_columns() {
    let mut board = Board::new(1, 4, 1, 7);
    drop_all(&mut board, &[(Color::Red, 1), (Color::Black, 3)]);
    assert_eq!(board.available_columns(), vec![0, 2]);
}

#[test]
fn stringify_draws_the_board() {
    let mut board = Board::new(1, 2, 3, 7);
    board.drop_piece(Color::Red, 0).unwrap();
    board.drop_piece(Color::Black, 1).unwrap();
    let expected = "-----------------\n\
                    |       |       |\n\
                    |  Red  | Black |\n\
                    |       |       |\n\
                    -----------------";
    assert_eq!(board.stringify(), Ok(expected.to_string()));
}

#[test]
fn stringify_odd_padding_goes_right_and_below() {
    let mut board = Board::new(2, 1, 2, 6);
    board.drop_piece(Color::Red, 0).unwrap();
    let expected = "--------\n\
                    |      |\n\
                    |      |\n\
                    --------\n\
                    | Red  |\n\
                    |      |\n\
                    --------";
    assert_eq!(board.stringify(), Ok(expected.to_string()));
}

#[test]
fn stringify_refuses_narrow_columns() {
    let mut board = Board::new(2, 2, 1, 4);
    assert!(board.stringify().is_ok());
    board.drop_piece(Color::Red, 0).unwrap();
    assert!(board.stringify().is_ok());
    board.drop_piece(Color::Black, 1).unwrap();
    assert_eq!(board.stringify(), Err(GameError::RenderingError));
}

#[test]
fn color_labels() {
    assert_eq!(Color::Red.label(), "Red");
    assert_eq!(Color::Black.label(), "Black");
    assert_eq!(Color::Black.label_len(), 5);
}
