use connect_n::{announcement, join_names, AIPlayer, Board, ChoiceError, Color, Game, Outcome, Player, TerminalPlayer};

#[test]
fn typed_numbers_count_columns_from_one() {
    let board = Board::new(6, 7, 3, 7);
    assert_eq!(TerminalPlayer::read_choice(&board, "3\n"), Ok(2));
    assert_eq!(TerminalPlayer::read_choice(&board, "  1 \n"), Ok(0));
    assert_eq!(TerminalPlayer::read_choice(&board, "7"), Ok(6));
    assert_eq!(TerminalPlayer::read_choice(&board, "+3"), Ok(2));
    assert_eq!(TerminalPlayer::read_choice(&board, "03"), Ok(2));
}

#[test]
fn typed_text_that_is_no_number_is_refused() {
    let board = Board::new(6, 7, 3, 7);
    assert_eq!(TerminalPlayer::read_choice(&board, "abc\n"), Err(ChoiceError::NotANumber));
    assert_eq!(TerminalPlayer::read_choice(&board, "\n"), Err(ChoiceError::NotANumber));
    assert_eq!(TerminalPlayer::read_choice(&board, "-1"), Err(ChoiceError::NotANumber));
    assert_eq!(TerminalPlayer::read_choice(&board, "+"), Err(ChoiceError::NotANumber));
    assert_eq!(TerminalPlayer::read_choice(&board, "1 2"), Err(ChoiceError::NotANumber));
    assert_eq!(
        TerminalPlayer::read_choice(&board, "99999999999999999999999999"),
        Err(ChoiceError::NotANumber)
    );
}

#[test]
fn typed_numbers_outside_the_board_are_refused() {
    let mut board = Board::new(1, 7, 3, 7);
    assert_eq!(TerminalPlayer::read_choice(&board, "0"), Err(ChoiceError::UnavailableColumn));
    assert_eq!(TerminalPlayer::read_choice(&board, "8"), Err(ChoiceError::UnavailableColumn));
    board.drop_piece(Color::Red, 3).unwrap();
    assert_eq!(TerminalPlayer::read_choice(&board, "4"), Err(ChoiceError::UnavailableColumn));
    assert_eq!(TerminalPlayer::interpret(&board, Some(5)), Ok(4));
    assert_eq!(TerminalPlayer::interpret(&board, None), Err(ChoiceError::NotANumber));
}

#[test]
fn terminal_player_keeps_its_name() {
    let p = TerminalPlayer::new("Player 1".to_string());
    assert_eq!(p.get_name(), "Player 1");
}

#[test]
fn draw_picks_among_available_columns() {
    let mut board = Board::new(1, 4, 1, 7);
    board.drop_piece(Color::Red, 0).unwrap();
    board.drop_piece(Color::Red, 2).unwrap();
    assert_eq!(AIPlayer::column_for_draw(&board, 0), Some(1));
    assert_eq!(AIPlayer::column_for_draw(&board, 1), Some(3));
    assert_eq!(AIPlayer::column_for_draw(&board, 2), Some(1));
    board.drop_piece(Color::Red, 1).unwrap();
    board.drop_piece(Color::Red, 3).unwrap();
    assert_eq!(AIPlayer::column_for_draw(&board, 5), None);
}

#[test]
fn random_player_only_chooses_available_columns() {
    let mut board = Board::new(1, 5, 1, 7);
    board.drop_piece(Color::Red, 0).unwrap();
    board.drop_piece(Color::Red, 1).unwrap();
    board.drop_piece(Color::Red, 4).unwrap();
    let bot = AIPlayer::new("Bot".to_string());
    for _ in 0..50 {
        let c = bot.get_column_index(&board, Color::Black).unwrap();
        assert!(c == 2 || c == 3);
    }
    assert_eq!(bot.get_name(), "Bot");
    board.drop_piece(Color::Red, 2).unwrap();
    board.drop_piece(Color::Red, 3).unwrap();
    assert!(bot.get_column_index(&board, Color::Black).is_err());
}

#[test]
fn random_players_finish_a_game() {
    let players = vec![
        AIPlayer::new("Bot 1".to_string()),
        AIPlayer::new("Bot 2".to_string()),
        AIPlayer::new("Bot 3".to_string()),
        AIPlayer::new("Bot 4".to_string()),
    ];
    let colors = vec![Color::Red, Color::Black, Color::Red, Color::Black];
    let mut game = Game::new(None, players, colors).ok().unwrap();
    let outcome = game.start().unwrap();
    assert!(game.ended());
    match outcome {
        Outcome::Win(c) => {
            assert_eq!(game.board().get_winning_color(4), Some(c));
            let expected = if c == Color::Red { vec![0, 2] } else { vec![1, 3] };
            assert_eq!(game.winner_indices(), Some(&expected));
        }
        Outcome::Tie => {
            assert!(game.board().is_full());
            assert_eq!(game.board().get_winning_color(4), None);
        }
    }
}

fn names(list: &[&str]) -> Vec<String> {
    list.iter().map(|s| s.to_string()).collect()
}

#[test]
fn names_are_joined_as_a_sentence_lists_them() {
    assert_eq!(join_names(&names(&[])), "");
    assert_eq!(join_names(&names(&["A"])), "A");
    assert_eq!(join_names(&names(&["A", "B"])), "A and B");
    assert_eq!(join_names(&names(&["A", "B", "C"])), "A, B, and C");
    assert_eq!(join_names(&names(&["A", "B", "C", "D"])), "A, B, C, and D");
}

#[test]
fn outcomes_are_announced() {
    assert_eq!(announcement(Outcome::Win(Color::Red), &names(&["Ann"])), "Red (Ann) wins!");
    assert_eq!(announcement(Outcome::Win(Color::Black), &names(&["A", "B"])), "Black team (A and B) wins!");
    assert_eq!(announcement(Outcome::Tie, &names(&[])), "Tie.");
}
