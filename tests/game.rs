use connect_n::{Board, Color, Game, GameError, Outcome, Player, AMOUNT_TO_WIN};

/// Always asks for the same column.
struct Fixed {
    name: &'static str,
    column: usize,
}

impl Player for Fixed {
    fn get_column_index(&self, _board: &Board, _color: Color) -> Result<usize, String> {
        Ok(self.column)
    }

    fn get_name(&self) -> String {
        self.name.to_string()
    }
}

/// Asks for the leftmost available column.
struct Leftmost;

impl Player for Leftmost {
    fn get_column_index(&self, board: &Board, _color: Color) -> Result<usize, String> {
        (0..board.num_columns).find(|&c| board.available_column(c)).ok_or_else(|| "stuck".to_string())
    }

    fn get_name(&self) -> String {
        "left".to_string()
    }
}

/// Gives up at once.
struct Quitter;

impl Player for Quitter {
    fn get_column_index(&self, _board: &Board, _color: Color) -> Result<usize, String> {
        Err("gave up".to_string())
    }

    fn get_name(&self) -> String {
        "quitter".to_string()
    }
}

fn fixed(name: &'static str, column: usize) -> Fixed {
    Fixed { name, column }
}

#[test]
fn mismatched_lengths_are_refused() {
    let r = Game::new(None, vec![fixed("a", 0), fixed("b", 1)], vec![Color::Red]);
    assert!(matches!(r, Err(GameError::InvalidConfiguration)));
    let r = Game::new(None, vec![fixed("a", 0)], vec![Color::Red, Color::Black]);
    assert!(matches!(r, Err(GameError::InvalidConfiguration)));
    let r = Game::new(None, vec![fixed("a", 0), fixed("b", 1)], vec![Color::Red, Color::Black]);
    assert!(r.is_ok());
}

#[test]
fn new_game_has_default_board() {
    let game = Game::new(None, vec![fixed("a", 0)], vec![Color::Red]).ok().unwrap();
    let board = game.board();
    assert_eq!((board.num_rows, board.num_columns, board.row_height, board.column_width), (6, 7, 3, 7));
    assert!(board.data.iter().all(|row| row.iter().all(|c| c.is_none())));
    assert!(!game.started());
    assert!(!game.ended());
    assert!(game.winner_indices().is_none());
    assert_eq!(AMOUNT_TO_WIN, 4);
}

#[test]
fn new_game_keeps_given_board() {
    let mut board = Board::new(3, 4, 1, 5);
    board.drop_piece(Color::Black, 2).unwrap();
    let expected = board.data.clone();
    let game = Game::new(Some(board), vec![fixed("a", 0)], vec![Color::Red]).ok().unwrap();
    assert_eq!(game.board().num_rows, 3);
    assert_eq!(game.board().data, expected);
}

#[test]
fn resume_before_start_is_refused() {
    let mut game = Game::new(None, vec![fixed("a", 0)], vec![Color::Red]).ok().unwrap();
    assert_eq!(game.resume(), Err(GameError::LifecycleViolation));
    assert!(!game.started());
    assert!(game.board().data.iter().all(|row| row.iter().all(|c| c.is_none())));
}

#[test]
fn start_twice_and_after_end_is_refused() {
    let mut game = Game::new(None, vec![fixed("a", 0)], vec![Color::Red]).ok().unwrap();
    assert_eq!(game.start(), Ok(Outcome::Win(Color::Red)));
    assert!(game.started());
    assert!(game.ended());
    assert_eq!(game.start(), Err(GameError::LifecycleViolation));
    assert_eq!(game.resume(), Err(GameError::LifecycleViolation));
}

#[test]
fn start_on_started_game_is_refused() {
    let mut game = Game::new(None, vec![Quitter], vec![Color::Red]).ok().unwrap();
    assert_eq!(game.start(), Err(GameError::PlayerFailure("gave up".to_string())));
    assert!(game.started());
    assert!(!game.ended());
    assert_eq!(game.start(), Err(GameError::LifecycleViolation));
    assert_eq!(game.resume(), Err(GameError::PlayerFailure("gave up".to_string())));
}

#[test]
fn team_win_names_every_player_of_the_color() {
    let players = vec![fixed("A", 0), fixed("B", 1), fixed("C", 0), fixed("D", 1)];
    let colors = vec![Color::Red, Color::Black, Color::Red, Color::Black];
    let mut game = Game::new(None, players, colors).ok().unwrap();
    assert_eq!(game.start(), Ok(Outcome::Win(Color::Red)));
    assert_eq!(game.winner_indices(), Some(&vec![0, 2]));
    assert_eq!(game.current_player_index(), 2);
    assert_eq!(game.winner_names(), vec!["A".to_string(), "C".to_string()]);
    let board = game.board();
    for row in 2..6 {
        assert_eq!(board.data[row][0], Some(Color::Red));
    }
    for row in 3..6 {
        assert_eq!(board.data[row][1], Some(Color::Black));
    }
}

#[test]
fn full_column_choice_ends_with_error() {
    let mut game = Game::new(Some(Board::new(2, 2, 1, 5)), vec![fixed("a", 0), fixed("b", 0)], vec![
        Color::Red,
        Color::Black,
    ])
    .ok()
    .unwrap();
    assert_eq!(game.start(), Err(GameError::InvalidColumn));
    assert!(!game.ended());
    assert_eq!(game.current_player_index(), 0);
    assert_eq!(game.board().data[0][0], Some(Color::Black));
    assert_eq!(game.board().data[1][0], Some(Color::Red));
}

#[test]
fn filled_board_without_run_is_a_tie() {
    let mut game =
        Game::new(Some(Board::new(2, 2, 1, 5)), vec![Leftmost, Leftmost], vec![Color::Red, Color::Black])
            .ok()
            .unwrap();
    assert_eq!(game.start(), Ok(Outcome::Tie));
    assert!(game.ended());
    assert_eq!(game.current_player_index(), 1);
    assert!(game.winner_indices().is_none());
    assert!(game.board().is_full());
    assert!(game.winner_names().is_empty());
}

#[test]
fn game_without_players_cannot_run() {
    let mut game = Game::<Fixed>::new(None, vec![], vec![]).ok().unwrap();
    assert_eq!(game.start(), Err(GameError::InvalidConfiguration));
}

#[test]
fn game_stops_at_the_first_win() {
    let mut game = Game::new(Some(Board::new(6, 2, 1, 7)), vec![fixed("a", 0), fixed("b", 1)], vec![
        Color::Red,
        Color::Black,
    ])
    .ok()
    .unwrap();
    assert_eq!(game.start(), Ok(Outcome::Win(Color::Red)));
    let board = game.board();
    let pieces: usize = board.data.iter().map(|row| row.iter().filter(|c| c.is_some()).count()).sum();
    assert_eq!(pieces, 7);
    assert_eq!(board.data[5][1], Some(Color::Black));
    assert_eq!(board.data[3][1], Some(Color::Black));
    assert_eq!(board.data[2][1], None);
    assert_eq!(game.current_player_index(), 0);
}
