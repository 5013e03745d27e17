use tetris::board::Movement;
use tetris::cell::{Cell, Fixed};
use tetris::game::{speed_ms, App, Command, GameState};
use tetris::tetromino::Tetros;

fn fill_row(app: &mut App, y: usize) {
    for x in 2..12 {
        app.board.cells[y][x] = Cell::Tetro(0, 0);
    }
}

fn sorted_coords(app: &App) -> Vec<(usize, usize)> {
    let mut c: Vec<(usize, usize)> = app.board.current_tetro.iter().map(|e| e.coords).collect();
    c.sort();
    c
}

#[test]
fn speed_curve() {
    assert_eq!(speed_ms(0), 700);
    assert_eq!(speed_ms(9), 700);
    assert_eq!(speed_ms(10), 650);
    assert_eq!(speed_ms(95), 250);
    assert_eq!(speed_ms(110), 150);
    assert_eq!(speed_ms(1000), 150);
}

#[test]
fn current_speed_follows_pieces_played() {
    let mut app = App::new();
    app.tetros_played = 95;
    assert_eq!(app.current_speed(), 250);
}

#[test]
fn new_game_starts_by_spawning() {
    let mut app = App::new();
    assert_eq!(app.state, GameState::NewTetromino);
    app.advance(100, Tetros::T);
    assert_eq!(app.state, GameState::Moving(100));
    assert_eq!(app.tetros_played, 1);
    app.process_state(200);
    assert_eq!(app.state, GameState::Moving(100));
}

#[test]
fn o_piece_rotates_in_place() {
    let mut app = App::new();
    app.advance(0, Tetros::O);
    let before = sorted_coords(&app);
    assert!(app.attempt_move(Movement::Rotate));
    assert_eq!(sorted_coords(&app), before);
    app.process_key(Command::Rotate, 0);
    assert_eq!(sorted_coords(&app), before);
}

#[test]
fn piece_falls_after_speed_elapses() {
    let mut app = App::new();
    app.advance(0, Tetros::O);
    app.advance(699, Tetros::O);
    assert_eq!(sorted_coords(&app), vec![(6, 3), (6, 4), (7, 3), (7, 4)]);
    app.advance(700, Tetros::O);
    assert_eq!(app.state, GameState::Moving(700));
    assert_eq!(sorted_coords(&app), vec![(6, 4), (6, 5), (7, 4), (7, 5)]);
}

#[test]
fn left_and_right_commands_move_piece() {
    let mut app = App::new();
    app.advance(0, Tetros::O);
    app.process_key(Command::MoveLeft, 0);
    assert_eq!(sorted_coords(&app), vec![(5, 3), (5, 4), (6, 3), (6, 4)]);
    app.process_key(Command::MoveRight, 0);
    app.process_key(Command::MoveRight, 0);
    assert_eq!(sorted_coords(&app), vec![(7, 3), (7, 4), (8, 3), (8, 4)]);
}

#[test]
fn move_into_wall_fails() {
    let mut app = App::new();
    app.advance(0, Tetros::O);
    for _ in 0..4 {
        assert!(app.attempt_move(Movement::Left));
    }
    assert!(!app.attempt_move(Movement::Left));
    assert_eq!(sorted_coords(&app), vec![(2, 3), (2, 4), (3, 3), (3, 4)]);
}

#[test]
fn hard_drop_lands_and_locks() {
    let mut app = App::new();
    app.advance(0, Tetros::O);
    app.process_key(Command::HardDrop, 0);
    assert_eq!(app.state, GameState::Spacing);
    let mut ticks = 0;
    while app.state == GameState::Spacing {
        app.advance(0, Tetros::O);
        ticks += 1;
        assert!(ticks < 100);
    }
    assert_eq!(app.state, GameState::NewTetromino);
    for (x, y) in [(6, 20), (7, 20), (6, 21), (7, 21)] {
        assert_eq!(app.board.cells[y][x], Cell::Tetro(0, 0));
    }
}

#[test]
fn soft_drop_moves_down() {
    let mut app = App::new();
    app.advance(0, Tetros::O);
    app.process_key(Command::SoftDrop, 42);
    assert_eq!(app.state, GameState::Moving(42));
    assert_eq!(sorted_coords(&app), vec![(6, 4), (6, 5), (7, 4), (7, 5)]);
}

#[test]
fn lone_i_piece_lands_on_floor() {
    let mut app = App::new();
    app.advance(0, Tetros::I);
    let mut drops = 0;
    while app.attempt_move(Movement::Down) {
        drops += 1;
    }
    assert_eq!(drops, 18);
    assert_eq!(sorted_coords(&app), vec![(6, 21), (7, 21), (8, 21), (9, 21)]);
    app.board.mark_tetro();
    for x in 6..10 {
        assert!(matches!(app.board.cells[21][x], Cell::Tetro(_, _)));
    }
    let occupied = (2..22)
        .flat_map(|y| (2..12).map(move |x| (x, y)))
        .filter(|&(x, y)| app.board.cells[y][x] != Cell::Inner)
        .count();
    assert_eq!(occupied, 4);
    assert_eq!(app.board.check_lines(), 0);
}

#[test]
fn full_rows_at_spawn_are_cleared_before_game_over() {
    let mut app = App::new();
    fill_row(&mut app, 3);
    fill_row(&mut app, 4);
    app.advance(0, Tetros::I);
    assert_eq!(app.state, GameState::NewTetromino);
    assert_eq!(app.lines_cleared, 2);
    app.advance(5, Tetros::I);
    assert_eq!(app.state, GameState::Moving(5));
    assert_eq!(app.tetros_played, 2);
}

#[test]
fn blocked_spawn_without_full_row_is_game_over() {
    let mut app = App::new();
    for x in 3..12 {
        app.board.cells[3][x] = Cell::Tetro(0, 0);
    }
    app.advance(0, Tetros::I);
    assert_eq!(app.state, GameState::GameOver);
    assert!(app.board.current_tetro.iter().all(|e| e.cell == Cell::Clash(Fixed::Top)));
    app.advance(10, Tetros::I);
    assert_eq!(app.state, GameState::GameOver);
    app.process_key(Command::MoveLeft, 10);
    assert_eq!(app.state, GameState::GameOver);
    app.process_key(Command::RestartGame, 10);
    assert_eq!(app.state, GameState::Restart);
    app.advance(20, Tetros::I);
    assert_eq!(app.state, GameState::NewTetromino);
    assert_eq!(app.tetros_played, 0);
    assert_eq!(app.lines_cleared, 0);
    assert_eq!(app.board.cells[3][5], Cell::Inner);
}

#[test]
fn restart_ignored_while_moving() {
    let mut app = App::new();
    app.advance(0, Tetros::L);
    app.process_key(Command::RestartGame, 0);
    assert_eq!(app.state, GameState::Moving(0));
}

#[test]
fn completed_row_counts_toward_lines() {
    let mut app = App::new();
    for x in 2..12 {
        if x < 6 || x > 9 {
            app.board.cells[21][x] = Cell::Tetro(0, 0);
        }
    }
    app.advance(0, Tetros::I);
    app.process_key(Command::HardDrop, 0);
    while app.state == GameState::Spacing {
        app.advance(0, Tetros::I);
    }
    assert_eq!(app.lines_cleared, 1);
    assert!((2..12).all(|x| app.board.cells[21][x] == Cell::Inner));
}
