use tetris::board::{get_new_coords, initialize, Board, Movement};
use tetris::cell::{Cell, Fixed};
use tetris::tetromino::{new_tetro_of, TetroCell, Tetros};

fn fill_row(board: &mut Board, y: usize) {
    let w = board.cells[0].len();
    for x in 2..w - 2 {
        board.cells[y][x] = Cell::Tetro(0, 0);
    }
}

fn row_is_empty(board: &Board, y: usize) -> bool {
    let w = board.cells[0].len();
    (2..w - 2).all(|x| board.cells[y][x] == Cell::Inner)
}

#[test]
fn default_board_layout() {
    let b = Board::default();
    assert_eq!(b.cells.len(), 24);
    assert_eq!(b.cells[0].len(), 14);
    assert!(b.cells[0].iter().all(|c| *c == Cell::Top));
    assert!(b.cells[1].iter().all(|c| *c == Cell::Top));
    assert!(b.cells[22].iter().all(|c| *c == Cell::Bottom));
    assert!(b.cells[23].iter().all(|c| *c == Cell::Bottom));
    assert_eq!(b.cells[5][0], Cell::Left);
    assert_eq!(b.cells[5][1], Cell::Left);
    assert_eq!(b.cells[5][12], Cell::Right);
    assert_eq!(b.cells[5][13], Cell::Right);
    assert_eq!(b.cells[5][2], Cell::Inner);
    assert!(b.current_tetro.is_empty());
}

#[test]
fn initialize_small_grid() {
    let g = initialize(5, 5);
    assert_eq!(g[2], vec![Cell::Left, Cell::Left, Cell::Inner, Cell::Right, Cell::Right]);
    assert_eq!(g[3], vec![Cell::Bottom; 5]);
}

#[test]
fn new_coords_moves_both_ways() {
    assert_eq!(get_new_coords((5, 5), (-2, 1)), (3, 6));
    assert_eq!(get_new_coords((0, 7), (2, -7)), (2, 0));
}

#[test]
fn is_line_detects_full_row() {
    let mut b = Board::default();
    assert!(!b.is_line(21));
    fill_row(&mut b, 21);
    assert!(b.is_line(21));
    b.cells[21][7] = Cell::Inner;
    assert!(!b.is_line(21));
}

#[test]
fn clear_line_shifts_rows_above_down() {
    let mut b = Board::default();
    fill_row(&mut b, 21);
    b.cells[20][4] = Cell::Tetro(1, 1);
    b.cells[2][9] = Cell::Tetro(0, 1);
    b.clear_line(21);
    assert!(row_is_empty(&b, 2));
    assert_eq!(b.cells[21][4], Cell::Tetro(1, 1));
    assert_eq!(b.cells[3][9], Cell::Tetro(0, 1));
    assert_eq!(b.cells[21][0], Cell::Left);
    assert_eq!(b.cells[21][13], Cell::Right);
    assert!(b.cells[22].iter().all(|c| *c == Cell::Bottom));
}

#[test]
fn check_lines_clears_one_full_row() {
    let mut b = Board::default();
    fill_row(&mut b, 21);
    b.cells[20][3] = Cell::Tetro(0, 0);
    assert_eq!(b.check_lines(), 1);
    assert_eq!(b.cells[21][3], Cell::Tetro(0, 0));
    assert!(row_is_empty(&b, 20));
    assert!((2..12).filter(|&x| x != 3).all(|x| b.cells[21][x] == Cell::Inner));
}

#[test]
fn check_lines_counts_simultaneous_rows() {
    let mut b = Board::default();
    fill_row(&mut b, 21);
    fill_row(&mut b, 20);
    fill_row(&mut b, 19);
    b.cells[18][5] = Cell::Tetro(0, 0);
    assert_eq!(b.check_lines(), 3);
    assert_eq!(b.cells[21][5], Cell::Tetro(0, 0));
    for y in 2..21 {
        assert!(row_is_empty(&b, y));
    }
}

#[test]
fn check_lines_with_gap_between_full_rows() {
    let mut b = Board::default();
    fill_row(&mut b, 21);
    b.cells[20][2] = Cell::Tetro(0, 0);
    fill_row(&mut b, 19);
    assert_eq!(b.check_lines(), 2);
    assert_eq!(b.cells[21][2], Cell::Tetro(0, 0));
    for y in 2..21 {
        assert!(row_is_empty(&b, y));
    }
}

#[test]
fn check_lines_on_empty_board_is_zero() {
    let mut b = Board::default();
    assert_eq!(b.check_lines(), 0);
}

#[test]
fn full_top_row_alone_is_not_cleared() {
    let mut b = Board::default();
    fill_row(&mut b, 2);
    assert_eq!(b.check_lines(), 0);
    assert!(b.is_line(2));
}

#[test]
fn clear_lines_from_index() {
    let mut b = Board::default();
    fill_row(&mut b, 10);
    fill_row(&mut b, 9);
    assert_eq!(b.clear_lines(10), 2);
    assert!(row_is_empty(&b, 10));
    assert!(row_is_empty(&b, 9));
}

#[test]
fn spawn_on_empty_board_is_active() {
    let mut b = Board::default();
    b.spawn_tetromino(Tetros::I);
    assert_eq!(b.current_tetro.len(), 4);
    assert!(b.current_tetro.iter().all(|e| matches!(e.cell, Cell::Tetro(_, _))));
    let mut coords: Vec<(usize, usize)> = b.current_tetro.iter().map(|e| e.coords).collect();
    coords.sort();
    assert_eq!(coords, vec![(6, 3), (7, 3), (8, 3), (9, 3)]);
}

#[test]
fn spawn_on_occupied_cell_clashes_in_front() {
    let mut b = Board::default();
    b.cells[3][8] = Cell::Tetro(0, 0);
    b.spawn_tetromino(Tetros::I);
    assert_eq!(b.current_tetro[0].cell, Cell::Clash(Fixed::Inner));
    assert_eq!(b.current_tetro[0].coords, (8, 3));
}

#[test]
fn new_tetromino_spawns_four_cells() {
    let mut b = Board::default();
    b.new_tetromino();
    assert_eq!(b.current_tetro.len(), 4);
}

#[test]
fn simulate_translations() {
    let mut b = Board::default();
    let start = new_tetro_of(Tetros::T);
    for (m, (dx, dy)) in [(Movement::Left, (-1isize, 0isize)), (Movement::Right, (1, 0)), (Movement::Down, (0, 1))] {
        let mut f = start.clone();
        b.simulate_move(&mut f, &m);
        for (a, s) in f.iter().zip(start.iter()) {
            assert_eq!(a.cell, s.cell);
            assert_eq!(a.coords, ((s.coords.0 as isize + dx) as usize, (s.coords.1 as isize + dy) as usize));
        }
    }
}

#[test]
fn simulate_rotation_of_i_piece() {
    let mut b = Board::default();
    let mut f = new_tetro_of(Tetros::I);
    b.simulate_move(&mut f, &Movement::Rotate);
    let coords: Vec<(usize, usize)> = f.iter().map(|e| e.coords).collect();
    assert_eq!(coords, vec![(7, 2), (7, 3), (7, 4), (7, 5)]);
    assert_eq!(f[0].cell, Cell::Tetro(1, 1));
    assert_eq!(f[3].cell, Cell::Tetro(-2, -2));
}

#[test]
fn simulate_into_border_clashes() {
    let mut b = Board::default();
    let mut f = vec![TetroCell { cell: Cell::Tetro(0, 0), coords: (2, 5) }];
    b.simulate_move(&mut f, &Movement::Left);
    assert_eq!(f[0].cell, Cell::Clash(Fixed::Left));
    assert_eq!(f[0].coords, (1, 5));
}

#[test]
fn mark_top_clash_marks_every_cell() {
    let mut b = Board::default();
    b.spawn_tetromino(Tetros::S);
    b.mark_top_clash();
    assert!(b.current_tetro.iter().all(|e| e.cell == Cell::Clash(Fixed::Top)));
}

#[test]
fn mark_tetro_writes_piece_and_empties_it() {
    let mut b = Board::default();
    b.spawn_tetromino(Tetros::O);
    b.mark_tetro();
    assert!(b.current_tetro.is_empty());
    for (x, y) in [(6, 3), (7, 3), (6, 4), (7, 4)] {
        assert_eq!(b.cells[y][x], Cell::Tetro(0, 0));
    }
    assert_eq!(b.cells[5][6], Cell::Inner);
}

#[test]
fn spawn_on_occupied_area_clashes_everywhere() {
    for k in [Tetros::I, Tetros::O, Tetros::T, Tetros::J, Tetros::L, Tetros::S, Tetros::Z] {
        let mut b = Board::default();
        for y in 3..5 {
            for x in 6..10 {
                b.cells[y][x] = Cell::Tetro(0, 0);
            }
        }
        b.spawn_tetromino(k);
        assert_eq!(b.current_tetro.len(), 4);
        assert!(b.current_tetro.iter().all(|e| e.cell == Cell::Clash(Fixed::Inner)));
    }
}

#[test]
fn spawn_keeps_table_order_of_active_cells() {
    let mut b = Board::default();
    b.spawn_tetromino(Tetros::O);
    assert_eq!(b.current_tetro, new_tetro_of(Tetros::O));
}

#[test]
fn simulate_large_delta_rotation() {
    let mut b = Board::default();
    let mut f = vec![TetroCell { cell: Cell::Tetro(-4, 0), coords: (9, 5) }];
    b.simulate_move(&mut f, &Movement::Rotate);
    assert_eq!(f[0].coords, (5, 5));
    assert_eq!(f[0].cell, Cell::Tetro(0, -4));
}

#[test]
fn simulate_from_border_cell() {
    let mut b = Board::default();
    let mut f = vec![TetroCell { cell: Cell::Tetro(0, 0), coords: (1, 5) }];
    b.simulate_move(&mut f, &Movement::Right);
    assert_eq!(f[0].coords, (2, 5));
    assert_eq!(f[0].cell, Cell::Tetro(0, 0));
}
