use tetris::cell::{Cell, Fixed};
use tetris::tetromino::{cell_before, new_tetro, new_tetro_of, sort_tetro, to_points_vec, TetroCell, Tetros};

const ALL: [Tetros; 7] = [Tetros::I, Tetros::O, Tetros::T, Tetros::J, Tetros::L, Tetros::S, Tetros::Z];

#[test]
fn i_piece_table() {
    assert_eq!(
        to_points_vec(Tetros::I),
        vec![((6, 3), (1, -1)), ((7, 3), (0, 0)), ((8, 3), (-1, 1)), ((9, 3), (-2, 2))]
    );
}

#[test]
fn z_piece_table() {
    assert_eq!(
        to_points_vec(Tetros::Z),
        vec![((6, 3), (2, 0)), ((7, 3), (1, 1)), ((7, 4), (0, 0)), ((8, 4), (-1, 1))]
    );
}

#[test]
fn o_piece_has_zero_deltas() {
    let t = new_tetro_of(Tetros::O);
    assert_eq!(t.len(), 4);
    for el in &t {
        assert_eq!(el.cell, Cell::Tetro(0, 0));
    }
}

#[test]
fn every_piece_has_four_active_cells() {
    for k in ALL {
        let t = new_tetro_of(k);
        assert_eq!(t.len(), 4);
        for el in &t {
            assert!(matches!(el.cell, Cell::Tetro(_, _)));
        }
    }
}

#[test]
fn random_piece_is_one_of_the_shapes() {
    for _ in 0..50 {
        let t = new_tetro();
        assert!(ALL.iter().any(|k| new_tetro_of(*k) == t));
    }
}

#[test]
fn random_shape_is_a_shape() {
    for _ in 0..50 {
        let k = Tetros::random();
        assert!(ALL.contains(&k));
    }
}

#[test]
fn shape_from_index_follows_order() {
    assert_eq!(Tetros::from_index(0), Tetros::I);
    assert_eq!(Tetros::from_index(1), Tetros::O);
    assert_eq!(Tetros::from_index(6), Tetros::Z);
}

#[test]
fn sort_puts_clash_first() {
    let mut t = vec![
        TetroCell { cell: Cell::Tetro(1, 1), coords: (2, 2) },
        TetroCell { cell: Cell::Tetro(0, 0), coords: (3, 2) },
        TetroCell { cell: Cell::Clash(Fixed::Inner), coords: (4, 2) },
        TetroCell { cell: Cell::Tetro(-1, 1), coords: (5, 2) },
    ];
    sort_tetro(&mut t);
    assert_eq!(t[0].cell, Cell::Clash(Fixed::Inner));
    assert_eq!(t[0].coords, (4, 2));
    assert_eq!(t[1].cell, Cell::Tetro(1, 1));
    assert_eq!(t[2].cell, Cell::Tetro(0, 0));
    assert_eq!(t[3].cell, Cell::Tetro(-1, 1));
}

#[test]
fn sort_ranks_clash_then_active_then_static() {
    let mut t = vec![
        TetroCell { cell: Cell::Left, coords: (1, 1) },
        TetroCell { cell: Cell::Tetro(0, 2), coords: (2, 1) },
        TetroCell { cell: Cell::Clash(Fixed::Top), coords: (3, 1) },
        TetroCell { cell: Cell::Tetro(0, -1), coords: (4, 1) },
        TetroCell { cell: Cell::Clash(Fixed::Left), coords: (5, 1) },
        TetroCell { cell: Cell::Top, coords: (6, 1) },
    ];
    sort_tetro(&mut t);
    let coords: Vec<(usize, usize)> = t.iter().map(|e| e.coords).collect();
    assert_eq!(coords, vec![(3, 1), (5, 1), (2, 1), (4, 1), (1, 1), (6, 1)]);
}

#[test]
fn sort_puts_active_before_static() {
    let mut t = vec![
        TetroCell { cell: Cell::Tetro(0, 0), coords: (2, 2) },
        TetroCell { cell: Cell::Left, coords: (1, 2) },
    ];
    sort_tetro(&mut t);
    assert_eq!(t[0].cell, Cell::Tetro(0, 0));
    assert_eq!(t[1].cell, Cell::Left);
}

#[test]
fn sort_keeps_active_cells_in_input_order() {
    let mut t = vec![
        TetroCell { cell: Cell::Tetro(-1, 1), coords: (2, 2) },
        TetroCell { cell: Cell::Tetro(2, 0), coords: (3, 2) },
        TetroCell { cell: Cell::Tetro(0, 0), coords: (4, 2) },
    ];
    let before = t.clone();
    sort_tetro(&mut t);
    assert_eq!(t, before);
}

#[test]
fn sort_without_clash_keeps_active_front() {
    let mut t = new_tetro_of(Tetros::T);
    sort_tetro(&mut t);
    assert!(matches!(t[0].cell, Cell::Tetro(_, _)));
}

#[test]
fn cell_before_orders_variants() {
    assert!(cell_before(&Cell::Left, &Cell::Tetro(9, 9)));
    assert!(cell_before(&Cell::Tetro(0, 0), &Cell::Clash(Fixed::Left)));
    assert!(cell_before(&Cell::Top, &Cell::Clash(Fixed::Left)));
    assert!(!cell_before(&Cell::Clash(Fixed::Top), &Cell::Clash(Fixed::Left)));
    assert!(!cell_before(&Cell::Tetro(0, 0), &Cell::Tetro(1, 1)));
}

#[test]
fn random_shapes_vary() {
    let first = Tetros::random();
    let mut other = false;
    for _ in 0..300 {
        if Tetros::random() != first {
            other = true;
        }
    }
    assert!(other);
}

#[test]
fn sort_keeps_order_of_equal_cells() {
    let mut t = vec![
        TetroCell { cell: Cell::Tetro(0, 0), coords: (9, 9) },
        TetroCell { cell: Cell::Clash(Fixed::Inner), coords: (1, 1) },
        TetroCell { cell: Cell::Tetro(0, 0), coords: (3, 3) },
        TetroCell { cell: Cell::Clash(Fixed::Inner), coords: (2, 2) },
    ];
    sort_tetro(&mut t);
    let coords: Vec<(usize, usize)> = t.iter().map(|e| e.coords).collect();
    assert_eq!(coords, vec![(1, 1), (2, 2), (9, 9), (3, 3)]);
}
