use tetris::cell::{Cell, CellError, Fixed, Shade};

#[test]
fn combine_inner_with_active_keeps_delta() {
    assert_eq!(Cell::Inner.add(Cell::Tetro(1, -1)), Ok(Cell::Tetro(1, -1)));
}

#[test]
fn combine_active_with_active_clashes_inner() {
    assert_eq!(Cell::Tetro(0, 0).add(Cell::Tetro(2, 1)), Ok(Cell::Clash(Fixed::Inner)));
}

#[test]
fn combine_borders_clash_with_their_kind() {
    assert_eq!(Cell::Top.add(Cell::Tetro(0, 0)), Ok(Cell::Clash(Fixed::Top)));
    assert_eq!(Cell::Bottom.add(Cell::Tetro(0, 0)), Ok(Cell::Clash(Fixed::Bottom)));
    assert_eq!(Cell::Left.add(Cell::Tetro(0, 0)), Ok(Cell::Clash(Fixed::Left)));
    assert_eq!(Cell::Right.add(Cell::Tetro(0, 0)), Ok(Cell::Clash(Fixed::Right)));
}

#[test]
fn combine_undefined_pairs_fail() {
    assert_eq!(Cell::Clash(Fixed::Top).add(Cell::Tetro(0, 0)), Err(CellError::InvalidCombination));
    assert_eq!(Cell::Inner.add(Cell::Inner), Err(CellError::InvalidCombination));
    assert_eq!(Cell::Tetro(1, 1).add(Cell::Top), Err(CellError::InvalidCombination));
    assert_eq!(Cell::Inner.add(Cell::Clash(Fixed::Inner)), Err(CellError::InvalidCombination));
}

#[test]
fn rotate_turns_delta_a_quarter() {
    let mut c = Cell::Tetro(1, -2);
    assert_eq!(c.rotate(), Ok(Cell::Tetro(2, 1)));
    assert_eq!(c, Cell::Tetro(1, -2));
}

#[test]
fn rotate_four_times_is_identity() {
    for &(dx, dy) in &[(1isize, -1isize), (0, 0), (-2, 2), (2, 0), (0, -2), (5, 7)] {
        let mut c = Cell::Tetro(dx, dy);
        for _ in 0..4 {
            c = c.rotate().unwrap();
        }
        assert_eq!(c, Cell::Tetro(dx, dy));
    }
}

#[test]
fn rotate_static_cell_fails() {
    let mut c = Cell::Left;
    assert_eq!(c.rotate(), Err(CellError::NotRotatable));
    let mut k = Cell::Clash(Fixed::Top);
    assert_eq!(k.rotate(), Err(CellError::NotRotatable));
}

#[test]
fn shades_of_cells() {
    assert_eq!(Cell::Inner.render_shade(), Ok(Shade::Light));
    assert_eq!(Cell::Top.render_shade(), Ok(Shade::Light));
    assert_eq!(Cell::Tetro(0, 0).render_shade(), Ok(Shade::Dark));
    assert_eq!(Cell::Clash(Fixed::Top).render_shade(), Ok(Shade::Mid));
    assert_eq!(Cell::Clash(Fixed::Inner).render_shade(), Ok(Shade::Mid));
    assert_eq!(Cell::Clash(Fixed::Left).render_shade(), Err(CellError::NotRenderable));
}
