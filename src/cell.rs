use vstd::prelude::*;

verus! {

/// The static cell kinds that a falling cell can run into.
#[derive(Copy, Clone, PartialEq, Eq, Structural, Debug)]
pub enum Fixed {
    Left,
    Right,
    Bottom,
    Inner,
    Top,
}

/// One square of the grid, or of the falling piece.
#[derive(Copy, Clone, PartialEq, Eq, Structural, Debug)]
pub enum Cell {
    /// A cell of the falling piece, with its rotation vector `(dx, dy)`.
    Tetro(isize, isize),
    Left,
    Right,
    Bottom,
    Inner,
    Top,
    Clash(Fixed),
}

/// The ways a cell operation can be outside its domain.
#[derive(Copy, Clone, PartialEq, Eq, Structural, Debug)]
pub enum CellError {
    InvalidCombination,
    NotRotatable,
    NotRenderable,
}

/// The shade a cell is drawn with.
#[derive(Copy, Clone, PartialEq, Eq, Structural, Debug)]
pub enum Shade {
    Light,
    Dark,
    Mid,
}

/// The combination algebra: what a moving cell becomes on top of a board cell.
pub open spec fn combine(board: Cell, moving: Cell) -> Option<Cell> {
    match moving {
        Cell::Tetro(dx, dy) => match board {
            Cell::Inner => Some(Cell::Tetro(dx, dy)),
            Cell::Tetro(_, _) => Some(Cell::Clash(Fixed::Inner)),
            Cell::Bottom => Some(Cell::Clash(Fixed::Bottom)),
            Cell::Left => Some(Cell::Clash(Fixed::Left)),
            Cell::Right => Some(Cell::Clash(Fixed::Right)),
            Cell::Top => Some(Cell::Clash(Fixed::Top)),
            Cell::Clash(_) => None,
        },
        _ => None,
    }
}

/// A quarter turn of a rotation vector: `(dx, dy)` becomes `(-dy, dx)`.
pub open spec fn rot(d: (int, int)) -> (int, int) {
    (-d.1, d.0)
}

/// The rotation vector of a cell, as integers.
pub open spec fn delta_of(c: Cell) -> (int, int) {
    match c {
        Cell::Tetro(dx, dy) => (dx as int, dy as int),
        _ => (0, 0),
    }
}

/// Whether a rotation vector stays within two squares on each axis.
pub open spec fn small_delta(d: (int, int)) -> bool {
    -2 <= d.0 <= 2 && -2 <= d.1 <= 2
}

/// What `rotate` yields for a cell.
pub open spec fn rotation_of(c: Cell) -> Option<Cell> {
    match c {
        Cell::Tetro(dx, dy) => Some(Cell::Tetro((-dy) as isize, dx)),
        _ => None,
    }
}

/// The shade of a cell, where it has one.
pub open spec fn shade_of(c: Cell) -> Option<Shade> {
    match c {
        Cell::Tetro(_, _) => Some(Shade::Dark),
        Cell::Clash(Fixed::Top) => Some(Shade::Mid),
        Cell::Clash(Fixed::Inner) => Some(Shade::Mid),
        Cell::Clash(_) => None,
        _ => Some(Shade::Light),
    }
}

/// Turns an optional value into a result with the given error.
pub open spec fn or_err<T>(o: Option<T>, e: CellError) -> Result<T, CellError> {
    match o {
        Some(v) => Ok(v),
        None => Err(e),
    }
}

/// Rotating a vector four times gives it back.
pub proof fn lemma_rot_four_times(d: (int, int))
    ensures
        rot(rot(rot(rot(d)))) == d,
{
}

/// Rotating an active cell four times gives the same cell back, wherever no
/// component is the least `isize`.
pub proof fn lemma_rotate_four_times(dx: isize, dy: isize)
    requires
        dx > isize::MIN,
        dy > isize::MIN,
    ensures
        rotation_of(rotation_of(rotation_of(rotation_of(Cell::Tetro(dx, dy)).unwrap()).unwrap()).unwrap())
            == Some(Cell::Tetro(dx, dy)),
        delta_of(rotation_of(Cell::Tetro(dx, dy)).unwrap()) == rot(delta_of(Cell::Tetro(dx, dy))),
{
}

impl Cell {
    /// Combines a board cell (`self`) with a moving cell (`other`).
    pub fn add(self, other: Cell) -> (r: Result<Cell, CellError>)
        ensures
            r == or_err(combine(self, other), CellError::InvalidCombination),
    {
        match (self, other) {
            (Cell::Inner, Cell::Tetro(dx, dy)) => Ok(Cell::Tetro(dx, dy)),
            (Cell::Tetro(_, _), Cell::Tetro(_, _)) => Ok(Cell::Clash(Fixed::Inner)),
            (Cell::Bottom, Cell::Tetro(_, _)) => Ok(Cell::Clash(Fixed::Bottom)),
            (Cell::Left, Cell::Tetro(_, _)) => Ok(Cell::Clash(Fixed::Left)),
            (Cell::Right, Cell::Tetro(_, _)) => Ok(Cell::Clash(Fixed::Right)),
            (Cell::Top, Cell::Tetro(_, _)) => Ok(Cell::Clash(Fixed::Top)),
            _ => Err(CellError::InvalidCombination),
        }
    }

    /// The shade a renderer draws this cell with.
    pub fn render_shade(&self) -> (r: Result<Shade, CellError>)
        ensures
            r == or_err(shade_of(*self), CellError::NotRenderable),
    {
        match self {
            Cell::Tetro(_, _) => Ok(Shade::Dark),
            Cell::Clash(Fixed::Top) => Ok(Shade::Mid),
            Cell::Clash(Fixed::Inner) => Ok(Shade::Mid),
            Cell::Clash(_) => Err(CellError::NotRenderable),
            _ => Ok(Shade::Light),
        }
    }

    /// The cell with its rotation vector turned a quarter: `(dx, dy)` becomes
    /// `(-dy, dx)`. Only active cells rotate.
    pub fn rotate(&mut self) -> (r: Result<Cell, CellError>)
        requires
            *old(self) matches Cell::Tetro(_, dy) ==> dy > isize::MIN,
        ensures
            *final(self) == *old(self),
            r == or_err(rotation_of(*old(self)), CellError::NotRotatable),
    {
        match self {
            Cell::Tetro(dx, dy) => Ok(Cell::Tetro(-*dy, *dx)),
            _ => Err(CellError::NotRotatable),
        }
    }
}

} // verus!
