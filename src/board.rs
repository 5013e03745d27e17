use vstd::prelude::*;
use crate::cell::{Cell, CellError, Fixed, combine, rotation_of, delta_of, small_delta};
use crate::tetromino::{
    Tetromino, TetroCell, Tetros, new_tetro_of, sort_tetro, sorted_desc, tetro_of, permutes, perm_of, has_clash, stably_permutes,
    shape_points,
};

verus! {

broadcast use vstd::seq_lib::group_to_multiset_ensures;

/// Rows of the playable area of a default board.
pub const DEFAULT_INNER_HEIGHT: usize = 20;

/// Columns of the playable area of a default board.
pub const DEFAULT_INNER_WIDTH: usize = 10;

/// The grid: rows of cells, indexed `[row][column]`.
pub type Cells = Vec<Vec<Cell>>;

/// The grid and the piece that is falling on it.
pub struct Board {
    pub cells: Cells,
    pub current_tetro: Tetromino,
}

/// A move of the falling piece.
#[derive(Copy, Clone, PartialEq, Eq, Structural, Debug)]
pub enum Movement {
    Left,
    Right,
    Down,
    Rotate,
}

/// The cell that a fresh grid of `h` rows and `w` columns holds at `(y, x)`:
/// two rows of `Top` above, two of `Bottom` below, two columns of `Left` and
/// `Right` at the sides, and `Inner` within.
pub open spec fn initial_cell(h: int, w: int, y: int, x: int) -> Cell {
    if y < 2 {
        Cell::Top
    } else if y >= h - 2 {
        Cell::Bottom
    } else if x < 2 {
        Cell::Left
    } else if x >= w - 2 {
        Cell::Right
    } else {
        Cell::Inner
    }
}

/// Whether `(y, x)` lies in the playable area of an `h` by `w` grid.
pub open spec fn in_play(h: int, w: int, y: int, x: int) -> bool {
    2 <= y < h - 2 && 2 <= x < w - 2
}

/// A grid: at least the border, rows of one width, the border cells as a fresh
/// grid has them, and only `Inner` or locked active cells within.
pub open spec fn wf_grid(g: Seq<Seq<Cell>>) -> bool {
    &&& 4 <= g.len() <= usize::MAX
    &&& 4 <= g[0].len() <= usize::MAX
    &&& forall|y: int| 0 <= y < g.len() ==> (#[trigger] g[y]).len() == g[0].len()
    &&& forall|y: int, x: int|
        0 <= y < g.len() && 0 <= x < g[0].len() ==> {
            let c = #[trigger] g[y][x];
            if in_play(g.len() as int, g[0].len() as int, y, x) {
                c == Cell::Inner || c is Tetro
            } else {
                c == initial_cell(g.len() as int, g[0].len() as int, y, x)
            }
        }
}

/// A grid on which every shape can be spawned inside the playable area.
pub open spec fn roomy(g: Seq<Seq<Cell>>) -> bool {
    g.len() >= 7 && g[0].len() >= 12
}

/// The cell at a position of the grid.
pub open spec fn at(g: Seq<Seq<Cell>>, c: (usize, usize)) -> Cell {
    g[c.1 as int][c.0 as int]
}

/// Whether a position lies in the playable area.
pub open spec fn inside(g: Seq<Seq<Cell>>, c: (usize, usize)) -> bool {
    in_play(g.len() as int, g[0].len() as int, c.1 as int, c.0 as int)
}

/// A piece that can be moved: every cell active with a small rotation vector,
/// inside the playable area.
pub open spec fn ready(g: Seq<Seq<Cell>>, piece: Seq<TetroCell>) -> bool {
    forall|i: int|
        0 <= i < piece.len() ==> {
            let e = #[trigger] piece[i];
            e.cell is Tetro && small_delta(delta_of(e.cell)) && inside(g, e.coords)
        }
}

/// Whether a position, as integers `(x, y)`, indexes the grid.
pub open spec fn on_grid(g: Seq<Seq<Cell>>, c: (int, int)) -> bool {
    0 <= c.1 < g.len() && 0 <= c.0 < g[0].len()
}

/// Where a move takes a cell, as integers.
pub open spec fn target(e: TetroCell, m: Movement) -> (int, int) {
    let s = offset(m, delta_of(e.cell));
    (e.coords.0 + s.0, e.coords.1 + s.1)
}

/// A piece that move `m` can be tried with: every cell active, every cell's
/// target on the grid, and, for a turn, every rotation vector turnable.
pub open spec fn movable(g: Seq<Seq<Cell>>, piece: Seq<TetroCell>, m: Movement) -> bool {
    forall|i: int|
        0 <= i < piece.len() ==> {
            let e = #[trigger] piece[i];
            &&& e.cell is Tetro
            &&& on_grid(g, target(e, m))
            &&& m == Movement::Rotate ==> delta_of(e.cell).1 > isize::MIN
        }
}

/// A piece that can be locked: every cell active, on a free grid cell.
pub open spec fn lockable(g: Seq<Seq<Cell>>, piece: Seq<TetroCell>) -> bool {
    forall|i: int|
        0 <= i < piece.len() ==> {
            let e = #[trigger] piece[i];
            &&& e.cell is Tetro
            &&& on_grid(g, (e.coords.0 as int, e.coords.1 as int))
            &&& at(g, e.coords) == Cell::Inner
        }
}

/// A piece that is ready and stands on free cells.
pub open spec fn placed(g: Seq<Seq<Cell>>, piece: Seq<TetroCell>) -> bool {
    ready(g, piece) && forall|i: int| 0 <= i < piece.len() ==> at(g, (#[trigger] piece[i]).coords) == Cell::Inner
}

/// No two cells of a piece share a position.
pub open spec fn distinct_coords(piece: Seq<TetroCell>) -> bool {
    forall|i: int, j: int| 0 <= i < piece.len() && 0 <= j < piece.len() && i != j ==>
        (#[trigger] piece[i]).coords != (#[trigger] piece[j]).coords
}

/// The offset a move adds to a cell with rotation vector `d`.
pub open spec fn offset(m: Movement, d: (int, int)) -> (int, int) {
    match m {
        Movement::Left => (-1, 0),
        Movement::Right => (1, 0),
        Movement::Down => (0, 1),
        Movement::Rotate => d,
    }
}

/// A cell of a piece after a move, before it is combined with the grid.
pub open spec fn moved(e: TetroCell, m: Movement) -> TetroCell {
    let s = offset(m, delta_of(e.cell));
    TetroCell {
        cell: if m == Movement::Rotate { rotation_of(e.cell).unwrap() } else { e.cell },
        coords: ((e.coords.0 + s.0) as usize, (e.coords.1 + s.1) as usize),
    }
}

/// A cell of a piece combined with the grid cell under it.
pub open spec fn settle(g: Seq<Seq<Cell>>, e: TetroCell) -> TetroCell {
    TetroCell { cell: combine(at(g, e.coords), e.cell).unwrap(), coords: e.coords }
}

/// A piece after a move, combined with the grid.
pub open spec fn simulated(g: Seq<Seq<Cell>>, piece: Seq<TetroCell>, m: Movement) -> Seq<TetroCell> {
    piece.map_values(|e: TetroCell| settle(g, moved(e, m)))
}

/// A fresh piece of a shape, combined with the grid.
pub open spec fn spawned(g: Seq<Seq<Cell>>, kind: Tetros) -> Seq<TetroCell> {
    tetro_of(kind).map_values(|e: TetroCell| settle(g, e))
}

/// Whether every playable cell of a row is occupied.
pub open spec fn full_row(row: Seq<Cell>) -> bool {
    forall|x: int| 2 <= x < row.len() - 2 ==> (#[trigger] row[x]) is Tetro
}

/// A row with its playable cells emptied.
pub open spec fn emptied(row: Seq<Cell>) -> Seq<Cell> {
    Seq::new(row.len(), |x: int| if 2 <= x < row.len() - 2 { Cell::Inner } else { row[x] })
}

/// The grid after row `index` is cleared: the rows above it fall by one and
/// the emptied row becomes the top playable row.
pub open spec fn without_row(g: Seq<Seq<Cell>>, index: int) -> Seq<Seq<Cell>> {
    g.remove(index).insert(2, emptied(g[index]))
}

/// Whether any playable row of the grid is full.
pub open spec fn any_full(g: Seq<Seq<Cell>>, lo: int, hi: int) -> bool {
    exists|y: int| lo <= y < hi && full_row(#[trigger] g[y])
}

/// Whether every playable cell of a row is `Inner`.
pub open spec fn fresh_row(row: Seq<Cell>) -> bool {
    forall|x: int| 2 <= x < row.len() - 2 ==> (#[trigger] row[x]) == Cell::Inner
}

/// How many rows of `s` hold some occupied playable cell.
pub open spec fn busy_rows(s: Seq<Seq<Cell>>) -> nat
    decreases s.len(),
{
    if s.len() == 0 {
        0
    } else {
        (if fresh_row(s[0]) { 0nat } else { 1nat }) + busy_rows(s.drop_first())
    }
}

/// Rows `2` to `index` of a grid.
pub open spec fn window(g: Seq<Seq<Cell>>, index: int) -> Seq<Seq<Cell>> {
    g.subrange(2, index + 1)
}

proof fn lemma_busy_bound(s: Seq<Seq<Cell>>)
    ensures
        busy_rows(s) <= s.len(),
    decreases s.len(),
{
    if s.len() > 0 {
        lemma_busy_bound(s.drop_first());
    }
}

proof fn lemma_busy_remove(s: Seq<Seq<Cell>>, k: int)
    requires
        0 <= k < s.len(),
    ensures
        busy_rows(s.remove(k)) + (if fresh_row(s[k]) { 0nat } else { 1nat }) == busy_rows(s),
    decreases s.len(),
{
    if k == 0 {
        assert(s.remove(0) =~= s.drop_first());
    } else {
        lemma_busy_remove(s.drop_first(), k - 1);
        assert(s.remove(k).drop_first() =~= s.drop_first().remove(k - 1));
    }
}

/// Clearing row `index` takes one occupied row out of the rows from `2` to
/// `bottom`.
proof fn lemma_clear_counts(g: Seq<Seq<Cell>>, index: int, bottom: int)
    requires
        wf_grid(g),
        g[0].len() >= 5,
        2 <= index <= bottom < g.len() - 2,
        full_row(g[index]),
    ensures
        busy_rows(window(without_row(g, index), bottom)) + 1 == busy_rows(window(g, bottom)),
{
    let w = window(g, bottom);
    let e = emptied(g[index]);
    assert(window(without_row(g, index), bottom) =~= seq![e] + w.remove(index - 2));
    assert((seq![e] + w.remove(index - 2)).drop_first() =~= w.remove(index - 2));
    assert(fresh_row(e));
    assert(w[index - 2] == g[index]);
    assert(g[index][2] is Tetro);
    lemma_busy_remove(w, index - 2);
}

/// Cell `e` turns about the point `p`: its rotation vector takes it to where a
/// quarter turn about `p` takes it.
pub open spec fn turns_about(e: TetroCell, p: (int, int)) -> bool {
    let c = (e.coords.0 as int, e.coords.1 as int);
    delta_of(e.cell) == (p.0 - c.0 - (c.1 - p.1), p.1 - c.1 + (c.0 - p.0))
}

/// Every cell of a piece turns about `p`.
pub open spec fn turns_all(piece: Seq<TetroCell>, p: (int, int)) -> bool {
    forall|i: int| 0 <= i < piece.len() ==> turns_about(#[trigger] piece[i], p)
}

/// A piece whose cells all turn about one point, or none of which moves when
/// it turns.
pub open spec fn rigid(piece: Seq<TetroCell>) -> bool {
    ||| forall|i: int| 0 <= i < piece.len() ==> delta_of((#[trigger] piece[i]).cell) == (0int, 0int)
    ||| exists|p: (int, int)| #[trigger] turns_all(piece, p)
}

/// A piece that the game can move and lock: placed, without two cells on one
/// position, and rigid.
pub open spec fn in_play_piece(g: Seq<Seq<Cell>>, piece: Seq<TetroCell>) -> bool {
    placed(g, piece) && distinct_coords(piece) && rigid(piece) && piece.len() == 4
}

/// A move that brings no clash keeps a piece in play.
#[verifier::spinoff_prover]
#[verifier::rlimit(60)]
pub proof fn lemma_move_keeps_piece(g: Seq<Seq<Cell>>, piece: Seq<TetroCell>, m: Movement)
    requires
        wf_grid(g),
        in_play_piece(g, piece),
        !has_clash(simulated(g, piece, m)),
    ensures
        in_play_piece(g, simulated(g, piece, m)),
{
    let s = simulated(g, piece, m);
    assert forall|i: int| 0 <= i < s.len() implies {
        let e = #[trigger] s[i];
        e.cell is Tetro && small_delta(delta_of(e.cell)) && inside(g, e.coords) && at(g, e.coords) == Cell::Inner
    } by {
        let e = piece[i];
        let mv = moved(e, m);
        assert(s[i] == settle(g, mv));
        assert(inside(g, e.coords) && small_delta(delta_of(e.cell)));
        assert(mv.cell is Tetro);
        let y = mv.coords.1 as int;
        let x = mv.coords.0 as int;
        assert(0 <= y < g.len() && 0 <= x < g[0].len());
        assert(!(s[i].cell is Clash));
        let b = g[y][x];
        assert(b == Cell::Inner);
    }
    assert forall|i: int, j: int| 0 <= i < s.len() && 0 <= j < s.len() && i != j implies
        (#[trigger] s[i]).coords != (#[trigger] s[j]).coords by {
        assert(piece[i].coords != piece[j].coords);
        assert(s[i] == settle(g, moved(piece[i], m)));
        assert(s[j] == settle(g, moved(piece[j], m)));
        assert(inside(g, piece[i].coords) && small_delta(delta_of(piece[i].cell)));
        assert(inside(g, piece[j].coords) && small_delta(delta_of(piece[j].cell)));
        if m == Movement::Rotate && !(forall|k: int| 0 <= k < piece.len() ==> delta_of((#[trigger] piece[k]).cell) == (0int, 0int)) {
            let p = choose|p: (int, int)| turns_all(piece, p);
            assert(turns_about(piece[i], p));
            assert(turns_about(piece[j], p));
        } else if m == Movement::Rotate {
            assert(delta_of(piece[i].cell) == (0int, 0int));
            assert(delta_of(piece[j].cell) == (0int, 0int));
        }
    }
    if forall|k: int| 0 <= k < piece.len() ==> delta_of((#[trigger] piece[k]).cell) == (0int, 0int) {
        assert forall|i: int| 0 <= i < s.len() implies delta_of((#[trigger] s[i]).cell) == (0int, 0int) by {
            assert(delta_of(piece[i].cell) == (0int, 0int));
        }
    } else {
        let p = choose|p: (int, int)| turns_all(piece, p);
        let t = offset(m, (0, 0));
        let q = if m == Movement::Rotate { p } else { (p.0 + t.0, p.1 + t.1) };
        assert forall|i: int| 0 <= i < s.len() implies turns_about(#[trigger] s[i], q) by {
            assert(turns_about(piece[i], p));
            assert(s[i] == settle(g, moved(piece[i], m)));
            assert(inside(g, piece[i].coords) && small_delta(delta_of(piece[i].cell)));
            assert(s[i].cell is Tetro);
        }
        assert(turns_all(s, q));
    }
}

/// Every cell of an O piece has a zero rotation vector, so turning a placed O
/// piece meets no clash and leaves every cell where it is.
pub proof fn lemma_o_turns_in_place(g: Seq<Seq<Cell>>, piece: Seq<TetroCell>)
    requires
        wf_grid(g),
        placed(g, piece),
        forall|i: int| 0 <= i < piece.len() ==> delta_of((#[trigger] piece[i]).cell) == (0int, 0int),
    ensures
        forall|i: int| 0 <= i < 4 ==> delta_of((#[trigger] tetro_of(Tetros::O)[i]).cell) == (0int, 0int),
        simulated(g, piece, Movement::Rotate) == piece,
        !has_clash(simulated(g, piece, Movement::Rotate)),
{
    reveal_with_fuel(vstd::seq::Seq::map_values, 1);
    let s = simulated(g, piece, Movement::Rotate);
    assert forall|i: int| 0 <= i < piece.len() implies #[trigger] s[i] == piece[i] by {
        assert(piece[i].cell is Tetro);
        assert(inside(g, piece[i].coords));
        assert(moved(piece[i], Movement::Rotate).coords == piece[i].coords);
    }
    assert(s =~= piece);
}

/// Spawning onto a spawn area whose cells are all occupied makes every cell
/// of the new piece a clash, whatever the shape.
pub proof fn lemma_spawn_on_occupied_area(g: Seq<Seq<Cell>>, kind: Tetros)
    requires
        wf_grid(g),
        roomy(g),
        forall|y: int, x: int| 3 <= y <= 4 && 6 <= x <= 9 ==> (#[trigger] g[y][x]) is Tetro,
    ensures
        spawned(g, kind).len() == 4,
        forall|i: int| 0 <= i < 4 ==> (#[trigger] spawned(g, kind)[i]).cell == Cell::Clash(Fixed::Inner),
        has_clash(spawned(g, kind)),
{
    reveal_with_fuel(vstd::seq::Seq::map_values, 1);
    let f = tetro_of(kind);
    let s = spawned(g, kind);
    assert forall|i: int| 0 <= i < 4 implies (#[trigger] s[i]).cell == Cell::Clash(Fixed::Inner) by {
        assert(s[i] == settle(g, f[i]));
        let c = f[i].coords;
        assert(3 <= c.1 <= 4 && 6 <= c.0 <= 9);
        assert(g[c.1 as int][c.0 as int] is Tetro);
    }
    assert(s[0].cell is Clash);
}

/// A piece in play can be tried with any move, and can be locked.
pub proof fn lemma_in_play_movable(g: Seq<Seq<Cell>>, piece: Seq<TetroCell>, m: Movement)
    requires
        wf_grid(g),
        placed(g, piece),
    ensures
        movable(g, piece, m),
        lockable(g, piece),
{
    assert forall|i: int| 0 <= i < piece.len() implies {
        let e = #[trigger] piece[i];
        &&& e.cell is Tetro
        &&& on_grid(g, target(e, m))
        &&& m == Movement::Rotate ==> delta_of(e.cell).1 > isize::MIN
    } by {
        assert(inside(g, piece[i].coords) && small_delta(delta_of(piece[i].cell)));
    }
}

/// Each cell of a simulated piece is active or a clash.
pub proof fn lemma_simulated_cells(g: Seq<Seq<Cell>>, piece: Seq<TetroCell>, m: Movement)
    requires
        wf_grid(g),
        movable(g, piece, m),
    ensures
        forall|i: int| 0 <= i < piece.len() ==> {
            let c = (#[trigger] simulated(g, piece, m)[i]).cell;
            c is Tetro || c is Clash
        },
{
    let s = simulated(g, piece, m);
    assert forall|i: int| 0 <= i < piece.len() implies {
        let c = (#[trigger] simulated(g, piece, m)[i]).cell;
        c is Tetro || c is Clash
    } by {
        let e = piece[i];
        let mv = moved(e, m);
        assert(s[i] == settle(g, mv));
        assert(on_grid(g, target(e, m)));
        assert(mv.cell is Tetro);
        let y = mv.coords.1 as int;
        let x = mv.coords.0 as int;
        assert(0 <= y < g.len() && 0 <= x < g[0].len());
        assert(!(g[y][x] is Clash));
    }
}

/// A piece keeps being in play when its cells are put in another order.
pub proof fn lemma_permuted_piece(g: Seq<Seq<Cell>>, a: Seq<TetroCell>, b: Seq<TetroCell>)
    requires
        permutes(a, b),
        in_play_piece(g, b),
    ensures
        in_play_piece(g, a),
{
    let p = choose|p: Seq<int>| perm_of(p, a, b);
    assert forall|i: int| 0 <= i < a.len() implies {
        let e = #[trigger] a[i];
        e.cell is Tetro && small_delta(delta_of(e.cell)) && inside(g, e.coords)
    } by {
        assert(a[i] == b[p[i]]);
    }
    assert forall|i: int| 0 <= i < a.len() implies at(g, (#[trigger] a[i]).coords) == Cell::Inner by {
        assert(a[i] == b[p[i]]);
    }
    assert forall|i: int, j: int| 0 <= i < a.len() && 0 <= j < a.len() && i != j implies
        (#[trigger] a[i]).coords != (#[trigger] a[j]).coords by {
        assert(a[i] == b[p[i]]);
        assert(a[j] == b[p[j]]);
    }
    if forall|k: int| 0 <= k < b.len() ==> delta_of((#[trigger] b[k]).cell) == (0int, 0int) {
        assert forall|i: int| 0 <= i < a.len() implies delta_of((#[trigger] a[i]).cell) == (0int, 0int) by {
            assert(a[i] == b[p[i]]);
        }
    } else {
        let q = choose|q: (int, int)| turns_all(b, q);
        assert forall|i: int| 0 <= i < a.len() implies turns_about(#[trigger] a[i], q) by {
            assert(a[i] == b[p[i]]);
        }
        assert(turns_all(a, q));
    }
}

/// The point that each shape turns about.
pub open spec fn pivot(kind: Tetros) -> (int, int) {
    match kind {
        Tetros::I | Tetros::J | Tetros::L => (7, 3),
        _ => (7, 4),
    }
}

/// A fresh piece that meets no clash is in play.
pub proof fn lemma_spawn_in_play(g: Seq<Seq<Cell>>, kind: Tetros)
    requires
        wf_grid(g),
        roomy(g),
        !has_clash(spawned(g, kind)),
    ensures
        in_play_piece(g, spawned(g, kind)),
{
    let f = tetro_of(kind);
    let s = spawned(g, kind);
    reveal_with_fuel(vstd::seq::Seq::map_values, 1);
    assert(f.len() == 4);
    assert forall|i: int| 0 <= i < 4 implies (#[trigger] s[i]).coords == f[i].coords
        && (s[i].cell is Tetro ==> s[i].cell == f[i].cell && at(g, s[i].coords) == Cell::Inner) by {
        assert(s[i] == settle(g, f[i]));
    }
    assert forall|i: int| 0 <= i < 4 implies !((#[trigger] s[i]).cell is Clash) by {
        if s[i].cell is Clash {
            assert(has_clash(s));
        }
    }
    if kind == Tetros::O {
        assert forall|i: int| 0 <= i < s.len() implies delta_of((#[trigger] s[i]).cell) == (0int, 0int) by {
            assert(s[i].cell == f[i].cell);
        }
    } else {
        let q = pivot(kind);
        assert forall|i: int| 0 <= i < s.len() implies turns_about(#[trigger] s[i], q) by {
            assert(s[i].cell == f[i].cell);
        }
        assert(turns_all(s, q));
    }
}

/// `out` is grid `g` with the cells of `piece` written at their positions.
pub open spec fn lock_result(g: Seq<Seq<Cell>>, piece: Seq<TetroCell>, out: Seq<Seq<Cell>>) -> bool {
    &&& wf_grid(out)
    &&& out.len() == g.len()
    &&& forall|y: int| 0 <= y < out.len() ==> (#[trigger] out[y]).len() == g[y].len()
    &&& forall|k: int| 0 <= k < piece.len() ==> at(out, (#[trigger] piece[k]).coords) == piece[k].cell
    &&& forall|y: int, x: int|
        0 <= y < g.len() && 0 <= x < g[0].len()
        && (forall|k: int| 0 <= k < piece.len() ==> (#[trigger] piece[k]).coords != (x as usize, y as usize))
        ==> #[trigger] out[y][x] == g[y][x]
}

/// `out` is what clearing full rows of `g` leaves, `r` rows having been
/// cleared: some row from `3` down is full exactly when `r` is positive, and
/// nothing changes when it is zero.
pub open spec fn clear_result(g: Seq<Seq<Cell>>, out: Seq<Seq<Cell>>, r: int) -> bool {
    &&& wf_grid(out)
    &&& out.len() == g.len()
    &&& out[0].len() == g[0].len()
    &&& 0 <= r <= g.len() - 4
    &&& (r == 0 <==> !any_full(g, 3, g.len() - 2))
    &&& (r == 0 ==> out == g)
    &&& (r > 0 ==> out == compacted(g, g.len() - 3) && r == full_count(g.subrange(2, g.len() - 2)))
}

/// A board as `Board::default` makes it.
pub open spec fn is_default_board(b: Board) -> bool {
    &&& b.wf()
    &&& roomy(b.grid())
    &&& b.grid().len() == DEFAULT_INNER_HEIGHT + 4
    &&& b.grid()[0].len() == DEFAULT_INNER_WIDTH + 4
    &&& forall|y: int, x: int| 0 <= y < DEFAULT_INNER_HEIGHT + 4 && 0 <= x < DEFAULT_INNER_WIDTH + 4
        ==> #[trigger] b.grid()[y][x] == initial_cell(DEFAULT_INNER_HEIGHT + 4, DEFAULT_INNER_WIDTH + 4, y, x)
    &&& b.current_tetro@.len() == 0
}

/// The rows of `s` that are not full, in order.
pub open spec fn open_rows(s: Seq<Seq<Cell>>) -> Seq<Seq<Cell>>
    decreases s.len(),
{
    if s.len() == 0 {
        s
    } else if full_row(s[0]) {
        open_rows(s.drop_first())
    } else {
        seq![s[0]] + open_rows(s.drop_first())
    }
}

/// How many rows of `s` are full.
pub open spec fn full_count(s: Seq<Seq<Cell>>) -> nat
    decreases s.len(),
{
    if s.len() == 0 {
        0
    } else {
        (if full_row(s[0]) { 1nat } else { 0nat }) + full_count(s.drop_first())
    }
}

/// A playable row of width `w` with nothing in it.
pub open spec fn blank_row(w: int) -> Seq<Cell> {
    Seq::new(w as nat, |x: int| if x < 2 { Cell::Left } else if x >= w - 2 { Cell::Right } else { Cell::Inner })
}

/// `n` blank rows of width `w`.
pub open spec fn blank_rows(w: int, n: int) -> Seq<Seq<Cell>> {
    Seq::new(n as nat, |k: int| blank_row(w))
}

/// Grid `g` with every full row from `2` to `index` taken out, the rows above
/// each falling into its place, and as many blank rows put on top.
pub open spec fn compacted(g: Seq<Seq<Cell>>, index: int) -> Seq<Seq<Cell>> {
    let span = g.subrange(2, index + 1);
    g.subrange(0, 2) + blank_rows(g[0].len() as int, full_count(span) as int) + open_rows(span)
        + g.subrange(index + 1, g.len() as int)
}

proof fn lemma_no_full_rows(s: Seq<Seq<Cell>>)
    requires
        full_count(s) == 0,
    ensures
        open_rows(s) == s,
    decreases s.len(),
{
    if s.len() > 0 {
        lemma_no_full_rows(s.drop_first());
        assert(seq![s[0]] + s.drop_first() =~= s);
    }
}

proof fn lemma_open_append(s: Seq<Seq<Cell>>, t: Seq<Seq<Cell>>)
    requires
        full_count(t) == 0,
    ensures
        open_rows(s + t) == open_rows(s) + t,
        full_count(s + t) == full_count(s),
    decreases s.len(),
{
    if s.len() == 0 {
        assert(s + t =~= t);
        lemma_no_full_rows(t);
        assert(open_rows(s) + t =~= t);
    } else {
        assert((s + t).drop_first() =~= s.drop_first() + t);
        lemma_open_append(s.drop_first(), t);
        assert((s + t)[0] == s[0]);
        if !full_row(s[0]) {
            assert(seq![s[0]] + (open_rows(s.drop_first()) + t) =~= (seq![s[0]] + open_rows(s.drop_first())) + t);
        }
    }
}

proof fn lemma_count_none(g: Seq<Seq<Cell>>, lo: int, hi: int)
    requires
        0 <= lo <= hi <= g.len(),
        forall|y: int| lo <= y < hi ==> !full_row(#[trigger] g[y]),
    ensures
        full_count(g.subrange(lo, hi)) == 0,
    decreases hi - lo,
{
    if lo < hi {
        assert(g.subrange(lo, hi).drop_first() =~= g.subrange(lo + 1, hi));
        lemma_count_none(g, lo + 1, hi);
    }
}

proof fn lemma_count_all(g: Seq<Seq<Cell>>, lo: int, hi: int)
    requires
        0 <= lo <= hi <= g.len(),
        full_count(g.subrange(lo, hi)) == 0,
    ensures
        forall|y: int| lo <= y < hi ==> !full_row(#[trigger] g[y]),
    decreases hi - lo,
{
    if lo < hi {
        assert(g.subrange(lo, hi).drop_first() =~= g.subrange(lo + 1, hi));
        assert(g.subrange(lo, hi)[0] == g[lo]);
        lemma_count_all(g, lo + 1, hi);
    }
}

/// The grid while `clear_lines` sweeps up from `index`: `c` rows cleared, the
/// row at position `c + o` being row `o` of the grid `g` it started from.
pub open spec fn sweep_state(g: Seq<Seq<Cell>>, cur: Seq<Seq<Cell>>, index: int, c: int, o: int) -> bool {
    let o1 = if o < 1 { 1 } else { o };
    &&& cur == g.subrange(0, 2) + blank_rows(g[0].len() as int, c) + g.subrange(2, o1 + 1)
        + open_rows(g.subrange(o1 + 1, index + 1)) + g.subrange(index + 1, g.len() as int)
    &&& c == full_count(g.subrange(o1 + 1, index + 1))
}

proof fn lemma_compacted_extend(g: Seq<Seq<Cell>>, index: int, top: int)
    requires
        2 <= index <= top < g.len(),
        forall|y: int| index < y <= top ==> !full_row(#[trigger] g[y]),
    ensures
        compacted(g, index) == compacted(g, top),
        full_count(g.subrange(2, index + 1)) == full_count(g.subrange(2, top + 1)),
{
    let span = g.subrange(2, index + 1);
    let t = g.subrange(index + 1, top + 1);
    lemma_count_none(g, index + 1, top + 1);
    lemma_open_append(span, t);
    assert(g.subrange(2, top + 1) =~= span + t);
    assert(g.subrange(index + 1, g.len() as int) =~= t + g.subrange(top + 1, g.len() as int));
    let b = blank_rows(g[0].len() as int, full_count(span) as int);
    assert(g.subrange(0, 2) + b + open_rows(span) + g.subrange(index + 1, g.len() as int)
        =~= g.subrange(0, 2) + b + (open_rows(span) + t) + g.subrange(top + 1, g.len() as int));
}

proof fn lemma_emptied_blank(g: Seq<Seq<Cell>>, o: int)
    requires
        wf_grid(g),
        2 <= o < g.len() - 2,
    ensures
        emptied(g[o]) == blank_row(g[0].len() as int),
{
    let w = g[0].len() as int;
    assert forall|x: int| 0 <= x < w implies #[trigger] emptied(g[o])[x] == blank_row(w)[x] by {
        assert(g[o][x] == g[o][x]);
    }
    assert(emptied(g[o]) =~= blank_row(w));
}

proof fn lemma_sweep_clear(g: Seq<Seq<Cell>>, cur: Seq<Seq<Cell>>, index: int, c: int, i: int)
    requires
        wf_grid(g),
        g[0].len() >= 5,
        0 <= c,
        3 <= i <= index < g.len() - 2,
        sweep_state(g, cur, index, c, i - c),
        full_row(cur[i]),
    ensures
        sweep_state(g, without_row(cur, i), index, c + 1, i - c - 1),
{
    let w = g[0].len() as int;
    let o = i - c;
    let pre = g.subrange(0, 2);
    // The blank rows on top are not full, so the full row at `i` is row `o` of `g`.
    if o <= 1 {
        assert(cur[i] == blank_rows(w, c)[i - 2]);
        assert(cur[i][2] == Cell::Inner);
    }
    assert(cur[i] == g[o]);
    lemma_emptied_blank(g, o);
    let tail = open_rows(g.subrange(o + 1, index + 1)) + g.subrange(index + 1, g.len() as int);
    assert(cur == pre + blank_rows(w, c) + g.subrange(2, o + 1) + tail);
    assert(g.subrange(o, index + 1).drop_first() =~= g.subrange(o + 1, index + 1));
    assert(g.subrange(o, index + 1)[0] == g[o]);
    assert(open_rows(g.subrange(o, index + 1)) == open_rows(g.subrange(o + 1, index + 1)));
    assert(without_row(cur, i) =~= pre + blank_rows(w, c + 1) + g.subrange(2, o) + tail);
    assert(full_count(g.subrange(o, index + 1)) == 1 + full_count(g.subrange(o + 1, index + 1)));
    assert(without_row(cur, i) =~= pre + blank_rows(w, c + 1) + g.subrange(2, o) + open_rows(
        g.subrange(o, index + 1),
    ) + g.subrange(index + 1, g.len() as int));
}

proof fn lemma_sweep_skip(g: Seq<Seq<Cell>>, cur: Seq<Seq<Cell>>, index: int, c: int, i: int)
    requires
        wf_grid(g),
        0 <= c,
        3 <= i <= index < g.len() - 2,
        sweep_state(g, cur, index, c, i - c),
        !full_row(cur[i]),
    ensures
        sweep_state(g, cur, index, c, i - 1 - c),
{
    let w = g[0].len() as int;
    let o = i - c;
    if o >= 2 {
        let pre = g.subrange(0, 2);
        let rest = g.subrange(index + 1, g.len() as int);
        assert(cur[i] == g[o]);
        assert(g.subrange(o, index + 1).drop_first() =~= g.subrange(o + 1, index + 1));
        assert(g.subrange(o, index + 1)[0] == g[o]);
        let s1 = open_rows(g.subrange(o, index + 1));
        assert(s1 == seq![g[o]] + open_rows(g.subrange(o + 1, index + 1)));
        assert(pre + blank_rows(w, c) + g.subrange(2, o) + s1 + rest =~= pre + blank_rows(w, c) + g.subrange(
            2,
            o + 1,
        ) + open_rows(g.subrange(o + 1, index + 1)) + rest);
    }
}

impl Board {
    /// The grid as rows of cells.
    pub open spec fn grid(&self) -> Seq<Seq<Cell>> {
        self.cells@.map_values(|r: Vec<Cell>| r@)
    }

    /// The grid is well formed.
    pub open spec fn wf(&self) -> bool {
        wf_grid(self.grid())
    }

    /// A board with a playable area of `inner_height` rows and `inner_width`
    /// columns, all of it `Inner`, and no piece.
    pub fn new(inner_height: usize, inner_width: usize) -> (r: Board)
        requires
            inner_height + 4 <= usize::MAX,
            inner_width + 4 <= usize::MAX,
        ensures
            r.wf(),
            r.grid().len() == inner_height + 4,
            r.grid()[0].len() == inner_width + 4,
            forall|y: int, x: int| 0 <= y < inner_height + 4 && 0 <= x < inner_width + 4
                ==> #[trigger] r.grid()[y][x] == initial_cell(inner_height + 4, inner_width + 4, y, x),
            r.current_tetro@.len() == 0,
    {
        Board { cells: initialize(inner_height + 4, inner_width + 4), current_tetro: Vec::new() }
    }

    /// Spawns a fresh piece of the given shape: each cell is combined with the
    /// grid cell under it, and the piece is sorted so that any clash is first.
    pub fn spawn_tetromino(&mut self, kind: Tetros)
        requires
            old(self).wf(),
            roomy(old(self).grid()),
        ensures
            final(self).cells == old(self).cells,
            final(self).current_tetro@.to_multiset() == spawned(old(self).grid(), kind).to_multiset(),
            stably_permutes(final(self).current_tetro@, spawned(old(self).grid(), kind)),
            final(self).current_tetro@.len() == 4,
            sorted_desc(final(self).current_tetro@),
    {
        let mut tetro = new_tetro_of(kind);
        let ghost g = self.grid();
        let ghost fresh = tetro@;
        assert(fresh.len() == 4);
        assert(forall|i: int| 0 <= i < 4 ==> inside(g, #[trigger] fresh[i].coords) && fresh[i].cell is Tetro) by {
            reveal_with_fuel(vstd::seq::Seq::map_values, 1);
        }
        let mut i: usize = 0;
        while i < tetro.len()
            invariant
                self.wf(),
                self.grid() == g,
                roomy(g),
                fresh == tetro_of(kind),
                fresh.len() == 4,
                forall|k: int| 0 <= k < 4 ==> inside(g, #[trigger] fresh[k].coords) && fresh[k].cell is Tetro,
                tetro@.len() == 4,
                i <= 4,
                forall|k: int| 0 <= k < i ==> #[trigger] tetro@[k] == settle(g, fresh[k]),
                forall|k: int| i <= k < 4 ==> #[trigger] tetro@[k] == fresh[k],
            decreases 4 - i,
        {
            let el = tetro[i];
            let (x, y) = el.coords;
            let c = self.cells[y][x].add(el.cell).unwrap();
            tetro.set(i, TetroCell { cell: c, coords: el.coords });
            i += 1;
        }
        assert(tetro@ =~= spawned(g, kind));
        self.current_tetro = tetro;
        sort_tetro(&mut self.current_tetro);
    }

    /// Spawns a fresh piece of a shape picked at random.
    pub fn new_tetromino(&mut self)
        requires
            old(self).wf(),
            roomy(old(self).grid()),
        ensures
            final(self).cells == old(self).cells,
            exists|kind: Tetros| #[trigger] stably_permutes(final(self).current_tetro@, spawned(old(self).grid(), kind)),
            final(self).current_tetro@.len() == 4,
            sorted_desc(final(self).current_tetro@),
    {
        let kind = Tetros::random();
        self.spawn_tetromino(kind);
    }

    /// Moves `future_tetro`, a copy of a piece, as `movement` says, and
    /// combines each of its cells with the grid cell it lands on. The board
    /// itself is left as it is.
    pub fn simulate_move(&mut self, future_tetro: &mut Tetromino, movement: &Movement)
        requires
            old(self).wf(),
            movable(old(self).grid(), old(future_tetro)@, *movement),
        ensures
            *final(self) == *old(self),
            final(future_tetro)@ == simulated(old(self).grid(), old(future_tetro)@, *movement),
    {
        let ghost g = self.grid();
        let ghost start = future_tetro@;
        if *movement == Movement::Rotate {
            self.rotate_tetro(future_tetro);
        } else {
            self.apply_translation(future_tetro, movement);
        }
        let n = future_tetro.len();
        let mut i: usize = 0;
        while i < n
            invariant
                self.wf(),
                self.grid() == g,
                movable(g, start, *movement),
                n == start.len(),
                future_tetro@.len() == n,
                i <= n,
                forall|k: int| 0 <= k < i ==> #[trigger] future_tetro@[k] == settle(g, moved(start[k], *movement)),
                forall|k: int| i <= k < n ==> #[trigger] future_tetro@[k] == moved(start[k], *movement),
            decreases n - i,
        {
            let el = future_tetro[i];
            let (x, y) = el.coords;
            assert(start[i as int].cell is Tetro);
            assert(on_grid(g, target(start[i as int], *movement)));
            let c = self.cells[y][x].add(el.cell).unwrap();
            future_tetro.set(i, TetroCell { cell: c, coords: el.coords });
            i += 1;
        }
        assert(future_tetro@ =~= simulated(g, start, *movement));
    }

    /// Turns every cell of the piece into a clash against the top border.
    pub fn mark_top_clash(&mut self)
        ensures
            final(self).cells == old(self).cells,
            final(self).current_tetro@ == old(self).current_tetro@.map_values(
                |e: TetroCell| (TetroCell { cell: Cell::Clash(Fixed::Top), coords: e.coords }),
            ),
    {
        let ghost start = self.current_tetro@;
        let n = self.current_tetro.len();
        let mut i: usize = 0;
        while i < n
            invariant
                self.cells == old(self).cells,
                n == start.len(),
                self.current_tetro@.len() == n,
                i <= n,
                forall|k: int| 0 <= k < i ==> #[trigger] self.current_tetro@[k]
                    == (TetroCell { cell: Cell::Clash(Fixed::Top), coords: start[k].coords }),
                forall|k: int| i <= k < n ==> #[trigger] self.current_tetro@[k] == start[k],
            decreases n - i,
        {
            let coords = self.current_tetro[i].coords;
            self.current_tetro.set(i, TetroCell { cell: Cell::Clash(Fixed::Top), coords });
            i += 1;
        }
        assert(self.current_tetro@ =~= start.map_values(
            |e: TetroCell| (TetroCell { cell: Cell::Clash(Fixed::Top), coords: e.coords }),
        ));
    }

    /// Whether every playable cell of row `index` is occupied.
    pub fn is_line(&mut self, index: usize) -> (r: bool)
        requires
            old(self).wf(),
            index < old(self).grid().len(),
        ensures
            *final(self) == *old(self),
            r == full_row(old(self).grid()[index as int]),
    {
        let width = self.cells[0].len();
        let mut x: usize = 2;
        while x < width - 2
            invariant
                self.wf(),
                index < self.grid().len(),
                width == self.grid()[0].len(),
                2 <= x <= width - 2,
                forall|k: int| 2 <= k < x ==> (#[trigger] self.grid()[index as int][k]) is Tetro,
            decreases width - 2 - x,
        {
            match self.cells[index][x] {
                Cell::Tetro(_, _) => {},
                _ => return false,
            }
            x += 1;
        }
        true
    }

    fn apply_translation(&mut self, future_tetro: &mut Tetromino, movement: &Movement)
        requires
            *movement != Movement::Rotate,
            old(self).wf(),
            movable(old(self).grid(), old(future_tetro)@, *movement),
        ensures
            *final(self) == *old(self),
            final(future_tetro)@ == old(future_tetro)@.map_values(|e: TetroCell| moved(e, *movement)),
    {
        let translation: (isize, isize) = match movement {
            Movement::Left => (-1, 0),
            Movement::Right => (1, 0),
            _ => (0, 1),
        };
        let ghost g = self.grid();
        let ghost start = future_tetro@;
        let height = self.cells.len();
        let width = self.cells[0].len();
        let n = future_tetro.len();
        let mut i: usize = 0;
        while i < n
            invariant
                self.wf(),
                self.grid() == g,
                g.len() == height,
                g[0].len() == width,
                movable(g, start, *movement),
                *movement != Movement::Rotate,
                translation.0 == offset(*movement, (0, 0)).0,
                translation.1 == offset(*movement, (0, 0)).1,
                n == start.len(),
                future_tetro@.len() == n,
                i <= n,
                forall|k: int| 0 <= k < i ==> #[trigger] future_tetro@[k] == moved(start[k], *movement),
                forall|k: int| i <= k < n ==> #[trigger] future_tetro@[k] == start[k],
            decreases n - i,
        {
            let el = future_tetro[i];
            assert(el == start[i as int]);
            assert(on_grid(g, target(el, *movement)));
            let new_coords = get_new_coords(el.coords, translation);
            future_tetro.set(i, TetroCell { cell: el.cell, coords: new_coords });
            i += 1;
        }
        assert(future_tetro@ =~= start.map_values(|e: TetroCell| moved(e, *movement)));
    }

    fn rotate_tetro(&mut self, future_tetro: &mut Tetromino)
        requires
            old(self).wf(),
            movable(old(self).grid(), old(future_tetro)@, Movement::Rotate),
        ensures
            *final(self) == *old(self),
            final(future_tetro)@ == old(future_tetro)@.map_values(|e: TetroCell| moved(e, Movement::Rotate)),
    {
        let ghost g = self.grid();
        let ghost start = future_tetro@;
        let height = self.cells.len();
        let width = self.cells[0].len();
        let n = future_tetro.len();
        let mut i: usize = 0;
        while i < n
            invariant
                self.wf(),
                self.grid() == g,
                g.len() == height,
                g[0].len() == width,
                movable(g, start, Movement::Rotate),
                n == start.len(),
                future_tetro@.len() == n,
                i <= n,
                forall|k: int| 0 <= k < i ==> #[trigger] future_tetro@[k] == moved(start[k], Movement::Rotate),
                forall|k: int| i <= k < n ==> #[trigger] future_tetro@[k] == start[k],
            decreases n - i,
        {
            let mut el = future_tetro[i];
            assert(el == start[i as int]);
            assert(on_grid(g, target(el, Movement::Rotate)));
            let translation = match el.cell {
                Cell::Tetro(dx, dy) => (dx, dy),
                _ => (0, 0),
            };
            let coords = get_new_coords(el.coords, translation);
            let cell = el.cell.rotate().unwrap();
            future_tetro.set(i, TetroCell { cell, coords });
            i += 1;
        }
        assert(future_tetro@ =~= start.map_values(|e: TetroCell| moved(e, Movement::Rotate)));
    }

    /// Clears row `index`: its playable cells become `Inner`, and the rows
    /// from `2` down to `index - 1` each fall by one, the cleared row taking
    /// the place of row `2`.
    pub fn clear_line(&mut self, index: usize)
        requires
            old(self).wf(),
            2 <= index < old(self).grid().len() - 2,
        ensures
            final(self).grid() == without_row(old(self).grid(), index as int),
            final(self).wf(),
            final(self).current_tetro == old(self).current_tetro,
    {
        let ghost g = self.grid();
        let width = self.cells[0].len();
        let mut row = self.cells.remove(index);
        let ghost old_row = row@;
        assert(old_row == g[index as int]);
        let mut x: usize = 2;
        while x < width - 2
            invariant
                width == g[0].len(),
                width >= 4,
                old_row.len() == width,
                row@.len() == width,
                2 <= x <= width - 2,
                forall|k: int| 0 <= k < width ==> #[trigger] row@[k]
                    == (if 2 <= k < x { Cell::Inner } else { old_row[k] }),
            decreases width - 2 - x,
        {
            row.set(x, Cell::Inner);
            x += 1;
        }
        assert(row@ =~= emptied(old_row));
        self.cells.insert(2, row);
        assert(self.grid() =~= without_row(g, index as int));
        let ghost ng = self.grid();
        assert forall|y: int| 0 <= y < ng.len() implies (#[trigger] ng[y]).len() == ng[0].len() by {
            if y > 2 && y <= index {
                assert(ng[y] == g[y - 1]);
            }
        }
        assert forall|y: int, x: int| 0 <= y < ng.len() && 0 <= x < ng[0].len() implies {
            let c = #[trigger] ng[y][x];
            if in_play(ng.len() as int, ng[0].len() as int, y, x) {
                c == Cell::Inner || c is Tetro
            } else {
                c == initial_cell(ng.len() as int, ng[0].len() as int, y, x)
            }
        } by {
            if y > 2 && y <= index {
                assert(ng[y] == g[y - 1]);
                assert(ng[y][x] == g[y - 1][x]);
            } else if y > index {
                assert(ng[y][x] == g[y][x]);
            } else if y < 2 {
                assert(ng[y][x] == g[y][x]);
            } else {
                assert(ng[y][x] == emptied(g[index as int])[x]);
                assert(g[index as int][x] == g[index as int][x]);
            }
        }
    }

    /// Clears full rows from row `index` upward: each row from `index` up to
    /// `3` is cleared for as long as it is full. Returns how many rows were
    /// cleared.
    pub fn clear_lines(&mut self, index: usize) -> (r: usize)
        requires
            old(self).wf(),
            old(self).grid()[0].len() >= 5,
            2 <= index < old(self).grid().len() - 2,
        ensures
            final(self).wf(),
            final(self).grid().len() == old(self).grid().len(),
            final(self).grid()[0].len() == old(self).grid()[0].len(),
            final(self).current_tetro == old(self).current_tetro,
            r <= index - 1,
            r == 0 ==> final(self).grid() == old(self).grid(),
            r == 0 <==> !any_full(old(self).grid(), 3, index + 1),
            r > 0 ==> final(self).grid() == compacted(old(self).grid(), index as int)
                && r == full_count(old(self).grid().subrange(2, index + 1)),
    {
        let ghost g = self.grid();
        proof {
            lemma_busy_bound(window(g, index as int));
            assert(g.subrange(0, 2) + blank_rows(g[0].len() as int, 0) + g.subrange(2, index + 1) + open_rows(
                g.subrange(index + 1, index + 1),
            ) + g.subrange(index + 1, g.len() as int) =~= g);
            assert(sweep_state(g, g, index as int, 0, index as int));
        }
        let mut lines_cleared: usize = 0;
        let mut i: usize = index;
        while i >= 3
            invariant
                self.wf(),
                self.grid().len() == g.len(),
                self.grid()[0].len() == g[0].len(),
                g[0].len() >= 5,
                self.current_tetro == old(self).current_tetro,
                2 <= i <= index < g.len() - 2,
                busy_rows(window(g, index as int)) <= index - 1,
                lines_cleared + busy_rows(window(self.grid(), index as int)) == busy_rows(window(g, index as int)),
                lines_cleared == 0 ==> self.grid() == g,
                sweep_state(g, self.grid(), index as int, lines_cleared as int, i - lines_cleared),
                lines_cleared > 0 ==> any_full(g, 3, index + 1),
                wf_grid(g),
            decreases i,
        {
            while self.is_line(i)
                invariant
                    self.wf(),
                    self.grid().len() == g.len(),
                    self.grid()[0].len() == g[0].len(),
                    g[0].len() >= 5,
                    self.current_tetro == old(self).current_tetro,
                    3 <= i <= index < g.len() - 2,
                    busy_rows(window(g, index as int)) <= index - 1,
                    lines_cleared + busy_rows(window(self.grid(), index as int)) == busy_rows(window(g, index as int)),
                    lines_cleared == 0 ==> self.grid() == g,
                    sweep_state(g, self.grid(), index as int, lines_cleared as int, i - lines_cleared),
                    lines_cleared > 0 ==> any_full(g, 3, index + 1),
                    wf_grid(g),
                decreases busy_rows(window(self.grid(), index as int)),
            {
                proof {
                    lemma_clear_counts(self.grid(), i as int, index as int);
                    lemma_sweep_clear(g, self.grid(), index as int, lines_cleared as int, i as int);
                    if lines_cleared == 0 {
                        assert(self.grid()[i as int] == g[i as int]);
                        assert(full_row(g[i as int]));
                    }
                }
                self.clear_line(i);
                lines_cleared += 1;
            }
            proof {
                lemma_sweep_skip(g, self.grid(), index as int, lines_cleared as int, i as int);
            }
            i -= 1;
        }
        proof {
            let cur = self.grid();
            let w = g[0].len() as int;
            let pre = g.subrange(0, 2);
            let rest = g.subrange(index + 1, g.len() as int);
            if lines_cleared == 0 {
                if index >= 3 {
                    lemma_no_full_rows(g.subrange(3, index + 1));
                    lemma_count_all(g, 3, index + 1);
                    assert(cur =~= g);
                }
            } else {
                assert(cur == pre + blank_rows(w, lines_cleared as int) + g.subrange(2, 2) + open_rows(
                    g.subrange(2, index + 1),
                ) + rest);
                assert(cur =~= compacted(g, index as int));
            }
        }
        lines_cleared
    }

    /// Looks for a full row from the bottom up; from the first one found,
    /// clears full rows as `clear_lines` does. Returns how many rows were
    /// cleared.
    pub fn check_lines(&mut self) -> (r: usize)
        requires
            old(self).wf(),
            old(self).grid()[0].len() >= 5,
        ensures
            clear_result(old(self).grid(), final(self).grid(), r as int),
            final(self).current_tetro == old(self).current_tetro,
    {
        let ghost g = self.grid();
        let height = self.cells.len();
        let mut index: usize = height - 2;
        while index > 2
            invariant
                self.grid() == g,
                *self == *old(self),
                self.wf(),
                height == g.len(),
                g[0].len() >= 5,
                2 <= index <= height - 2,
                forall|y: int| index <= y < height - 2 ==> !full_row(#[trigger] g[y]),
            decreases index,
        {
            index -= 1;
            if self.is_line(index) {
                assert(index >= 3 ==> full_row(g[index as int]));
                proof {
                    lemma_compacted_extend(g, index as int, height - 3);
                }
                return self.clear_lines(index);
            }
        }
        0
    }

    /// Writes the piece into the grid, each cell combined with the grid cell
    /// under it, and leaves the board without a piece.
    pub fn mark_tetro(&mut self)
        requires
            old(self).wf(),
            lockable(old(self).grid(), old(self).current_tetro@),
            distinct_coords(old(self).current_tetro@),
        ensures
            lock_result(old(self).grid(), old(self).current_tetro@, final(self).grid()),
            final(self).current_tetro@.len() == 0,
    {
        let ghost g = self.grid();
        let ghost piece = self.current_tetro@;
        let n = self.current_tetro.len();
        let mut i: usize = 0;
        while i < n
            invariant
                wf_grid(g),
                lockable(g, piece),
                distinct_coords(piece),
                self.current_tetro@ == piece,
                n == piece.len(),
                i <= n,
                self.wf(),
                self.grid().len() == g.len(),
                forall|y: int| 0 <= y < g.len() ==> (#[trigger] self.grid()[y]).len() == g[y].len(),
                forall|k: int| 0 <= k < i ==> at(self.grid(), (#[trigger] piece[k]).coords) == piece[k].cell,
                forall|y: int, x: int|
                    0 <= y < g.len() && 0 <= x < g[0].len()
                    && (forall|k: int| 0 <= k < i ==> (#[trigger] piece[k]).coords != (x as usize, y as usize))
                    ==> #[trigger] self.grid()[y][x] == g[y][x],
            decreases n - i,
        {
            let el = self.current_tetro[i];
            let (x, y) = el.coords;
            assert(piece[i as int] == el);
            assert forall|k: int| 0 <= k < i implies (#[trigger] piece[k]).coords != (x, y) by {
                assert(piece[k].coords != piece[i as int].coords);
            }
            let c = self.cells[y][x].add(el.cell).unwrap();
            self.set_cell(y, x, c);
            i += 1;
        }
        self.current_tetro = Vec::new();
    }

    fn set_cell(&mut self, y: usize, x: usize, c: Cell)
        requires
            y < old(self).cells@.len(),
            x < old(self).cells@[y as int]@.len(),
        ensures
            final(self).current_tetro == old(self).current_tetro,
            final(self).grid() == old(self).grid().update(y as int, old(self).grid()[y as int].update(x as int, c)),
    {
        let mut row = self.cells.remove(y);
        row.set(x, c);
        self.cells.insert(y, row);
        assert(self.grid() =~= old(self).grid().update(y as int, old(self).grid()[y as int].update(x as int, c)));
    }

    /// The default board: twenty rows of ten columns.
    pub fn default() -> (r: Board)
        ensures
            is_default_board(r),
    {
        Board::new(DEFAULT_INNER_HEIGHT, DEFAULT_INNER_WIDTH)
    }
}

/// `a` moved by `d`.
fn shift(a: usize, d: isize) -> (r: usize)
    requires
        0 <= a + d <= usize::MAX,
    ensures
        r == a + d,
{
    if d >= 0 {
        a + d as usize
    } else {
        a - (-(d + 1)) as usize - 1
    }
}

/// A position moved by an offset.
pub fn get_new_coords(current_coords: (usize, usize), translation: (isize, isize)) -> (r: (usize, usize))
    requires
        0 <= current_coords.0 + translation.0 <= usize::MAX,
        0 <= current_coords.1 + translation.1 <= usize::MAX,
    ensures
        r.0 == current_coords.0 + translation.0,
        r.1 == current_coords.1 + translation.1,
{
    (shift(current_coords.0, translation.0), shift(current_coords.1, translation.1))
}

/// A fresh grid of `total_height` rows and `total_width` columns.
pub fn initialize(total_height: usize, total_width: usize) -> (cells: Cells)
    requires
        total_height >= 4,
        total_width >= 4,
    ensures
        cells@.len() == total_height,
        forall|y: int| 0 <= y < total_height ==> (#[trigger] cells@[y])@.len() == total_width,
        forall|y: int, x: int| 0 <= y < total_height && 0 <= x < total_width
            ==> #[trigger] cells@[y]@[x] == initial_cell(total_height as int, total_width as int, y, x),
{
    let mut cells: Cells = Vec::new();
    let mut y: usize = 0;
    while y < total_height
        invariant
            y <= total_height,
            cells@.len() == y,
            forall|r: int| 0 <= r < y ==> (#[trigger] cells@[r])@.len() == total_width,
            forall|r: int, x: int| 0 <= r < y && 0 <= x < total_width
                ==> #[trigger] cells@[r]@[x] == initial_cell(total_height as int, total_width as int, r, x),
        decreases total_height - y,
    {
        let mut row: Vec<Cell> = Vec::new();
        let mut x: usize = 0;
        while x < total_width
            invariant
                x <= total_width,
                y < total_height,
                row@.len() == x,
                forall|k: int| 0 <= k < x ==> #[trigger] row@[k] == initial_cell(total_height as int, total_width as int, y as int, k),
            decreases total_width - x,
        {
            let c = if y < 2 {
                Cell::Top
            } else if y >= total_height - 2 {
                Cell::Bottom
            } else if x < 2 {
                Cell::Left
            } else if x > total_width - 3 {
                Cell::Right
            } else {
                Cell::Inner
            };
            row.push(c);
            x += 1;
        }
        cells.push(row);
        y += 1;
    }
    cells
}

} // verus!
