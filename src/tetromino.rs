use vstd::prelude::*;
use crate::cell::Cell;

verus! {

broadcast use vstd::seq_lib::group_to_multiset_ensures;

/// A grid position: `(column, row)`.
pub type StartingCoords = (usize, usize);

/// The first rotation vector of a cell of a new piece.
pub type FirstRotation = (isize, isize);

/// A falling piece: its four cells with their grid positions.
pub type Tetromino = Vec<TetroCell>;

/// One cell of a falling piece and where it stands.
#[derive(Copy, Clone, PartialEq, Eq, Debug)]
pub struct TetroCell {
    pub cell: Cell,
    pub coords: StartingCoords,
}

/// The seven shapes.
#[derive(Copy, Clone, PartialEq, Eq, Structural, Debug)]
pub enum Tetros {
    I,
    O,
    T,
    J,
    L,
    S,
    Z,
}

/// The shape that a number below seven picks.
pub open spec fn shape_at(n: int) -> Tetros {
    if n == 0 {
        Tetros::I
    } else if n == 1 {
        Tetros::O
    } else if n == 2 {
        Tetros::T
    } else if n == 3 {
        Tetros::J
    } else if n == 4 {
        Tetros::L
    } else if n == 5 {
        Tetros::S
    } else {
        Tetros::Z
    }
}

/// A starting position with its rotation vector.
pub open spec fn pt(x: usize, y: usize, dx: int, dy: int) -> (StartingCoords, FirstRotation) {
    ((x, y), (dx as isize, dy as isize))
}

/// Starting positions and rotation vectors of each shape.
pub open spec fn shape_points(kind: Tetros) -> Seq<(StartingCoords, FirstRotation)> {
    match kind {
        Tetros::I => seq![pt(6, 3, 1, -1), pt(7, 3, 0, 0), pt(8, 3, -1, 1), pt(9, 3, -2, 2)],
        Tetros::O => seq![pt(6, 3, 0, 0), pt(7, 3, 0, 0), pt(6, 4, 0, 0), pt(7, 4, 0, 0)],
        Tetros::T => seq![pt(7, 3, 1, 1), pt(6, 4, 1, -1), pt(7, 4, 0, 0), pt(8, 4, -1, 1)],
        Tetros::J => seq![pt(6, 3, 1, -1), pt(7, 3, 0, 0), pt(8, 3, -1, 1), pt(8, 4, -2, 0)],
        Tetros::L => seq![pt(6, 3, 1, -1), pt(7, 3, 0, 0), pt(8, 3, -1, 1), pt(6, 4, 0, -2)],
        Tetros::S => seq![pt(7, 3, 1, 1), pt(8, 3, 0, 2), pt(6, 4, 1, -1), pt(7, 4, 0, 0)],
        Tetros::Z => seq![pt(6, 3, 2, 0), pt(7, 3, 1, 1), pt(7, 4, 0, 0), pt(8, 4, -1, 1)],
    }
}

/// A fresh piece of the given shape, every cell active.
pub open spec fn tetro_of(kind: Tetros) -> Seq<TetroCell> {
    shape_points(kind).map_values(
        |p: (StartingCoords, FirstRotation)| TetroCell { cell: Cell::Tetro(p.1.0, p.1.1), coords: p.0 },
    )
}

/// The rank by which the cells of a piece are sorted: a clash above an
/// active cell, an active cell above a static one.
pub open spec fn cell_rank(c: Cell) -> int {
    match c {
        Cell::Clash(_) => 2,
        Cell::Tetro(_, _) => 1,
        _ => 0,
    }
}

/// Whether cell `a` ranks strictly below cell `b`.
pub open spec fn cell_lt(a: Cell, b: Cell) -> bool {
    cell_rank(a) < cell_rank(b)
}

/// Whether a piece's cells stand in descending order of rank.
pub open spec fn sorted_desc(s: Seq<TetroCell>) -> bool {
    forall|i: int, j: int| 0 <= i < j < s.len() ==> !cell_lt(#[trigger] s[i].cell, #[trigger] s[j].cell)
}

/// `p` maps each position of `a` to a distinct position of `b` holding the
/// same cell.
pub open spec fn perm_of(p: Seq<int>, a: Seq<TetroCell>, b: Seq<TetroCell>) -> bool {
    &&& p.len() == a.len()
    &&& forall|i: int| 0 <= i < p.len() ==> 0 <= #[trigger] p[i] < b.len() && a[i] == b[p[i]]
    &&& forall|i: int, j: int| 0 <= i < p.len() && 0 <= j < p.len() && i != j ==> #[trigger] p[i] != #[trigger] p[j]
}

/// `a` is `b` in some order.
pub open spec fn permutes(a: Seq<TetroCell>, b: Seq<TetroCell>) -> bool {
    a.len() == b.len() && exists|p: Seq<int>| perm_of(p, a, b)
}

/// `p` maps `a` onto `b` keeping the order of cells of equal rank.
pub open spec fn stable_perm_of(p: Seq<int>, a: Seq<TetroCell>, b: Seq<TetroCell>) -> bool {
    &&& perm_of(p, a, b)
    &&& forall|i: int, j: int|
        0 <= i < j < a.len() && cell_rank(a[i].cell) == cell_rank(a[j].cell) ==> #[trigger] p[i] < #[trigger] p[j]
}

/// `a` is `b` in some order, cells of equal rank keeping their order.
pub open spec fn stably_permutes(a: Seq<TetroCell>, b: Seq<TetroCell>) -> bool {
    a.len() == b.len() && exists|p: Seq<int>| stable_perm_of(p, a, b)
}

/// A stable reordering is a reordering.
pub proof fn lemma_stable_permutes(a: Seq<TetroCell>, b: Seq<TetroCell>)
    requires
        stably_permutes(a, b),
    ensures
        permutes(a, b),
{
    let p = choose|p: Seq<int>| stable_perm_of(p, a, b);
    assert(perm_of(p, a, b));
}

/// Whether some cell of a piece is a clash.
pub open spec fn has_clash(s: Seq<TetroCell>) -> bool {
    exists|i: int| 0 <= i < s.len() && (#[trigger] s[i].cell) is Clash
}

/// In a piece sorted in descending order, the front cell is a clash as soon as
/// any cell is: a look at the front tells whether the piece collided.
pub proof fn lemma_clash_in_front(s: Seq<TetroCell>)
    requires
        sorted_desc(s),
    ensures
        has_clash(s) <==> (s.len() > 0 && s[0].cell is Clash),
{
    if has_clash(s) {
        let i = choose|i: int| 0 <= i < s.len() && (#[trigger] s[i].cell) is Clash;
        if i > 0 {
            assert(!cell_lt(s[0].cell, s[i].cell));
        }
    }
}

/// Relies on rand::Rng::gen_range over rand::thread_rng: a number in `[0, high)`.
#[verifier::external_body]
fn random_below(high: usize) -> (r: usize)
    requires
        0 < high,
    ensures
        r < high,
{
    rand::Rng::gen_range(&mut rand::thread_rng(), 0, high)
}

impl Tetros {
    /// The shape that a number below seven picks.
    pub fn from_index(n: usize) -> (r: Tetros)
        requires
            n < 7,
        ensures
            r == shape_at(n as int),
    {
        match n {
            0 => Tetros::I,
            1 => Tetros::O,
            2 => Tetros::T,
            3 => Tetros::J,
            4 => Tetros::L,
            5 => Tetros::S,
            _ => Tetros::Z,
        }
    }

    /// A shape picked at random, each of the seven with the same chance.
    pub fn random() -> (r: Tetros)
        ensures
            exists|n: int| 0 <= n < 7 && r == shape_at(n),
    {
        let n = random_below(7);
        Tetros::from_index(n)
    }
}

fn points(
    a: (StartingCoords, FirstRotation),
    b: (StartingCoords, FirstRotation),
    c: (StartingCoords, FirstRotation),
    d: (StartingCoords, FirstRotation),
) -> (r: Vec<(StartingCoords, FirstRotation)>)
    ensures
        r@ == seq![a, b, c, d],
{
    let mut r = Vec::new();
    r.push(a);
    r.push(b);
    r.push(c);
    r.push(d);
    r
}

/// Starting positions and rotation vectors of a shape.
pub fn to_points_vec(kind: Tetros) -> (r: Vec<(StartingCoords, FirstRotation)>)
    ensures
        r@ == shape_points(kind),
{
    match kind {
        Tetros::I => points(((6, 3), (1, -1)), ((7, 3), (0, 0)), ((8, 3), (-1, 1)), ((9, 3), (-2, 2))),
        Tetros::O => points(((6, 3), (0, 0)), ((7, 3), (0, 0)), ((6, 4), (0, 0)), ((7, 4), (0, 0))),
        Tetros::T => points(((7, 3), (1, 1)), ((6, 4), (1, -1)), ((7, 4), (0, 0)), ((8, 4), (-1, 1))),
        Tetros::J => points(((6, 3), (1, -1)), ((7, 3), (0, 0)), ((8, 3), (-1, 1)), ((8, 4), (-2, 0))),
        Tetros::L => points(((6, 3), (1, -1)), ((7, 3), (0, 0)), ((8, 3), (-1, 1)), ((6, 4), (0, -2))),
        Tetros::S => points(((7, 3), (1, 1)), ((8, 3), (0, 2)), ((6, 4), (1, -1)), ((7, 4), (0, 0))),
        Tetros::Z => points(((6, 3), (2, 0)), ((7, 3), (1, 1)), ((7, 4), (0, 0)), ((8, 4), (-1, 1))),
    }
}

/// A fresh piece of the given shape.
pub fn new_tetro_of(kind: Tetros) -> (r: Tetromino)
    ensures
        r@ == tetro_of(kind),
{
    let pts = to_points_vec(kind);
    let mut r: Tetromino = Vec::new();
    let mut i: usize = 0;
    while i < pts.len()
        invariant
            pts@ == shape_points(kind),
            i <= pts@.len(),
            r@ == tetro_of(kind).take(i as int),
        decreases pts@.len() - i,
    {
        let (coords, (x, y)) = pts[i];
        r.push(TetroCell { cell: Cell::Tetro(x, y), coords });
        i += 1;
        assert(r@ =~= tetro_of(kind).take(i as int));
    }
    assert(r@ =~= tetro_of(kind));
    r
}

/// A fresh piece of a shape picked at random.
pub fn new_tetro() -> (r: Tetromino)
    ensures
        exists|kind: Tetros| r@ == tetro_of(kind),
{
    new_tetro_of(Tetros::random())
}

fn cell_rank_exec(c: &Cell) -> (r: u8)
    ensures
        cell_rank(*c) == r as int,
{
    match c {
        Cell::Clash(_) => 2,
        Cell::Tetro(_, _) => 1,
        _ => 0,
    }
}

/// Whether cell `a` ranks strictly below cell `b`.
pub fn cell_before(a: &Cell, b: &Cell) -> (r: bool)
    ensures
        r == cell_lt(*a, *b),
{
    cell_rank_exec(a) < cell_rank_exec(b)
}

/// Sorts a piece's cells by rank, highest first, keeping the order of cells
/// of equal rank: clashes first, then active cells, then static ones.
pub fn sort_tetro(tetromino: &mut Tetromino)
    ensures
        final(tetromino)@.to_multiset() == old(tetromino)@.to_multiset(),
        final(tetromino)@.len() == old(tetromino)@.len(),
        permutes(final(tetromino)@, old(tetromino)@),
        stably_permutes(final(tetromino)@, old(tetromino)@),
        sorted_desc(final(tetromino)@),
{
    let n = tetromino.len();
    let ghost mut p: Seq<int> = Seq::new(n as nat, |k: int| k);
    assert(stable_perm_of(p, tetromino@, old(tetromino)@));
    if n == 0 {
        return;
    }
    let mut i: usize = 1;
    while i < n
        invariant
            1 <= i <= n,
            n == tetromino@.len(),
            tetromino@.to_multiset() == old(tetromino)@.to_multiset(),
            stable_perm_of(p, tetromino@, old(tetromino)@),
            sorted_desc(tetromino@.take(i as int)),
        decreases n - i,
    {
        let mut j: usize = i;
        assert forall|a: int, b: int| 0 <= a < b < i implies !cell_lt(
            #[trigger] tetromino@[a].cell,
            #[trigger] tetromino@[b].cell,
        ) by {
            assert(tetromino@.take(i as int)[a] == tetromino@[a]);
            assert(tetromino@.take(i as int)[b] == tetromino@[b]);
        }
        while j > 0
            invariant
                0 <= j <= i < n,
                n == tetromino@.len(),
                tetromino@.to_multiset() == old(tetromino)@.to_multiset(),
                stable_perm_of(p, tetromino@, old(tetromino)@),
                forall|a: int, b: int|
                    0 <= a < b <= i && b != j ==> !cell_lt(#[trigger] tetromino@[a].cell, #[trigger] tetromino@[b].cell),
            ensures
                0 <= j <= i < n,
                n == tetromino@.len(),
                tetromino@.to_multiset() == old(tetromino)@.to_multiset(),
                stable_perm_of(p, tetromino@, old(tetromino)@),
                forall|a: int, b: int|
                    0 <= a < b <= i && b != j ==> !cell_lt(#[trigger] tetromino@[a].cell, #[trigger] tetromino@[b].cell),
                j == 0 || !cell_lt(tetromino@[j - 1].cell, tetromino@[j as int].cell),
            decreases j,
        {
            if !cell_before(&tetromino[j - 1].cell, &tetromino[j].cell) {
                break;
            }
            let x = tetromino[j - 1];
            let y = tetromino[j];
            proof {
                vstd::seq_lib::to_multiset_update(tetromino@, j - 1, y);
                vstd::seq_lib::to_multiset_update(tetromino@.update(j - 1, y), j as int, x);
            }
            tetromino.set(j - 1, y);
            tetromino.set(j, x);
            proof {
                p = p.update(j - 1, p[j as int]).update(j as int, p[j - 1]);
            }
            j -= 1;
        }
        assert forall|a: int, b: int| 0 <= a < b <= i implies !cell_lt(
            #[trigger] tetromino@[a].cell,
            #[trigger] tetromino@[b].cell,
        ) by {
            if b == j && a < j - 1 {
                assert(!cell_lt(tetromino@[a].cell, tetromino@[j - 1].cell));
            }
        }
        i += 1;
        assert forall|a: int, b: int| 0 <= a < b < tetromino@.take(i as int).len() implies !cell_lt(
            #[trigger] tetromino@.take(i as int)[a].cell,
            #[trigger] tetromino@.take(i as int)[b].cell,
        ) by {
            assert(!cell_lt(tetromino@[a].cell, tetromino@[b].cell));
        }
    }
    assert(tetromino@.take(n as int) =~= tetromino@);
    assert(stable_perm_of(p, tetromino@, old(tetromino)@));
}

} // verus!
