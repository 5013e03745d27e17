use vstd::prelude::*;
use crate::cell::{Cell, Fixed};
use crate::board::{
    Board, Movement, simulated, spawned, in_play_piece, roomy, any_full, lock_result, clear_result,
    is_default_board, lemma_move_keeps_piece, lemma_simulated_cells, lemma_in_play_movable, movable, lemma_permuted_piece, lemma_spawn_in_play,
};
use crate::tetromino::{
    Tetromino, TetroCell, Tetros, sort_tetro, sorted_desc, stably_permutes, lemma_stable_permutes, has_clash, lemma_clash_in_front,
};

verus! {

broadcast use vstd::seq_lib::group_to_multiset_ensures;

/// The phase of a game.
#[derive(Copy, Clone, PartialEq, Eq, Structural, Debug)]
pub enum GameState {
    /// A piece is to be spawned.
    NewTetromino,
    /// A piece is falling; it last fell at the given time, in milliseconds.
    Moving(u64),
    /// A piece is dropping one row a tick until it lands.
    Spacing,
    /// A spawned piece clashed and no row could be cleared.
    GameOver,
    /// A new game is to start.
    Restart,
}

/// A player's command.
#[derive(Copy, Clone, PartialEq, Eq, Structural, Debug)]
pub enum Command {
    MoveLeft,
    MoveRight,
    SoftDrop,
    Rotate,
    HardDrop,
    RestartGame,
}

/// A game: the board, its phase, and how many pieces were played and rows
/// cleared.
pub struct App {
    pub board: Board,
    pub state: GameState,
    pub tetros_played: usize,
    pub lines_cleared: usize,
}

/// Milliseconds between two falls after `pieces` pieces: 700, less 50 for
/// every ten pieces, down to 150.
pub open spec fn speed_of(pieces: int) -> int {
    700 - 50 * (if pieces / 10 > 11 { 11 } else { pieces / 10 })
}

/// `a + b`, or `usize::MAX` where that is larger.
pub open spec fn sat_add(a: usize, b: int) -> usize {
    if a + b > usize::MAX { usize::MAX } else { (a + b) as usize }
}

/// Milliseconds between two falls after `tetros_played` pieces.
pub fn speed_ms(tetros_played: usize) -> (r: u64)
    ensures
        r == speed_of(tetros_played as int),
{
    let mut speed_factor: usize = tetros_played / 10;
    if speed_factor > 11 {
        speed_factor = 11;
    }
    (700 - 50 * speed_factor) as u64
}

fn copy_tetro(t: &Tetromino) -> (r: Tetromino)
    ensures
        r@ == t@,
{
    let mut r: Tetromino = Vec::new();
    let mut i: usize = 0;
    while i < t.len()
        invariant
            i <= t@.len(),
            r@ == t@.take(i as int),
        decreases t@.len() - i,
    {
        r.push(t[i]);
        i += 1;
        assert(r@ =~= t@.take(i as int));
    }
    assert(r@ =~= t@);
    r
}

/// The outcome of trying a move: the piece takes the moved place, sorted, if
/// no cell clashes there, and stays as it was otherwise.
pub open spec fn move_result(old: App, new: App, m: Movement) -> bool {
    let sim = simulated(old.board.grid(), old.board.current_tetro@, m);
    &&& new.board.cells == old.board.cells
    &&& new.state == old.state
    &&& new.tetros_played == old.tetros_played
    &&& new.lines_cleared == old.lines_cleared
    &&& if has_clash(sim) {
        new.board.current_tetro == old.board.current_tetro
    } else {
        stably_permutes(new.board.current_tetro@, sim) && sorted_desc(new.board.current_tetro@)
    }
}

/// The outcome of locking the piece: it is written into the grid, full rows
/// are cleared and counted, and a new piece is due.
pub open spec fn lock_step(old: App, new: App) -> bool {
    &&& new.state == GameState::NewTetromino
    &&& new.tetros_played == old.tetros_played
    &&& new.board.current_tetro@.len() == 0
    &&& exists|mid: Seq<Seq<Cell>>, r: int|
        lock_result(old.board.grid(), old.board.current_tetro@, mid)
        && #[trigger] clear_result(mid, new.board.grid(), r)
        && new.lines_cleared == sat_add(old.lines_cleared, r)
}

/// The outcome of a fall: one row down if nothing clashes there, with
/// `moving` as the next phase; a lock otherwise.
pub open spec fn fall_step(old: App, new: App, moving: GameState) -> bool {
    let sim = simulated(old.board.grid(), old.board.current_tetro@, Movement::Down);
    if has_clash(sim) {
        lock_step(old, new)
    } else {
        &&& new.board.cells == old.board.cells
        &&& stably_permutes(new.board.current_tetro@, sim)
        &&& sorted_desc(new.board.current_tetro@)
        &&& new.state == moving
        &&& new.tetros_played == old.tetros_played
        &&& new.lines_cleared == old.lines_cleared
    }
}

/// The outcome of spawning a piece of shape `kind` at time `now`.
pub open spec fn spawn_step(old: App, new: App, now: u64, kind: Tetros) -> bool {
    let g = old.board.grid();
    let sp = spawned(g, kind);
    &&& new.tetros_played == sat_add(old.tetros_played, 1)
    &&& if !has_clash(sp) {
        &&& new.state == GameState::Moving(now)
        &&& new.board.cells == old.board.cells
        &&& stably_permutes(new.board.current_tetro@, sp)
        &&& sorted_desc(new.board.current_tetro@)
        &&& new.lines_cleared == old.lines_cleared
    } else if any_full(g, 3, g.len() - 2) {
        &&& new.state == GameState::NewTetromino
        &&& exists|r: int| r > 0 && #[trigger] clear_result(g, new.board.grid(), r)
            && new.lines_cleared == sat_add(old.lines_cleared, r)
    } else {
        &&& new.state == GameState::GameOver
        &&& new.board.grid() == old.board.grid()
        &&& new.lines_cleared == old.lines_cleared
        &&& exists|q: Seq<TetroCell>| #[trigger] stably_permutes(q, sp) && new.board.current_tetro@ == q.map_values(
            |e: TetroCell| (TetroCell { cell: Cell::Clash(Fixed::Top), coords: e.coords }),
        )
    }
}

/// One tick of the game at time `now`, `kind` being the shape a spawn takes.
pub open spec fn advanced(old: App, new: App, now: u64, kind: Tetros) -> bool {
    match old.state {
        GameState::Restart => {
            &&& new.state == GameState::NewTetromino
            &&& new.tetros_played == 0
            &&& new.lines_cleared == 0
            &&& is_default_board(new.board)
        },
        GameState::NewTetromino => spawn_step(old, new, now, kind),
        GameState::Moving(t) => if now >= t + speed_of(old.tetros_played as int) {
            fall_step(old, new, GameState::Moving(now))
        } else {
            new == old
        },
        GameState::Spacing => fall_step(old, new, GameState::Spacing),
        GameState::GameOver => new == old,
    }
}

/// What a command does at time `now`.
pub open spec fn keyed(old: App, new: App, cmd: Command, now: u64) -> bool {
    match old.state {
        GameState::Moving(_) => match cmd {
            Command::MoveLeft => move_result(old, new, Movement::Left),
            Command::MoveRight => move_result(old, new, Movement::Right),
            Command::SoftDrop => fall_step(old, new, GameState::Moving(now)),
            Command::Rotate => move_result(old, new, Movement::Rotate),
            Command::HardDrop => new == (App { state: GameState::Spacing, ..old }),
            Command::RestartGame => new == old,
        },
        GameState::GameOver => if cmd == Command::RestartGame {
            new == (App { state: GameState::Restart, ..old })
        } else {
            new == old
        },
        _ => new == old,
    }
}

impl App {
    /// The game's invariant: a well-formed board with room to spawn, and, while
    /// a piece falls, a piece in play.
    pub open spec fn inv(&self) -> bool {
        &&& self.board.wf()
        &&& roomy(self.board.grid())
        &&& (self.state is Moving || self.state is Spacing) ==> in_play_piece(
            self.board.grid(),
            self.board.current_tetro@,
        )
    }

    /// A new game on a default board, about to spawn its first piece.
    pub fn new() -> (r: App)
        ensures
            r.inv(),
            r.state == GameState::NewTetromino,
            r.tetros_played == 0,
            r.lines_cleared == 0,
            is_default_board(r.board),
    {
        App { board: Board::default(), state: GameState::NewTetromino, tetros_played: 0, lines_cleared: 0 }
    }

    /// Milliseconds between two falls at the current count of pieces.
    pub fn current_speed(&self) -> (r: u64)
        ensures
            r == speed_of(self.tetros_played as int),
    {
        speed_ms(self.tetros_played)
    }

    /// Tries a move of the falling piece. It is made, and `true` returned,
    /// exactly when no cell of the moved piece clashes.
    pub fn attempt_move(&mut self, movement: Movement) -> (r: bool)
        requires
            old(self).board.wf(),
            old(self).board.current_tetro@.len() > 0,
            movable(old(self).board.grid(), old(self).board.current_tetro@, movement),
        ensures
            r == !has_clash(simulated(old(self).board.grid(), old(self).board.current_tetro@, movement)),
            move_result(*old(self), *final(self), movement),
            in_play_piece(old(self).board.grid(), old(self).board.current_tetro@) ==> in_play_piece(
                final(self).board.grid(),
                final(self).board.current_tetro@,
            ),
    {
        let ghost g = self.board.grid();
        let ghost sim = simulated(g, self.board.current_tetro@, movement);
        let mut future_tetro = copy_tetro(&self.board.current_tetro);
        self.board.simulate_move(&mut future_tetro, &movement);
        sort_tetro(&mut future_tetro);
        proof {
            lemma_clash_in_front(future_tetro@);
            if has_clash(sim) {
                let i = choose|i: int| 0 <= i < sim.len() && (#[trigger] sim[i].cell) is Clash;
                assert(sim.to_multiset().count(sim[i]) > 0);
                assert(future_tetro@.contains(sim[i]));
            }
            if has_clash(future_tetro@) {
                let i = choose|i: int| 0 <= i < future_tetro@.len() && (#[trigger] future_tetro@[i].cell) is Clash;
                assert(future_tetro@.to_multiset().count(future_tetro@[i]) > 0);
                assert(sim.contains(future_tetro@[i]));
            }
        }
        match future_tetro[0].cell {
            Cell::Tetro(_, _) => {
                proof {
                    if in_play_piece(g, self.board.current_tetro@) {
                        lemma_move_keeps_piece(g, self.board.current_tetro@, movement);
                        lemma_stable_permutes(future_tetro@, sim);
                        lemma_permuted_piece(g, future_tetro@, sim);
                    }
                }
                self.board.current_tetro = future_tetro;
                true
            },
            _ => {
                proof {
                    lemma_simulated_cells(g, self.board.current_tetro@, movement);
                    assert(future_tetro@.to_multiset().count(future_tetro@[0]) > 0);
                    assert(sim.contains(future_tetro@[0]));
                    assert(future_tetro@[0].cell is Clash);
                }
                false
            },
        }
    }

    fn lock_and_clear(&mut self)
        requires
            old(self).inv(),
            in_play_piece(old(self).board.grid(), old(self).board.current_tetro@),
        ensures
            final(self).inv(),
            lock_step(*old(self), *final(self)),
    {
        let ghost g = self.board.grid();
        let ghost piece = self.board.current_tetro@;
        proof {
            lemma_in_play_movable(g, piece, Movement::Down);
        }
        self.board.mark_tetro();
        let ghost mid = self.board.grid();
        let cleared = self.board.check_lines();
        self.lines_cleared = self.lines_cleared.saturating_add(cleared);
        self.state = GameState::NewTetromino;
        assert(lock_result(g, piece, mid));
        assert(clear_result(mid, self.board.grid(), cleared as int));
    }

    fn fall(&mut self, moving: GameState)
        requires
            old(self).inv(),
            in_play_piece(old(self).board.grid(), old(self).board.current_tetro@),
            moving is Moving || moving is Spacing,
        ensures
            final(self).inv(),
            fall_step(*old(self), *final(self), moving),
    {
        proof {
            lemma_in_play_movable(self.board.grid(), self.board.current_tetro@, Movement::Down);
        }
        if self.attempt_move(Movement::Down) {
            self.state = moving;
        } else {
            self.lock_and_clear();
        }
    }

    /// One tick of the game at time `now`, in milliseconds, with `kind` as the
    /// shape of a piece spawned on this tick.
    pub fn advance(&mut self, now: u64, kind: Tetros)
        requires
            old(self).inv(),
        ensures
            final(self).inv(),
            advanced(*old(self), *final(self), now, kind),
    {
        match self.state {
            GameState::Restart => {
                self.board = Board::default();
                self.tetros_played = 0;
                self.lines_cleared = 0;
                self.state = GameState::NewTetromino;
            },
            GameState::NewTetromino => {
                let ghost g = self.board.grid();
                self.board.spawn_tetromino(kind);
                self.tetros_played = self.tetros_played.saturating_add(1);
                proof {
                    lemma_clash_in_front(self.board.current_tetro@);
                    let sp = spawned(g, kind);
                    let cur = self.board.current_tetro@;
                    if has_clash(sp) {
                        let i = choose|i: int| 0 <= i < sp.len() && (#[trigger] sp[i].cell) is Clash;
                        assert(sp.to_multiset().count(sp[i]) > 0);
                        assert(cur.contains(sp[i]));
                    }
                    if has_clash(cur) {
                        let i = choose|i: int| 0 <= i < cur.len() && (#[trigger] cur[i].cell) is Clash;
                        assert(cur.to_multiset().count(cur[i]) > 0);
                        assert(sp.contains(cur[i]));
                    }
                }
                match self.board.current_tetro[0].cell {
                    Cell::Clash(_) => {
                        let cleared = self.board.check_lines();
                        if cleared > 0 {
                            self.lines_cleared = self.lines_cleared.saturating_add(cleared);
                            self.state = GameState::NewTetromino;
                            assert(clear_result(g, self.board.grid(), cleared as int));
                        } else {
                            self.board.mark_top_clash();
                            self.state = GameState::GameOver;
                        }
                    },
                    _ => {
                        proof {
                            lemma_spawn_in_play(g, kind);
                            lemma_stable_permutes(self.board.current_tetro@, spawned(g, kind));
                            lemma_permuted_piece(g, self.board.current_tetro@, spawned(g, kind));
                        }
                        self.state = GameState::Moving(now);
                    },
                }
            },
            GameState::Spacing => {
                self.fall(GameState::Spacing);
            },
            GameState::Moving(started_moving) => {
                let speed = self.current_speed();
                if now >= started_moving && now - started_moving >= speed {
                    self.fall(GameState::Moving(now));
                }
            },
            GameState::GameOver => {},
        }
    }

    /// One tick of the game at time `now`, in milliseconds. A shape is picked
    /// at random on every tick; it is used only when the tick spawns a piece.
    pub fn process_state(&mut self, now: u64)
        requires
            old(self).inv(),
        ensures
            final(self).inv(),
            exists|kind: Tetros| #[trigger] advanced(*old(self), *final(self), now, kind),
    {
        let kind = Tetros::random();
        self.advance(now, kind);
    }

    /// Applies a player's command at time `now`, in milliseconds. Commands that
    /// the current phase does not take are ignored.
    pub fn process_key(&mut self, cmd: Command, now: u64)
        requires
            old(self).inv(),
        ensures
            final(self).inv(),
            keyed(*old(self), *final(self), cmd, now),
    {
        match self.state {
            GameState::Moving(_) => {
                proof {
                    lemma_in_play_movable(self.board.grid(), self.board.current_tetro@, Movement::Left);
                    lemma_in_play_movable(self.board.grid(), self.board.current_tetro@, Movement::Right);
                    lemma_in_play_movable(self.board.grid(), self.board.current_tetro@, Movement::Rotate);
                }
                match cmd {
                Command::MoveRight => {
                    self.attempt_move(Movement::Right);
                },
                Command::MoveLeft => {
                    self.attempt_move(Movement::Left);
                },
                Command::SoftDrop => {
                    self.fall(GameState::Moving(now));
                },
                Command::Rotate => {
                    self.attempt_move(Movement::Rotate);
                },
                Command::HardDrop => {
                    self.state = GameState::Spacing;
                },
                Command::RestartGame => {},
                }
            },
            GameState::GameOver => match cmd {
                Command::RestartGame => self.state = GameState::Restart,
                _ => {},
            },
            _ => {},
        }
    }
}

} // verus!
