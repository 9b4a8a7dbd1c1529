use vstd::prelude::*;
use rand::Rng;
use crate::chain::Chain;
use crate::grid::{in_bounds, Cell, Direction, GRID_MAX, GRID_MIN};
use crate::rules::{
    advance, board_ok, collides, eats, eat_count, lemma_board_capacity, lemma_length_after_ticks,
    lemma_run_extend, run, step, target, turn_direction, turned,
};

verus! {

/// How many random cells the food spawner draws before it scans the board.
pub const FOOD_ATTEMPTS: u32 = 1000;

/// What a tick of movement led to.
#[derive(Clone, Copy, Debug, PartialEq, Eq, Structural)]
pub enum TickOutcome {
    /// The snake moved and kept its length.
    Moved,
    /// The snake moved onto the food, ate it and grew by one segment.
    Ate,
    /// The head left the board or ran into the body; the game has ended.
    GameOver,
}

/// What a segment is, for drawing.
#[derive(Clone, Copy, Debug, PartialEq, Eq, Structural)]
pub enum Role {
    Head,
    Body,
}

/// The state of a game as the contracts see it.
pub struct GameView {
    /// Occupied cells, head first.
    pub cells: Seq<Cell>,
    pub direction: Direction,
    pub food: Option<Cell>,
    /// Whether the last tick ate the food.
    pub eaten: bool,
    /// Whether the game is still running.
    pub alive: bool,
}

/// The whole simulation: the snake, its heading, the food, and whether the
/// game goes on.
pub struct Game {
    snake: Chain,
    direction: Direction,
    food: Option<Cell>,
    eaten: bool,
    alive: bool,
}

/// Whether the board scan, column by column from the lowest, reaches `e`
/// before `c`.
pub open spec fn scanned_before(e: Cell, c: Cell) -> bool {
    e.x < c.x || (e.x == c.x && e.y < c.y)
}

/// Whether some cell of the board is free of the snake.
pub open spec fn has_free_cell(cells: Seq<Cell>) -> bool {
    exists|c: Cell| in_bounds(c) && !cells.contains(c)
}

/// Relies on rand's `thread_rng` and `Rng::gen_range`: a number drawn
/// uniformly from `lo..=hi`. `gen_range` panics on an empty range, which
/// `lo <= hi` rules out.
#[verifier::external_body]
fn random_in(lo: i32, hi: i32) -> (r: i32)
    requires
        lo <= hi,
    ensures
        lo <= r <= hi,
{
    rand::thread_rng().gen_range(lo..=hi)
}

impl View for Game {
    type V = GameView;

    closed spec fn view(&self) -> GameView {
        GameView {
            cells: self.snake@,
            direction: self.direction,
            food: self.food,
            eaten: self.eaten,
            alive: self.alive,
        }
    }
}

/// While the game runs, no two segments share a cell.
pub proof fn lemma_running_snake_distinct(g: &Game)
    requires
        g.wf(),
        g@.alive,
    ensures
        g@.cells.no_duplicates(),
        forall|i: int| 0 <= i < g@.cells.len() ==> in_bounds(#[trigger] g@.cells[i]),
{
}

/// Whether each game state of `views` is one step from the one before it,
/// the steps being `ticks`: what `tick` gives, after `turn` for a request.
pub open spec fn follows(views: Seq<GameView>, ticks: Seq<(Option<Direction>, Option<Cell>)>) -> bool {
    &&& views.len() == ticks.len() + 1
    &&& forall|i: int|
        0 <= i < ticks.len() ==> (views[i + 1].cells, views[i + 1].direction) == step(
            views[i].cells,
            views[i].direction,
            #[trigger] ticks[i],
        )
}

/// A game stepped tick by tick ends where `run` says, and so keeps its laws:
/// its length is the start's plus the meals, and its heads depend only on
/// the start's head, heading and turn requests.
pub proof fn lemma_game_follows_run(
    views: Seq<GameView>,
    ticks: Seq<(Option<Direction>, Option<Cell>)>,
)
    requires
        follows(views, ticks),
        views[0].cells.len() >= 1,
    ensures
        (views.last().cells, views.last().direction) == run(
            views[0].cells,
            views[0].direction,
            ticks,
        ),
        views.last().cells.len() == views[0].cells.len() + eat_count(
            views[0].cells,
            views[0].direction,
            ticks,
        ),
    decreases ticks.len(),
{
    if ticks.len() > 0 {
        let pv = views.drop_last();
        let pt = ticks.drop_last();
        assert forall|i: int| 0 <= i < pt.len() implies (pv[i + 1].cells, pv[i + 1].direction)
            == step(pv[i].cells, pv[i].direction, #[trigger] pt[i]) by {
            assert(ticks[i] == pt[i]);
            assert(views[i] == pv[i]);
            assert(views[i + 1] == pv[i + 1]);
        }
        lemma_game_follows_run(pv, pt);
        let n = ticks.len() - 1;
        let prev = views[n];
        assert(prev == pv.last());
        let r = run(views[0].cells, views[0].direction, pt);
        assert((prev.cells, prev.direction) == r);
        assert((views.last().cells, views.last().direction) == step(
            prev.cells,
            prev.direction,
            ticks[n],
        ));
        lemma_run_extend(views[0].cells, views[0].direction, pt, ticks.last());
        assert(pt.push(ticks.last()) =~= ticks);
    }
    lemma_length_after_ticks(views[0].cells, views[0].direction, ticks);
}

/// Movement holds no hidden input: two games stepped tick by tick from heads
/// on one cell with one heading, given the same turn requests, have their
/// heads on the same cells and the same heading after every tick, whatever
/// their bodies and whatever food was placed.
pub proof fn lemma_game_heads_determined(
    views1: Seq<GameView>,
    views2: Seq<GameView>,
    ticks1: Seq<(Option<Direction>, Option<Cell>)>,
    ticks2: Seq<(Option<Direction>, Option<Cell>)>,
)
    requires
        follows(views1, ticks1),
        follows(views2, ticks2),
        ticks1.len() == ticks2.len(),
        forall|i: int| 0 <= i < ticks1.len() ==> (#[trigger] ticks1[i]).0 == ticks2[i].0,
        views1[0].cells[0] == views2[0].cells[0],
        views1[0].direction == views2[0].direction,
    ensures
        forall|k: int|
            0 <= k < views1.len() ==> (#[trigger] views1[k]).cells[0] == views2[k].cells[0]
                && views1[k].direction == views2[k].direction,
    decreases ticks1.len(),
{
    if ticks1.len() > 0 {
        let n = ticks1.len() - 1;
        let pv1 = views1.drop_last();
        let pv2 = views2.drop_last();
        let pt1 = ticks1.drop_last();
        let pt2 = ticks2.drop_last();
        assert forall|i: int| 0 <= i < pt1.len() implies (pv1[i + 1].cells, pv1[i + 1].direction)
            == step(pv1[i].cells, pv1[i].direction, #[trigger] pt1[i]) by {
            assert(ticks1[i] == pt1[i]);
        }
        assert forall|i: int| 0 <= i < pt2.len() implies (pv2[i + 1].cells, pv2[i + 1].direction)
            == step(pv2[i].cells, pv2[i].direction, #[trigger] pt2[i]) by {
            assert(ticks2[i] == pt2[i]);
        }
        assert forall|i: int| 0 <= i < pt1.len() implies (#[trigger] pt1[i]).0 == pt2[i].0 by {
            assert(ticks1[i] == pt1[i]);
            assert(ticks2[i] == pt2[i]);
        }
        lemma_game_heads_determined(pv1, pv2, pt1, pt2);
        assert(pv1[n] == views1[n] && pv2[n] == views2[n]);
        assert(ticks1[n].0 == ticks2[n].0);
        assert forall|k: int| 0 <= k < views1.len() implies (#[trigger] views1[k]).cells[0]
            == views2[k].cells[0] && views1[k].direction == views2[k].direction by {
            if k < views1.len() - 1 {
                assert(pv1[k] == views1[k] && pv2[k] == views2[k]);
            }
        }
    }
}

impl Game {
    /// The segment arena is well formed.
    pub closed spec fn chain_ok(&self) -> bool {
        self.snake.wf()
    }

    /// The game's invariant: a snake of at least two segments, and while the
    /// game runs, a consistent board.
    pub open spec fn wf(&self) -> bool {
        &&& self.chain_ok()
        &&& self@.cells.len() >= 2
        &&& self@.alive ==> board_ok(self@.cells, self@.food)
    }

    /// A new game: head at the origin, one segment to its left, heading
    /// right, no food yet.
    pub fn new() -> (r: Game)
        ensures
            r.wf(),
            r@.cells == seq![Cell { x: 0i32, y: 0i32 }, Cell { x: -1i32, y: 0i32 }],
            r@.direction == Direction::Right,
            r@.food == None::<Cell>,
            !r@.eaten,
            r@.alive,
    {
        let snake = Chain::new(Cell { x: 0, y: 0 }, Cell { x: -1, y: 0 });
        let r = Game { snake, direction: Direction::Right, food: None, eaten: false, alive: true };
        assert(r@.cells[0] != r@.cells[1]);
        r
    }

    /// Advances the snake one cell along its heading: a new head in front,
    /// the food eaten if the head lands on it, the tail dropped unless it was,
    /// and then the collision check. A game that has ended does not move.
    pub fn tick(&mut self) -> (r: TickOutcome)
        requires
            old(self).wf(),
        ensures
            final(self).wf(),
            !old(self)@.alive ==> final(self)@ == old(self)@ && r == TickOutcome::GameOver,
            old(self)@.alive ==> {
                let ate = eats(old(self)@.cells, old(self)@.direction, old(self)@.food);
                &&& final(self)@.cells == advance(
                    old(self)@.cells,
                    old(self)@.direction,
                    old(self)@.food,
                )
                &&& (final(self)@.cells, final(self)@.direction) == step(
                    old(self)@.cells,
                    old(self)@.direction,
                    (None, old(self)@.food),
                )
                &&& final(self)@.cells.len() == old(self)@.cells.len() + if ate {
                    1int
                } else {
                    0int
                }
                &&& final(self)@.direction == old(self)@.direction
                &&& final(self)@.eaten == ate
                &&& final(self)@.food == if ate {
                    None
                } else {
                    old(self)@.food
                }
                &&& final(self)@.alive == !collides(final(self)@.cells)
                &&& r == if collides(final(self)@.cells) {
                    TickOutcome::GameOver
                } else if ate {
                    TickOutcome::Ate
                } else {
                    TickOutcome::Moved
                }
            },
    {
        if !self.alive {
            return TickOutcome::GameOver;
        }
        let ghost before = self@;
        proof {
            lemma_board_capacity(before.cells);
        }
        let t = self.snake.head_position();
        assert(in_bounds(before.cells[0]));
        let next = t.step(self.direction);
        self.snake.grow_at_head(next);
        let ate = match self.food {
            Some(f) => f == next,
            None => false,
        };
        self.eaten = ate;
        if ate {
            self.food = None;
        } else {
            let _ = self.snake.shrink_at_tail();
        }
        proof {
            assert(next == target(before.cells, before.direction));
            assert(self@.cells =~= advance(before.cells, before.direction, before.food));
        }
        if !next.is_in_bounds() || self.snake.head_overlaps_body() {
            self.alive = false;
            return TickOutcome::GameOver;
        }
        proof {
            let cells = self@.cells;
            let rest = cells.drop_first();
            assert(rest =~= if ate { before.cells } else { before.cells.drop_last() });
            assert forall|i: int, j: int|
                0 <= i < cells.len() && 0 <= j < cells.len() && i != j implies cells[i]
                != cells[j] by {
                if i > 0 && j > 0 {
                    assert(rest[i - 1] == before.cells[i - 1]);
                    assert(rest[j - 1] == before.cells[j - 1]);
                } else if i == 0 {
                    assert(rest[j - 1] == cells[j]);
                } else {
                    assert(rest[i - 1] == cells[i]);
                }
            }
            assert forall|i: int| 0 <= i < cells.len() implies in_bounds(#[trigger] cells[i]) by {
                if i > 0 {
                    assert(rest[i - 1] == before.cells[i - 1]);
                }
            }
            match self.food {
                Some(f) => {
                    if cells.contains(f) {
                        let k = choose|k: int| 0 <= k < cells.len() && cells[k] == f;
                        if k > 0 {
                            assert(rest[k - 1] == before.cells[k - 1]);
                        }
                    }
                },
                None => {},
            }
        }
        if ate {
            TickOutcome::Ate
        } else {
            TickOutcome::Moved
        }
    }
    /// Puts the food on `c` if the game runs, no food is on the board, and
    /// `c` is a free cell of the board; says whether it did.
    pub fn place_food(&mut self, c: Cell) -> (r: bool)
        requires
            old(self).wf(),
        ensures
            final(self).wf(),
            r == (old(self)@.alive && old(self)@.food is None && in_bounds(c)
                && !old(self)@.cells.contains(c)),
            final(self)@.cells == old(self)@.cells,
            final(self)@.direction == old(self)@.direction,
            final(self)@.eaten == old(self)@.eaten,
            final(self)@.alive == old(self)@.alive,
            final(self)@.food == if r {
                Some(c)
            } else {
                old(self)@.food
            },
    {
        if !self.alive || self.food.is_some() || !c.is_in_bounds() || self.snake.occupies(c) {
            return false;
        }
        self.food = Some(c);
        true
    }

    /// The first free cell of the board, column by column, if there is one.
    pub fn free_cell(&self) -> (r: Option<Cell>)
        requires
            self.wf(),
        ensures
            r is None <==> !has_free_cell(self@.cells),
            r matches Some(c) ==> in_bounds(c) && !self@.cells.contains(c),
            r matches Some(c) ==> forall|e: Cell|
                in_bounds(e) && scanned_before(e, c) ==> #[trigger] self@.cells.contains(e),
    {
        let mut x: i32 = GRID_MIN;
        while x <= GRID_MAX
            invariant
                self.wf(),
                GRID_MIN <= x <= GRID_MAX + 1,
                forall|c: Cell| in_bounds(c) && c.x < x ==> #[trigger] self@.cells.contains(c),
            decreases GRID_MAX + 1 - x,
        {
            let mut y: i32 = GRID_MIN;
            while y <= GRID_MAX
                invariant
                    self.wf(),
                    GRID_MIN <= x <= GRID_MAX,
                    GRID_MIN <= y <= GRID_MAX + 1,
                    forall|c: Cell| in_bounds(c) && c.x < x ==> #[trigger] self@.cells.contains(c),
                    forall|c: Cell|
                        in_bounds(c) && c.x == x && c.y < y ==> #[trigger] self@.cells.contains(c),
                decreases GRID_MAX + 1 - y,
            {
                let c = Cell { x, y };
                if !self.snake.occupies(c) {
                    assert(in_bounds(c) && !self@.cells.contains(c));
                    assert(forall|e: Cell|
                        in_bounds(e) && scanned_before(e, c) ==> #[trigger] self@.cells.contains(e));
                    return Some(c);
                }
                y = y + 1;
            }
            x = x + 1;
        }
        None
    }

    /// Places food when the board has none: random cells of the board are
    /// drawn until one is free of the snake, and after `FOOD_ATTEMPTS` draws
    /// the board is scanned for a free cell. Says whether food was placed;
    /// only a board that the snake covers whole gets none.
    pub fn spawn_food(&mut self) -> (r: bool)
        requires
            old(self).wf(),
        ensures
            final(self).wf(),
            final(self)@.cells == old(self)@.cells,
            final(self)@.direction == old(self)@.direction,
            final(self)@.eaten == old(self)@.eaten,
            final(self)@.alive == old(self)@.alive,
            !(old(self)@.alive && old(self)@.food is None) ==> !r && final(self)@ == old(self)@,
            old(self)@.alive && old(self)@.food is None ==> {
                &&& r == has_free_cell(old(self)@.cells)
                &&& !r ==> final(self)@ == old(self)@
                &&& r ==> (final(self)@.food matches Some(f) && in_bounds(f)
                    && !final(self)@.cells.contains(f))
            },
    {
        if !self.alive || self.food.is_some() {
            return false;
        }
        let mut i: u32 = 0;
        while i < FOOD_ATTEMPTS
            invariant
                old(self)@.alive && old(self)@.food is None,
                self@ == old(self)@,
                self.wf(),
            decreases FOOD_ATTEMPTS - i,
        {
            let c = Cell { x: random_in(GRID_MIN, GRID_MAX), y: random_in(GRID_MIN, GRID_MAX) };
            if self.place_food(c) {
                return true;
            }
            i = i + 1;
        }
        match self.free_cell() {
            Some(c) => self.place_food(c),
            None => false,
        }
    }

    /// Requests a new heading; a request to turn back the way the snake came
    /// is ignored, and so is every request once the game has ended.
    pub fn turn(&mut self, req: Direction)
        requires
            old(self).wf(),
        ensures
            final(self).wf(),
            final(self)@.direction == if old(self)@.alive {
                turned(old(self)@.direction, req)
            } else {
                old(self)@.direction
            },
            final(self)@.cells == old(self)@.cells,
            final(self)@.food == old(self)@.food,
            final(self)@.eaten == old(self)@.eaten,
            final(self)@.alive == old(self)@.alive,
    {
        if self.alive {
            self.direction = turn_direction(self.direction, req);
        }
    }

    /// Occupied cells, head first.
    pub fn cells(&self) -> (r: Vec<Cell>)
        requires
            self.wf(),
        ensures
            r@ == self@.cells,
    {
        self.snake.occupied()
    }

    /// Occupied cells, head first, each tagged with its role.
    pub fn segments(&self) -> (r: Vec<(Cell, Role)>)
        requires
            self.wf(),
        ensures
            r@.len() == self@.cells.len(),
            forall|i: int|
                0 <= i < r@.len() ==> (#[trigger] r@[i]).0 == self@.cells[i] && r@[i].1 == (if i
                    == 0 {
                    Role::Head
                } else {
                    Role::Body
                }),
    {
        let cells = self.snake.occupied();
        let mut out: Vec<(Cell, Role)> = Vec::new();
        let mut i: usize = 0;
        while i < cells.len()
            invariant
                cells@ == self@.cells,
                i <= cells@.len(),
                out@.len() == i,
                forall|j: int|
                    0 <= j < i ==> (#[trigger] out@[j]).0 == cells@[j] && out@[j].1 == (if j
                        == 0 {
                        Role::Head
                    } else {
                        Role::Body
                    }),
            decreases cells@.len() - i,
        {
            let role = if i == 0 {
                Role::Head
            } else {
                Role::Body
            };
            out.push((cells[i], role));
            i = i + 1;
        }
        out
    }

    /// The head's cell.
    pub fn head(&self) -> (r: Cell)
        requires
            self.wf(),
        ensures
            r == self@.cells[0],
    {
        self.snake.head_position()
    }

    /// Number of segments.
    pub fn len(&self) -> (r: usize)
        requires
            self.wf(),
        ensures
            r == self@.cells.len(),
    {
        self.snake.len()
    }

    /// The current heading.
    pub fn direction(&self) -> (r: Direction)
        ensures
            r == self@.direction,
    {
        self.direction
    }

    /// The food's cell, if food is on the board.
    pub fn food(&self) -> (r: Option<Cell>)
        ensures
            r == self@.food,
    {
        self.food
    }

    /// Whether the last tick ate the food.
    pub fn eaten(&self) -> (r: bool)
        ensures
            r == self@.eaten,
    {
        self.eaten
    }

    /// Whether the game is still running.
    pub fn is_alive(&self) -> (r: bool)
        ensures
            r == self@.alive,
    {
        self.alive
    }
}

} // verus!
