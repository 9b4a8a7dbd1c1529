use vstd::prelude::*;
use vstd::set_lib::{lemma_int_range, lemma_len_subset, set_int_range};
use crate::grid::{in_bounds, neighbor, opposite, Cell, Direction, GRID_CELLS, GRID_MIN, GRID_SIDE};

verus! {

/// The heading after a request for `req` while heading along `cur`: a
/// request to turn back the way the snake came is ignored.
pub open spec fn turned(cur: Direction, req: Direction) -> Direction {
    if req == opposite(cur) {
        cur
    } else {
        req
    }
}

/// The heading after a request for `req` while heading along `cur`.
pub fn turn_direction(cur: Direction, req: Direction) -> (r: Direction)
    ensures
        r == turned(cur, req),
{
    if req == cur.reverse() {
        cur
    } else {
        req
    }
}

/// The heading after an optional request.
pub open spec fn turned_by(cur: Direction, req: Option<Direction>) -> Direction {
    match req {
        Some(r) => turned(cur, r),
        None => cur,
    }
}

/// The cell the head of `cells` moves to along `d`.
pub open spec fn target(cells: Seq<Cell>, d: Direction) -> Cell {
    neighbor(cells[0], d)
}

/// Whether the move of `cells` along `d` lands on `food`.
pub open spec fn eats(cells: Seq<Cell>, d: Direction, food: Option<Cell>) -> bool {
    food == Some(target(cells, d))
}

/// The cells, head first, after one move along `d` with `food` on the board:
/// a new head always, and the tail gone unless the new head is on the food.
pub open spec fn advance(cells: Seq<Cell>, d: Direction, food: Option<Cell>) -> Seq<Cell> {
    if eats(cells, d, food) {
        seq![target(cells, d)] + cells
    } else {
        seq![target(cells, d)] + cells.drop_last()
    }
}

/// Whether the head of `cells` is off the board or on another segment.
pub open spec fn collides(cells: Seq<Cell>) -> bool {
    !in_bounds(cells[0]) || cells.drop_first().contains(cells[0])
}

/// Whether a snake on `cells` and `food` make a consistent board: every
/// segment on the board and on a cell of its own, and the food on the board
/// and off the snake.
pub open spec fn board_ok(cells: Seq<Cell>, food: Option<Cell>) -> bool {
    &&& cells.no_duplicates()
    &&& forall|i: int| 0 <= i < cells.len() ==> in_bounds(#[trigger] cells[i])
    &&& match food {
        Some(f) => in_bounds(f) && !cells.contains(f),
        None => true,
    }
}

/// Where the board's cells are numbered row by row from zero.
pub open spec fn cell_index(c: Cell) -> int {
    (c.x - GRID_MIN) * GRID_SIDE + (c.y - GRID_MIN)
}

/// Distinct cells on the board number at most as many as the board has.
pub proof fn lemma_board_capacity(cells: Seq<Cell>)
    requires
        cells.no_duplicates(),
        forall|i: int| 0 <= i < cells.len() ==> in_bounds(#[trigger] cells[i]),
    ensures
        cells.len() <= GRID_CELLS,
{
    let idx = cells.map_values(|c: Cell| cell_index(c));
    assert forall|i: int, j: int| 0 <= i < idx.len() && 0 <= j < idx.len() && i != j implies idx[i]
        != idx[j] by {
        assert(in_bounds(cells[i]) && in_bounds(cells[j]));
        assert(cells[i] != cells[j]);
    }
    assert(idx.no_duplicates());
    idx.unique_seq_to_set();
    lemma_int_range(0, GRID_CELLS as int);
    assert forall|k: int| idx.to_set().contains(k) implies set_int_range(
        0,
        GRID_CELLS as int,
    ).contains(k) by {
        let i = choose|i: int| 0 <= i < idx.len() && idx[i] == k;
        assert(in_bounds(cells[i]));
    }
    lemma_len_subset(idx.to_set(), set_int_range(0, GRID_CELLS as int));
}

/// The cells and the heading after one tick: the optional turn request `t.0`
/// is taken, then the snake moves with the food `t.1` on the board.
pub open spec fn step(cells: Seq<Cell>, d: Direction, t: (Option<Direction>, Option<Cell>)) -> (
    Seq<Cell>,
    Direction,
) {
    let nd = turned_by(d, t.0);
    (advance(cells, nd, t.1), nd)
}

/// The cells and the heading after a run of ticks from `cells` heading along
/// `d`, each tick as `step` takes it.
pub open spec fn run(cells: Seq<Cell>, d: Direction, ticks: Seq<(Option<Direction>, Option<Cell>)>) -> (
    Seq<Cell>,
    Direction,
)
    decreases ticks.len(),
{
    if ticks.len() == 0 {
        (cells, d)
    } else {
        let (c, d0) = run(cells, d, ticks.drop_last());
        step(c, d0, ticks.last())
    }
}

/// A run one tick longer ends where one more step from the shorter run's
/// end does; so a game driven tick by tick follows `run`.
pub proof fn lemma_run_extend(
    cells: Seq<Cell>,
    d: Direction,
    ticks: Seq<(Option<Direction>, Option<Cell>)>,
    t: (Option<Direction>, Option<Cell>),
)
    ensures
        run(cells, d, ticks.push(t)) == step(run(cells, d, ticks).0, run(cells, d, ticks).1, t),
{
    assert(ticks.push(t).drop_last() =~= ticks);
}

/// Turning to `req` and then stepping without a request is the step that
/// carries the request.
pub proof fn lemma_turn_then_step(cells: Seq<Cell>, d: Direction, req: Direction, food: Option<Cell>)
    ensures
        step(cells, turned(d, req), (None, food)) == step(cells, d, (Some(req), food)),
{
}

/// How many of the ticks of a run land the head on the food.
pub open spec fn eat_count(
    cells: Seq<Cell>,
    d: Direction,
    ticks: Seq<(Option<Direction>, Option<Cell>)>,
) -> nat
    decreases ticks.len(),
{
    if ticks.len() == 0 {
        0
    } else {
        let (c, d0) = run(cells, d, ticks.drop_last());
        let nd = turned_by(d0, ticks.last().0);
        eat_count(cells, d, ticks.drop_last()) + if eats(c, nd, ticks.last().1) {
            1nat
        } else {
            0nat
        }
    }
}

/// The head's cell after each tick of a run.
pub open spec fn head_trace(
    cells: Seq<Cell>,
    d: Direction,
    ticks: Seq<(Option<Direction>, Option<Cell>)>,
) -> Seq<Cell>
    decreases ticks.len(),
{
    if ticks.len() == 0 {
        seq![]
    } else {
        head_trace(cells, d, ticks.drop_last()).push(run(cells, d, ticks).0[0])
    }
}

/// After any run of ticks the snake is as long as at the start plus the
/// number of ticks on which it ate.
pub proof fn lemma_length_after_ticks(
    cells: Seq<Cell>,
    d: Direction,
    ticks: Seq<(Option<Direction>, Option<Cell>)>,
)
    requires
        cells.len() >= 1,
    ensures
        run(cells, d, ticks).0.len() == cells.len() + eat_count(cells, d, ticks),
    decreases ticks.len(),
{
    if ticks.len() > 0 {
        lemma_length_after_ticks(cells, d, ticks.drop_last());
    }
}

/// Movement holds no hidden input: two snakes whose heads share a cell and a
/// heading, given the same turn requests, visit the same cells with their
/// heads and end with the same heading, whatever their bodies and whatever
/// food lies on the board.
pub proof fn lemma_heads_determined(
    cells1: Seq<Cell>,
    cells2: Seq<Cell>,
    d: Direction,
    ticks1: Seq<(Option<Direction>, Option<Cell>)>,
    ticks2: Seq<(Option<Direction>, Option<Cell>)>,
)
    requires
        cells1.len() >= 1,
        cells2.len() >= 1,
        cells1[0] == cells2[0],
        ticks1.len() == ticks2.len(),
        forall|i: int| 0 <= i < ticks1.len() ==> (#[trigger] ticks1[i]).0 == ticks2[i].0,
    ensures
        head_trace(cells1, d, ticks1) == head_trace(cells2, d, ticks2),
        run(cells1, d, ticks1).0[0] == run(cells2, d, ticks2).0[0],
        run(cells1, d, ticks1).1 == run(cells2, d, ticks2).1,
    decreases ticks1.len(),
{
    if ticks1.len() > 0 {
        let p1 = ticks1.drop_last();
        let p2 = ticks2.drop_last();
        assert forall|i: int| 0 <= i < p1.len() implies (#[trigger] p1[i]).0 == p2[i].0 by {
            assert(p1[i] == ticks1[i]);
            assert(p2[i] == ticks2[i]);
        }
        lemma_heads_determined(cells1, cells2, d, p1, p2);
        assert(ticks1.last().0 == ticks2.last().0);
    }
}

} // verus!
