use vstd::prelude::*;

verus! {

/// Lowest coordinate, on either axis, of a cell inside the board.
pub const GRID_MIN: i32 = -10;

/// Highest coordinate, on either axis, of a cell inside the board.
pub const GRID_MAX: i32 = 9;

/// Number of cells along one side of the board.
pub const GRID_SIDE: usize = 20;

/// Number of cells on the board.
pub const GRID_CELLS: usize = GRID_SIDE * GRID_SIDE;

/// A square of the board, by integer column `x` and row `y`.
#[derive(Clone, Copy, Debug, PartialEq, Eq, Structural)]
pub struct Cell {
    pub x: i32,
    pub y: i32,
}

/// One of the four headings of the snake.
#[derive(Clone, Copy, Debug, PartialEq, Eq, Structural)]
pub enum Direction {
    Up,
    Down,
    Left,
    Right,
}

/// Horizontal component of the unit vector of `d`.
pub open spec fn dx(d: Direction) -> int {
    match d {
        Direction::Left => -1,
        Direction::Right => 1,
        _ => 0,
    }
}

/// Vertical component of the unit vector of `d`.
pub open spec fn dy(d: Direction) -> int {
    match d {
        Direction::Down => -1,
        Direction::Up => 1,
        _ => 0,
    }
}

/// The heading that points the other way.
pub open spec fn opposite(d: Direction) -> Direction {
    match d {
        Direction::Up => Direction::Down,
        Direction::Down => Direction::Up,
        Direction::Left => Direction::Right,
        Direction::Right => Direction::Left,
    }
}

/// Whether `c` lies on the board.
pub open spec fn in_bounds(c: Cell) -> bool {
    GRID_MIN <= c.x <= GRID_MAX && GRID_MIN <= c.y <= GRID_MAX
}

/// The cell one step from `c` along `d`.
pub open spec fn neighbor(c: Cell, d: Direction) -> Cell {
    Cell { x: (c.x + dx(d)) as i32, y: (c.y + dy(d)) as i32 }
}

/// Whether a cell's coordinates are far enough from the integer limits that
/// a step in any direction is exact.
pub open spec fn steppable(c: Cell) -> bool {
    i32::MIN < c.x < i32::MAX && i32::MIN < c.y < i32::MAX
}

impl Direction {
    /// The unit vector `(dx, dy)` of this heading.
    pub fn vector(self) -> (r: (i32, i32))
        ensures
            r.0 == dx(self),
            r.1 == dy(self),
    {
        match self {
            Direction::Up => (0, 1),
            Direction::Down => (0, -1),
            Direction::Left => (-1, 0),
            Direction::Right => (1, 0),
        }
    }

    /// The heading that points the other way.
    pub fn reverse(self) -> (r: Direction)
        ensures
            r == opposite(self),
    {
        match self {
            Direction::Up => Direction::Down,
            Direction::Down => Direction::Up,
            Direction::Left => Direction::Right,
            Direction::Right => Direction::Left,
        }
    }
}

impl Cell {
    /// Whether this cell lies on the board.
    pub fn is_in_bounds(&self) -> (r: bool)
        ensures
            r == in_bounds(*self),
    {
        GRID_MIN <= self.x && self.x <= GRID_MAX && GRID_MIN <= self.y && self.y <= GRID_MAX
    }

    /// The cell one step away along `d`.
    pub fn step(&self, d: Direction) -> (r: Cell)
        requires
            steppable(*self),
        ensures
            r == neighbor(*self, d),
            r.x == self.x + dx(d),
            r.y == self.y + dy(d),
    {
        let (vx, vy) = d.vector();
        Cell { x: self.x + vx, y: self.y + vy }
    }
}

} // verus!
