//! Grid primitives: directions, their unit offsets, and positions.

use vstd::prelude::*;

verus! {

/// One of the four axis-aligned directions a player can face or move in.
#[derive(Debug, Clone, Copy, PartialEq, Eq, Structural)]
pub enum Direction {
    Up,
    Down,
    Left,
    Right,
}

/// A grid cell in the mathematical model: unbounded integer coordinates,
/// origin at the top left, `y` growing downward.
pub ghost struct Cell {
    pub x: int,
    pub y: int,
}

impl Cell {
    /// The cell one step away from `self` in direction `dir`.
    pub open spec fn shifted(self, dir: Direction) -> Cell {
        Cell { x: self.x + dir.dx(), y: self.y + dir.dy() }
    }

    /// Whether `self` and `other` share an edge.
    pub open spec fn adjacent(self, other: Cell) -> bool {
        ||| other == self.shifted(Direction::Up)
        ||| other == self.shifted(Direction::Down)
        ||| other == self.shifted(Direction::Left)
        ||| other == self.shifted(Direction::Right)
    }
}

impl Direction {
    /// Horizontal component of the unit offset.
    pub open spec fn dx(self) -> int {
        match self {
            Direction::Left => -1,
            Direction::Right => 1,
            _ => 0,
        }
    }

    /// Vertical component of the unit offset.
    pub open spec fn dy(self) -> int {
        match self {
            Direction::Up => -1,
            Direction::Down => 1,
            _ => 0,
        }
    }

    /// The unit offset `(dx, dy)` of this direction.
    pub fn as_offset(&self) -> (off: (i32, i32))
        ensures
            off.0 == self.dx(),
            off.1 == self.dy(),
    {
        match *self {
            Direction::Up => (0, -1),
            Direction::Right => (1, 0),
            Direction::Down => (0, 1),
            Direction::Left => (-1, 0),
        }
    }
}

/// A grid position with machine-integer coordinates. Positions may lie
/// outside a level's grid, on either side of the origin.
#[derive(Debug, Clone, Copy, PartialEq, Eq, Structural)]
pub struct Position {
    pub x: i32,
    pub y: i32,
}

impl View for Position {
    type V = Cell;

    open spec fn view(&self) -> Cell {
        Cell { x: self.x as int, y: self.y as int }
    }
}

impl Position {
    pub fn new(x: i32, y: i32) -> (p: Position)
        ensures
            p.x == x,
            p.y == y,
    {
        Position { x, y }
    }

    /// Whether the neighbour in direction `dir` is representable.
    pub open spec fn can_move(&self, dir: Direction) -> bool {
        &&& i32::MIN <= self.x + dir.dx() <= i32::MAX
        &&& i32::MIN <= self.y + dir.dy() <= i32::MAX
    }

    /// The neighbouring position one step in direction `dir`.
    pub fn move_in_direction(&self, dir: Direction) -> (p: Position)
        requires
            self.can_move(dir),
        ensures
            p@ == self@.shifted(dir),
    {
        match dir {
            Direction::Down => Position { x: self.x, y: self.y + 1 },
            Direction::Up => Position { x: self.x, y: self.y - 1 },
            Direction::Left => Position { x: self.x - 1, y: self.y },
            Direction::Right => Position { x: self.x + 1, y: self.y },
        }
    }
}

} // verus!
