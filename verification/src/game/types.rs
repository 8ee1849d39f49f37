use vstd::prelude::*;

verus! {

/// Width of the logic grid, in cells.
pub const GRID_W: i32 = 28;

/// Height of the logic grid, in cells.
pub const GRID_H: i32 = 18;

#[derive(Copy, Clone, PartialEq, Eq, Debug, Hash, Structural)]
pub struct Pos {
    pub x: i32,
    pub y: i32,
}

impl Pos {
    pub fn new(x: i32, y: i32) -> (p: Pos)
        ensures
            p == (Pos { x, y }),
    {
        Pos { x, y }
    }

    /// Whether this cell lies on the logic grid.
    pub open spec fn in_grid(self) -> bool {
        0 <= self.x < GRID_W && 0 <= self.y < GRID_H
    }
}

#[derive(Copy, Clone, PartialEq, Eq, Debug, Structural)]
pub enum Direction {
    Up,
    Down,
    Left,
    Right,
}

/// Screen-space step of a direction: y grows downwards.
pub open spec fn spec_delta(d: Direction) -> (int, int) {
    match d {
        Direction::Up => (0, -1),
        Direction::Down => (0, 1),
        Direction::Left => (-1, 0),
        Direction::Right => (1, 0),
    }
}

/// The direction pointing the other way.
pub open spec fn spec_opposite(d: Direction) -> Direction {
    match d {
        Direction::Up => Direction::Down,
        Direction::Down => Direction::Up,
        Direction::Left => Direction::Right,
        Direction::Right => Direction::Left,
    }
}

impl Direction {
    pub fn delta(self) -> (r: (i32, i32))
        ensures
            r.0 == spec_delta(self).0,
            r.1 == spec_delta(self).1,
    {
        match self {
            Direction::Up => (0, -1),
            Direction::Down => (0, 1),
            Direction::Left => (-1, 0),
            Direction::Right => (1, 0),
        }
    }

    pub fn opposite(self) -> (r: Direction)
        ensures
            r == spec_opposite(self),
    {
        match self {
            Direction::Up => Direction::Down,
            Direction::Down => Direction::Up,
            Direction::Left => Direction::Right,
            Direction::Right => Direction::Left,
        }
    }
}

/// Taking the opposite twice gives the direction back, and no direction is
/// its own opposite.
pub proof fn lemma_opposite_involution(d: Direction)
    ensures
        spec_opposite(spec_opposite(d)) == d,
        spec_opposite(d) != d,
{
}

#[derive(Copy, Clone, PartialEq, Eq, Debug, Structural)]
pub enum Mode {
    Classic,
    Endless,
    Daily,
}

impl Mode {
    /// Only Endless wraps at the walls; the other modes kill.
    pub fn wraps(self) -> (r: bool)
        ensures
            r == (self == Mode::Endless),
    {
        match self {
            Mode::Endless => true,
            _ => false,
        }
    }
}

} // verus!
