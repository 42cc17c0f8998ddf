//! Grid coordinates and cardinal directions.
use vstd::prelude::*;

verus! {

/// A cardinal direction. On the grid, `y` grows southwards.
#[derive(Clone, Copy, Debug, PartialEq, Eq, Structural)]
pub enum Direction {
    North,
    South,
    West,
    East,
}

/// A cell of the grid, as integer coordinates.
#[derive(Clone, Copy, Debug, PartialEq, Eq, Structural)]
pub struct Position {
    pub x: i32,
    pub y: i32,
}

/// Whether both coordinates of a mathematical cell fit in an `i32`.
pub open spec fn fits_i32(c: (int, int)) -> bool {
    i32::MIN <= c.0 <= i32::MAX && i32::MIN <= c.1 <= i32::MAX
}

/// The cell one step from `c` towards `d`.
pub open spec fn shifted(c: (int, int), d: Direction) -> (int, int) {
    (c.0 + d.offset().0, c.1 + d.offset().1)
}

/// The cell one step from `c` away from `d`.
pub open spec fn shifted_back(c: (int, int), d: Direction) -> (int, int) {
    (c.0 - d.offset().0, c.1 - d.offset().1)
}

impl Direction {
    /// The unit movement vector of this direction.
    pub open spec fn offset(self) -> (int, int) {
        match self {
            Direction::North => (0, -1),
            Direction::South => (0, 1),
            Direction::West => (-1, 0),
            Direction::East => (1, 0),
        }
    }

    /// The direction pointing the other way.
    pub open spec fn spec_inverse(self) -> Direction {
        match self {
            Direction::North => Direction::South,
            Direction::South => Direction::North,
            Direction::West => Direction::East,
            Direction::East => Direction::West,
        }
    }

    /// The direction pointing the other way: North and South swap, as do West and East.
    pub fn inverse(self) -> (r: Direction)
        ensures
            r == self.spec_inverse(),
            r.offset() == (-self.offset().0, -self.offset().1),
    {
        match self {
            Direction::North => Direction::South,
            Direction::South => Direction::North,
            Direction::West => Direction::East,
            Direction::East => Direction::West,
        }
    }
}

impl Position {
    /// The mathematical cell of this position.
    pub open spec fn cell(self) -> (int, int) {
        (self.x as int, self.y as int)
    }

    /// The position of a cell whose coordinates fit in an `i32`.
    pub open spec fn of_cell(c: (int, int)) -> Position {
        Position { x: c.0 as i32, y: c.1 as i32 }
    }

    pub fn new(x: i32, y: i32) -> (r: Position)
        ensures
            r.x == x,
            r.y == y,
    {
        Position { x, y }
    }

    /// The position one step towards `d`, or `None` where it does not fit in an `i32`.
    pub fn step(self, d: Direction) -> (r: Option<Position>)
        ensures
            fits_i32(shifted(self.cell(), d)) <==> r.is_some(),
            r matches Some(p) ==> p.cell() == shifted(self.cell(), d),
    {
        match d {
            Direction::North => match self.y.checked_sub(1) {
                Some(y) => Some(Position { x: self.x, y }),
                None => None,
            },
            Direction::South => match self.y.checked_add(1) {
                Some(y) => Some(Position { x: self.x, y }),
                None => None,
            },
            Direction::West => match self.x.checked_sub(1) {
                Some(x) => Some(Position { x, y: self.y }),
                None => None,
            },
            Direction::East => match self.x.checked_add(1) {
                Some(x) => Some(Position { x, y: self.y }),
                None => None,
            },
        }
    }

    /// The position one step away from `d`, or `None` where it does not fit in an `i32`.
    pub fn step_back(self, d: Direction) -> (r: Option<Position>)
        ensures
            fits_i32(shifted_back(self.cell(), d)) <==> r.is_some(),
            r matches Some(p) ==> p.cell() == shifted_back(self.cell(), d),
    {
        self.step(d.inverse())
    }
}

/// Stepping towards `d` and then towards its inverse comes back to the start.
pub proof fn lemma_step_inverse(c: (int, int), d: Direction)
    ensures
        shifted(shifted(c, d), d.spec_inverse()) == c,
        shifted(c, d.spec_inverse()) == shifted_back(c, d),
        shifted_back(c, d.spec_inverse()) == shifted(c, d),
{
}

} // verus!
