//! The player of a level.
use vstd::prelude::*;
use crate::grid::{Direction, Position};

verus! {

/// The player: where it stands and where it looks.
#[derive(Clone, Copy, Debug, PartialEq, Eq, Structural)]
pub struct Player {
    pub position: Position,
    pub direction: Direction,
}

impl Player {
    /// A player standing at `position`, looking south.
    pub fn new(position: Position) -> (r: Player)
        ensures
            r == (Player { position, direction: Direction::South }),
    {
        Player { position, direction: Direction::South }
    }

    pub fn set_transform(&mut self, position: Position, direction: Direction)
        ensures
            *final(self) == (Player { position, direction }),
    {
        self.position = position;
        self.direction = direction;
    }

    pub fn set_position(&mut self, position: Position)
        ensures
            *final(self) == (Player { position, ..*old(self) }),
    {
        self.position = position;
    }

    pub fn position(&self) -> (r: Position)
        ensures
            r == self.position,
    {
        self.position
    }

    pub fn set_direction(&mut self, direction: Direction)
        ensures
            *final(self) == (Player { direction, ..*old(self) }),
    {
        self.direction = direction;
    }

    pub fn direction(&self) -> (r: Direction)
        ensures
            r == self.direction,
    {
        self.direction
    }
}

} // verus!
