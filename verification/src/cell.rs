use vstd::prelude::*;

verus! {

/// The state of one grid position: dead or alive, never anything else.
#[derive(Clone, Copy, Debug, PartialEq, Eq, Structural)]
pub enum Cell {
    Dead,
    Alive,
}

impl Cell {
    /// The opposite state.
    pub open spec fn flipped(self) -> Cell {
        match self {
            Cell::Dead => Cell::Alive,
            Cell::Alive => Cell::Dead,
        }
    }

    /// Flips this cell in place: Dead becomes Alive, Alive becomes Dead.
    pub fn toggle(&mut self)
        ensures
            *final(self) == old(self).flipped(),
    {
        *self = match *self {
            Cell::Dead => Cell::Alive,
            Cell::Alive => Cell::Dead,
        };
    }

    /// True exactly when this cell is `Alive`.
    pub fn is_alive(&self) -> (b: bool)
        ensures
            b == (*self is Alive),
    {
        match self {
            Cell::Alive => true,
            Cell::Dead => false,
        }
    }
}

} // verus!
