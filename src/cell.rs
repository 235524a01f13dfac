use vstd::prelude::*;

verus! {

/// One cell of the automaton: alive or dead.
#[derive(Clone, Copy, Debug, PartialEq, Eq)]
pub struct Cell {
    alive: bool,
}

impl View for Cell {
    type V = bool;

    /// Whether the cell is alive.
    closed spec fn view(&self) -> bool {
        self.alive
    }
}

impl Cell {
    pub fn new(alive: bool) -> (r: Cell)
        ensures
            r@ == alive,
    {
        Cell { alive }
    }

    pub fn is_alive(&self) -> (r: bool)
        ensures
            r == self@,
    {
        self.alive
    }

    pub fn set_state(&mut self, alive: bool)
        ensures
            final(self)@ == alive,
    {
        self.alive = alive;
    }
}

/// Two cells are the same value exactly when they agree on being alive.
pub proof fn lemma_cells_equal_by_view(a: Cell, b: Cell)
    ensures
        (a@ == b@) == (a == b),
{
}

} // verus!
