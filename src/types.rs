use vstd::prelude::*;

verus! {

/// A cell's coordinates: `x` runs along a row, `y` down the columns.
#[derive(Clone, Copy, Debug, PartialEq, Eq)]
pub struct Point {
    pub x: usize,
    pub y: usize,
}

} // verus!
