use vstd::prelude::*;

verus! {

/// A point on a grid of whole map units, and whether a line ends in it.
#[derive(Debug, PartialEq, Eq, Clone, Copy, Structural)]
pub struct Point {
    pub x: i32,
    pub y: i32,
    pub end: bool,
}

} // verus!
