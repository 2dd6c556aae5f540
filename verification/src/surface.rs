//! What is drawn, written down as plain values. A drawing surface that takes
//! a gradient and fills a rectangle with it can replay these one by one.
use vstd::prelude::*;

verus! {

/// One colour stop of a gradient. It sits at the fraction `position / of` of
/// the way along the gradient; `of` is never zero.
#[derive(Debug)]
pub struct Stop<C> {
    pub position: usize,
    pub of: usize,
    pub colour: C,
}

impl<C> Stop<C> {
    /// This stop sits at the very start of the gradient.
    pub open spec fn at_start(self) -> bool {
        self.position == 0 && self.of > 0
    }

    /// This stop sits at the very end of the gradient.
    pub open spec fn at_end(self) -> bool {
        self.position == self.of && self.of > 0
    }

    /// This stop sits strictly before `other`, as fractions compare.
    pub open spec fn before(self, other: Stop<C>) -> bool {
        self.position * other.of < other.position * self.of
    }
}

/// A linear gradient from the point `(x0, y0)` to the point `(x1, y1)`.
#[derive(Debug)]
pub struct Gradient<C> {
    pub x0: i32,
    pub y0: i32,
    pub x1: i32,
    pub y1: i32,
    pub stops: Vec<Stop<C>>,
}

impl<C> Gradient<C> {
    /// A gradient between two points that has no stops yet.
    pub fn new(x0: i32, y0: i32, x1: i32, y1: i32) -> (g: Self)
        ensures
            g.x0 == x0,
            g.y0 == y0,
            g.x1 == x1,
            g.y1 == y1,
            g.stops@ == Seq::<Stop<C>>::empty(),
    {
        Gradient { x0, y0, x1, y1, stops: Vec::new() }
    }
}

/// One filled rectangle: its corner, its extent, and the gradient it is
/// filled with.
#[derive(Debug)]
pub struct Paint<C> {
    pub gradient: Gradient<C>,
    pub x: i32,
    pub y: i32,
    pub width: i32,
    pub height: i32,
}

} // verus!
