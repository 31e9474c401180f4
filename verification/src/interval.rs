//! Intervals of fixed-point values, used as the `t` range of a ray.

use vstd::prelude::*;
use crate::fixed::{sat64, Fx};

verus! {

/// Whether `t` lies strictly above `lo` and at most at `hi`: the
/// open-low/closed-high acceptance test of every intersection routine.
pub open spec fn surrounds_int(lo: int, hi: int, t: int) -> bool {
    lo < t <= hi
}

/// A range of distances along a ray.
#[derive(Clone, Copy, Debug, PartialEq, Eq, Structural)]
pub struct Interval {
    /// The lower end.
    pub start: Fx,
    /// The upper end.
    pub end: Fx,
}

impl Interval {
    /// The interval from `start` to `end`.
    pub fn new(start: Fx, end: Fx) -> (r: Interval)
        ensures
            r.start == start,
            r.end == end,
    {
        Interval { start, end }
    }

    /// The width of the interval.
    pub fn size(&self) -> (r: Fx)
        ensures
            r@ == sat64(self.end@ - self.start@),
    {
        self.end.sub(self.start)
    }

    /// Whether `n` lies inside the closed interval.
    pub fn contains(&self, n: Fx) -> (r: bool)
        ensures
            r == (self.start@ <= n@ <= self.end@),
    {
        self.start.le(n) && n.le(self.end)
    }

    /// Whether `n` lies strictly above the start and at most at the end.
    pub fn surrounds(&self, n: Fx) -> (r: bool)
        ensures
            r == surrounds_int(self.start@, self.end@, n@),
    {
        self.start.lt(n) && n.le(self.end)
    }

    /// Clamp `n` into the interval from below; values above the end also
    /// map back to the start.
    pub fn clamp(&self, n: Fx) -> (r: Fx)
        ensures
            r@ == if n@ < self.start@ {
                self.start@
            } else if n@ > self.end@ {
                self.start@
            } else {
                n@
            },
    {
        if n.lt(self.start) {
            return self.start;
        }
        if n.gt(self.end) {
            return self.start;
        }
        n
    }
}

} // verus!
