//! Closed numeric ranges over fixed-point values.  An interval with
//! `min > max` is empty and serves as the seed of bounding-box folds.
use vstd::prelude::*;

verus! {

/// Sentinel standing in for +infinity: far beyond any representable
/// geometric quantity, yet safe to add small offsets to inside i64.
pub const INF: i64 = 0x4000_0000_0000_0000;

#[derive(Clone, Copy, Debug, PartialEq, Eq, Structural)]
pub struct Interval {
    pub min: i64,
    pub max: i64,
}

impl Interval {
    pub fn new(min: i64, max: i64) -> (r: Interval)
        ensures
            r.min == min,
            r.max == max,
    {
        Interval { min, max }
    }

    /// The interval containing every representable value.
    pub fn universe() -> (r: Interval)
        ensures
            r.min == -INF,
            r.max == INF,
    {
        Interval { min: -INF, max: INF }
    }

    /// The empty interval, arranged so that merging it with any interval
    /// returns that interval.
    pub fn empty() -> (r: Interval)
        ensures
            r.min == INF,
            r.max == -INF,
    {
        Interval { min: INF, max: -INF }
    }

    /// The union (smallest enclosing interval) of two intervals.
    pub fn merge(a: &Interval, b: &Interval) -> (r: Interval)
        ensures
            r.min == if a.min <= b.min { a.min as int } else { b.min as int },
            r.max == if a.max >= b.max { a.max as int } else { b.max as int },
    {
        Interval {
            min: if a.min <= b.min { a.min } else { b.min },
            max: if a.max >= b.max { a.max } else { b.max },
        }
    }

    pub fn size(&self) -> (r: i64)
        requires
            i64::MIN <= self.max - self.min <= i64::MAX,
        ensures
            r == self.max - self.min,
    {
        self.max - self.min
    }

    /// Inclusive membership.
    pub fn contains(&self, t: i64) -> (r: bool)
        ensures
            r == (self.min <= t && t <= self.max),
    {
        t >= self.min && t <= self.max
    }

    /// Strict membership.
    pub fn surrounds(&self, x: i64) -> (r: bool)
        ensures
            r == (self.min < x && x < self.max),
    {
        x > self.min && x < self.max
    }

    pub fn clamp(&self, x: i64) -> (r: i64)
        ensures
            r == if x < self.min {
                self.min as int
            } else if x > self.max {
                self.max as int
            } else {
                x as int
            },
    {
        if x < self.min {
            return self.min;
        }
        if x > self.max {
            return self.max;
        }
        x
    }

    /// Widen the interval by delta in total, half on each side.
    pub fn expand(&self, delta: i64) -> (r: Interval)
        requires
            delta >= 0,
            i64::MIN <= self.min - (delta as int) / 2,
            self.max + (delta as int) / 2 <= i64::MAX,
        ensures
            r.min == self.min - (delta as int) / 2,
            r.max == self.max + (delta as int) / 2,
    {
        let padding: i64 = delta / 2;
        Interval { min: self.min - padding, max: self.max + padding }
    }

    /// Shift the interval by a displacement.
    pub fn shift(&self, displacement: i64) -> (r: Interval)
        requires
            i64::MIN <= self.min + displacement <= i64::MAX,
            i64::MIN <= self.max + displacement <= i64::MAX,
        ensures
            r.min == self.min + displacement,
            r.max == self.max + displacement,
    {
        Interval { min: self.min + displacement, max: self.max + displacement }
    }
}

} // verus!
