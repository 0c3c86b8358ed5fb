//! A one-dimensional range of fixed-point scalars, used both as a ray
//! parameter window and as an axis extent. A range with `min > max` is
//! empty. `INF` and `NEG_INF` are the sentinels standing for the two
//! ends of the number line; every scalar a ray parameter can take lies
//! strictly between them.

use vstd::prelude::*;

verus! {

/// Sentinel for "plus infinity" on the ray-parameter axis.
pub const INF: i64 = 0x2000_0000_0000_0000;

/// Sentinel for "minus infinity" on the ray-parameter axis.
pub const NEG_INF: i64 = -0x2000_0000_0000_0000;

#[derive(Clone, Copy, PartialEq, Eq, Structural, Debug)]
pub struct Interval {
    pub min: i64,
    pub max: i64,
}

impl Interval {
    /// Both ends lie in the representable band `[NEG_INF, INF]`.
    pub open spec fn bounded(self) -> bool {
        &&& NEG_INF <= self.min <= INF
        &&& NEG_INF <= self.max <= INF
    }

    /// The whole number line.
    pub fn universe() -> (r: Self)
        ensures
            r.min == NEG_INF,
            r.max == INF,
    {
        Self { min: NEG_INF, max: INF }
    }

    /// The window of a fresh primary ray: every non-negative parameter.
    pub fn ray() -> (r: Self)
        ensures
            r.min == 0,
            r.max == INF,
    {
        Self { min: 0, max: INF }
    }

    pub fn new(min: i64, max: i64) -> (r: Self)
        ensures
            r.min == min,
            r.max == max,
    {
        Self { min, max }
    }

    pub open spec fn size_spec(self) -> int {
        self.max - self.min
    }

    pub fn size(&self) -> (r: i64)
        requires
            self.bounded(),
        ensures
            r == self.size_spec(),
    {
        self.max - self.min
    }

    pub open spec fn clamp_spec(self, x: int) -> int {
        if x < self.min {
            self.min as int
        } else if x > self.max {
            self.max as int
        } else {
            x
        }
    }

    /// The nearest point of the range, taking `min` when below and `max`
    /// when above.
    pub fn clamp(&self, x: i64) -> (r: i64)
        ensures
            r == self.clamp_spec(x as int),
    {
        if x < self.min {
            return self.min;
        };
        if x > self.max {
            return self.max;
        };
        x
    }

    pub open spec fn intersect_spec(self, other: Interval) -> Interval {
        Interval {
            min: if self.min >= other.min { self.min } else { other.min },
            max: if self.max <= other.max { self.max } else { other.max },
        }
    }

    /// The largest range lying inside both; empty (`min > max`) when the
    /// two do not overlap.
    pub fn intersect(&self, interval: &Interval) -> (r: Interval)
        ensures
            r == self.intersect_spec(*interval),
            r.min >= self.min && r.min >= interval.min,
            r.max <= self.max && r.max <= interval.max,
    {
        Interval {
            min: if self.min >= interval.min { self.min } else { interval.min },
            max: if self.max <= interval.max { self.max } else { interval.max },
        }
    }

    pub open spec fn contains_spec(self, x: int) -> bool {
        self.min <= x <= self.max
    }

    pub fn contains(&self, x: &i64) -> (r: bool)
        ensures
            r == self.contains_spec(*x as int),
    {
        self.min <= *x && *x <= self.max
    }

    pub open spec fn surrounds_spec(self, x: int) -> bool {
        self.min < x < self.max
    }

    pub fn surrounds(&self, x: i64) -> (r: bool)
        ensures
            r == self.surrounds_spec(x as int),
    {
        self.min < x && x < self.max
    }
}

} // verus!
