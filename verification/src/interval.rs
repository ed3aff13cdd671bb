//! Closed ranges of scalars.
use crate::scalar::Scalar;
use vstd::prelude::*;

verus! {

/// The model of an interval: the raw counts of its two ends.
pub struct IntervalModel {
    pub min: int,
    pub max: int,
}

/// Whether `value` lies between the two ends, both included.
pub open spec fn interval_contains(i: IntervalModel, value: int) -> bool {
    i.min <= value <= i.max
}

/// The end that `value` lies beyond, or `value` itself. Where the ends are
/// out of order, the lower end is tested first.
pub open spec fn interval_clamp(i: IntervalModel, value: int) -> int {
    if value < i.min {
        i.min
    } else if value > i.max {
        i.max
    } else {
        value
    }
}

/// The range from `min` to `max`, both included. Nothing asks that `min` be
/// at most `max`: a range whose ends are out of order holds no number.
#[derive(Clone, Copy, Debug)]
pub struct Interval {
    pub min: Scalar,
    pub max: Scalar,
}

impl View for Interval {
    type V = IntervalModel;

    open spec fn view(&self) -> IntervalModel {
        IntervalModel { min: self.min@, max: self.max@ }
    }
}

impl Interval {
    /// The interval from `min` to `max`.
    pub fn new(min: Scalar, max: Scalar) -> (r: Interval)
        ensures
            r.min == min,
            r.max == max,
    {
        Interval { min, max }
    }

    /// Whether `value` lies in the interval, its ends included.
    pub fn is_inside(&self, value: Scalar) -> (b: bool)
        ensures
            b == interval_contains(self@, value@),
    {
        self.min.le(value) && value.le(self.max)
    }

    /// Whether `value` lies outside the interval.
    pub fn is_outside(&self, value: Scalar) -> (b: bool)
        ensures
            b == !interval_contains(self@, value@),
    {
        !self.is_inside(value)
    }

    /// The number of the interval that is nearest to `value`.
    pub fn clamp(&self, value: Scalar) -> (r: Scalar)
        ensures
            r@ == interval_clamp(self@, value@),
            r == value || r == self.min || r == self.max,
            self.min@ <= self.max@ ==> interval_contains(self@, r@),
            interval_contains(self@, value@) ==> r == value,
    {
        if value.lt(self.min) {
            return self.min;
        }
        if value.gt(self.max) {
            return self.max;
        }
        value
    }
}

} // verus!
