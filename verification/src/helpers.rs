use vstd::prelude::*;

use crate::rational::Frac;

verus! {

/// A 2d point in space.
#[derive(Copy, Clone, Debug, PartialEq, Eq, Structural, Hash)]
pub struct Point<N> {
    pub x: N,
    pub y: N,
}

/// Dimensions of a 2d object.
#[derive(Copy, Clone, Debug, PartialEq, Eq, Structural, Hash)]
pub struct Dimensions<N> {
    pub width: N,
    pub height: N,
}

impl Dimensions<u32> {
    /// Returns the area of the dimensions.
    pub fn area(&self) -> (a: u32)
        requires
            self.width * self.height <= u32::MAX,
        ensures
            a == self.width * self.height,
    {
        self.width * self.height
    }
}

/// A ranged object.
///
/// `lower > upper` denotes an interval given with its bounds swapped (hue
/// ranges crossing the 0/360 seam are configured this way): membership then
/// swaps which bound is the floor and which the ceiling. It does not wrap
/// modularly.
#[derive(Copy, Clone, Debug, PartialEq, Eq, Structural, Hash)]
pub struct Range<N> {
    pub lower: N,
    pub upper: N,
}

impl Range<u32> {
    /// What membership (inclusive of both bounds) means: the smaller bound is
    /// the floor and the larger the ceiling, whichever field holds it.
    pub open spec fn spec_within_inclusive(self, value: u32) -> bool {
        if self.upper > self.lower {
            self.lower <= value && value <= self.upper
        } else {
            self.upper <= value && value <= self.lower
        }
    }

    /// Membership with both bounds excluded.
    pub open spec fn spec_within_exclusive(self, value: u32) -> bool {
        if self.upper > self.lower {
            self.lower < value && value < self.upper
        } else {
            self.upper < value && value < self.lower
        }
    }

    /// Returns whether the given value is within the range (inclusive).
    pub fn within_range_inclusive(&self, value: u32) -> (r: bool)
        ensures
            r == self.spec_within_inclusive(value),
    {
        if self.upper > self.lower {
            if value <= self.upper && value >= self.lower {
                return true;
            }
        } else if value >= self.upper && value <= self.lower {
            return true;
        }
        false
    }

    /// Returns whether the given value is within the range (exclusive).
    pub fn within_range_exclusive(&self, value: u32) -> (r: bool)
        ensures
            r == self.spec_within_exclusive(value),
    {
        if self.upper > self.lower {
            if value < self.upper && value > self.lower {
                return true;
            }
        } else if value > self.upper && value < self.lower {
            return true;
        }
        false
    }
}

impl Range<Frac> {
    /// Membership of a rational value, inclusive of both bounds.
    pub open spec fn spec_within_inclusive(self, value: Frac) -> bool {
        if self.lower.spec_lt(self.upper) {
            self.lower.spec_le(value) && value.spec_le(self.upper)
        } else {
            self.upper.spec_le(value) && value.spec_le(self.lower)
        }
    }

    /// Membership of a rational value, both bounds excluded.
    pub open spec fn spec_within_exclusive(self, value: Frac) -> bool {
        if self.lower.spec_lt(self.upper) {
            self.lower.spec_lt(value) && value.spec_lt(self.upper)
        } else {
            self.upper.spec_lt(value) && value.spec_lt(self.lower)
        }
    }

    /// Returns whether the given value is within the range (inclusive).
    pub fn within_range_inclusive(&self, value: Frac) -> (r: bool)
        ensures
            r == self.spec_within_inclusive(value),
    {
        if self.lower.lt(&self.upper) {
            if value.le(&self.upper) && self.lower.le(&value) {
                return true;
            }
        } else if self.upper.le(&value) && value.le(&self.lower) {
            return true;
        }
        false
    }

    /// Returns whether the given value is within the range (exclusive).
    pub fn within_range_exclusive(&self, value: Frac) -> (r: bool)
        ensures
            r == self.spec_within_exclusive(value),
    {
        if self.lower.lt(&self.upper) {
            if value.lt(&self.upper) && self.lower.lt(&value) {
                return true;
            }
        } else if self.upper.lt(&value) && value.lt(&self.lower) {
            return true;
        }
        false
    }
}

/// A (name, id) pair identifying a region or model.
#[derive(Clone, Debug, PartialEq, Eq, Hash)]
pub struct Identification<T> {
    pub name: String,
    pub id: T,
}

/// A rectangular object.
#[derive(Copy, Clone, Debug, PartialEq, Eq, Structural, Hash)]
pub struct Rectangle<N> {
    pub left: N,
    pub right: N,
    pub top: N,
    pub bottom: N,
}

impl Rectangle<u32> {
    /// Builds the rectangle whose top-left corner is `top_left` and whose
    /// extent is given by `bottom_right`.
    pub fn create_rectangle(top_left: Point<u32>, bottom_right: Point<u32>) -> (rect: Self)
        requires
            top_left.x + bottom_right.x <= u32::MAX,
            top_left.y + bottom_right.y <= u32::MAX,
        ensures
            rect.left == top_left.x,
            rect.right == top_left.x + bottom_right.x,
            rect.top == top_left.y,
            rect.bottom == top_left.y + bottom_right.y,
    {
        Self {
            left: top_left.x,
            right: top_left.x + bottom_right.x,
            top: top_left.y,
            bottom: top_left.y + bottom_right.y,
        }
    }
}

} // verus!
