use vstd::prelude::*;

use crate::colorspaces::{Luma, HSV};

verus! {

/// Interpret a 1d vector as a 2d matrix.
///
/// Geometric resampling of such a matrix (rotation about its centre, integer
/// translation) is the business of an external collaborator; this library
/// only addresses the buffer.
pub trait MatrixSlice2d<T> {
    /// How many samples the buffer holds.
    spec fn sample_count(&self) -> nat;

    /// The sample at flat index `i`.
    spec fn sample_at(&self, i: int) -> T;

    /// Interpret the buffer as a `w` by `h` coordinate system, returning the
    /// sample at `(x, y)`, or the first sample when `(x, y)` addresses a spot
    /// past the end of the buffer.
    fn interpret_position(&self, x: u32, y: u32, w: u32, h: u32) -> (p: T)
        requires
            self.sample_count() == w * h,
            self.sample_count() >= 1,
            y * w + x <= u32::MAX,
            w * h <= u32::MAX,
        ensures
            p == if y * w + x < w * h {
                self.sample_at(y * w + x)
            } else {
                self.sample_at(0)
            },
    ;
}

impl<T: Copy> MatrixSlice2d<HSV<T>> for Vec<HSV<T>> {
    open spec fn sample_count(&self) -> nat {
        self@.len()
    }

    open spec fn sample_at(&self, i: int) -> HSV<T> {
        self@[i]
    }

    fn interpret_position(&self, x: u32, y: u32, w: u32, h: u32) -> (p: HSV<T>) {
        let total: u32 = w * h;
        let des_array_member: u32 = y * w + x;
        if des_array_member < total {
            return self[des_array_member as usize];
        }
        self[0]
    }
}

impl<T: Copy> MatrixSlice2d<Luma<T>> for Vec<Luma<T>> {
    open spec fn sample_count(&self) -> nat {
        self@.len()
    }

    open spec fn sample_at(&self, i: int) -> Luma<T> {
        self@[i]
    }

    fn interpret_position(&self, x: u32, y: u32, w: u32, h: u32) -> (p: Luma<T>) {
        let total: u32 = w * h;
        let des_array_member: u32 = y * w + x;
        if des_array_member < total {
            return self[des_array_member as usize];
        }
        self[0]
    }
}

impl<T: Copy> MatrixSlice2d<rgb::RGB<T>> for Vec<rgb::RGB<T>> {
    open spec fn sample_count(&self) -> nat {
        self@.len()
    }

    open spec fn sample_at(&self, i: int) -> rgb::RGB<T> {
        self@[i]
    }

    fn interpret_position(&self, x: u32, y: u32, w: u32, h: u32) -> (p: rgb::RGB<T>) {
        let total: u32 = w * h;
        let des_array_member: u32 = y * w + x;
        if des_array_member < total {
            return self[des_array_member as usize];
        }
        self[0]
    }
}

} // verus!
