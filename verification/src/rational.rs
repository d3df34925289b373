use vstd::prelude::*;

verus! {

/// An exact nonnegative rational number, held as a numerator over a positive
/// denominator.
///
/// Hue, saturation, value and score samples are exact rationals here: the
/// channel data they are computed from is integral, so every intermediate of
/// the conversion formulas is a ratio of integers. Holding the ratio itself
/// keeps the conversions exact, which is what makes the round-trip law of the
/// colorspace module provable.
#[derive(Copy, Clone, Debug)]
pub struct Frac {
    /// Numerator.
    pub num: u32,
    /// Denominator; well-formed values keep it positive.
    pub den: u32,
}

/// The product of two 32-bit values always fits in 64 bits.
pub proof fn lemma_u32_mul_in_u64(a: u32, b: u32)
    by (nonlinear_arith)
    ensures
        a * b <= u64::MAX,
{
}

impl Frac {
    /// A denominator of zero denotes no rational at all; every constructor
    /// here keeps the denominator positive.
    pub open spec fn wf(self) -> bool {
        self.den >= 1
    }

    /// `self <= other` as rationals, by cross-multiplication.
    pub open spec fn spec_le(self, other: Frac) -> bool {
        self.num * other.den <= other.num * self.den
    }

    /// `self < other` as rationals, by cross-multiplication.
    pub open spec fn spec_lt(self, other: Frac) -> bool {
        self.num * other.den < other.num * self.den
    }

    /// `self` and `other` denote the same rational value.
    pub open spec fn same_value(self, other: Frac) -> bool {
        self.num * other.den == other.num * self.den
    }

    pub fn new(num: u32, den: u32) -> (r: Frac)
        requires
            den >= 1,
        ensures
            r == (Frac { num, den }),
            r.wf(),
    {
        Frac { num, den }
    }

    /// The whole number `n` as a rational.
    pub fn from_int(n: u32) -> (r: Frac)
        ensures
            r == (Frac { num: n, den: 1 }),
            r.wf(),
    {
        Frac { num: n, den: 1 }
    }

    pub fn le(&self, other: &Frac) -> (r: bool)
        ensures
            r == self.spec_le(*other),
    {
        proof {
            lemma_u32_mul_in_u64(self.num, other.den);
            lemma_u32_mul_in_u64(other.num, self.den);
        }
        let lhs: u64 = (self.num as u64) * (other.den as u64);
        let rhs: u64 = (other.num as u64) * (self.den as u64);
        lhs <= rhs
    }

    pub fn lt(&self, other: &Frac) -> (r: bool)
        ensures
            r == self.spec_lt(*other),
    {
        proof {
            lemma_u32_mul_in_u64(self.num, other.den);
            lemma_u32_mul_in_u64(other.num, self.den);
        }
        let lhs: u64 = (self.num as u64) * (other.den as u64);
        let rhs: u64 = (other.num as u64) * (self.den as u64);
        lhs < rhs
    }

    /// Value equality: `3/6` equals `1/2`.
    pub fn eq_value(&self, other: &Frac) -> (r: bool)
        ensures
            r == self.same_value(*other),
    {
        proof {
            lemma_u32_mul_in_u64(self.num, other.den);
            lemma_u32_mul_in_u64(other.num, self.den);
        }
        let lhs: u64 = (self.num as u64) * (other.den as u64);
        let rhs: u64 = (other.num as u64) * (self.den as u64);
        lhs == rhs
    }
}

} // verus!
