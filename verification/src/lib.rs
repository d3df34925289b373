//! Visual-inspection library: colorspace conversion between RGB, HSV and
//! luminance samples, rectangular region classification against
//! hue/saturation/value ranges, and the decision logic of a brute-force
//! alignment search.
//!
//! Hue, saturation, value and scores are held as exact rationals ([`rational::Frac`])
//! rather than floating-point approximations: every quantity the conversion
//! formulas produce from integral channel data is a ratio of integers, and the
//! exact representation is what makes the conversion round-trip provable.

pub mod colorspaces;
pub mod helpers;
pub mod linear_algebra;
pub mod model;
pub mod rational;
pub mod tools;
