use vstd::arithmetic::div_mod::{
    lemma_div_denominator, lemma_div_is_ordered, lemma_div_multiples_vanish_fancy,
    lemma_fundamental_div_mod_converse,
};
use vstd::arithmetic::mul::lemma_mul_inequality;
use vstd::prelude::*;

use crate::rational::Frac;

verus! {

/// Declares the `rgb` crate's pixel struct `rgb::Rgb<T>` (whose alias
/// `rgb::RGB<T>` this library uses in its signatures) so that verified code
/// can read and build its public `r`, `g`, `b` fields. The struct is plain
/// data with no invariant of its own.
#[verifier::external_type_specification]
pub struct ExRgb<T>(rgb::Rgb<T>);

/// The HSV pixel.
///
/// In this library the component type `T` is normally [`Frac`]: hue,
/// saturation and value computed from integral channel data are exact ratios
/// of integers, and holding them exactly is what lets the conversions keep an
/// exact round trip.
#[derive(Copy, Clone, Debug, PartialEq, Eq, Structural, Hash)]
pub struct HSV<T> {
    /// Hue (in degrees)
    pub h: T,
    /// Saturation (between 0 and 1)
    pub s: T,
    /// Value (between 0 and 1)
    pub v: T,
}

/// The luminance pixel.
#[derive(Copy, Clone, Debug, PartialEq, Eq, Structural, Hash)]
pub struct Luma<T> {
    pub luminance: T,
}

/// The largest of the three channel values.
pub open spec fn max3(r: int, g: int, b: int) -> int {
    if r >= g && r >= b {
        r
    } else if g >= b {
        g
    } else {
        b
    }
}

/// The smallest of the three channel values.
pub open spec fn min3(r: int, g: int, b: int) -> int {
    if r <= g && r <= b {
        r
    } else if g <= b {
        g
    } else {
        b
    }
}

/// Chroma range of the three channel values.
pub open spec fn delta3(r: int, g: int, b: int) -> int {
    max3(r, g, b) - min3(r, g, b)
}

/// Denominator of the exact hue: the chroma delta, or 1 for achromatic input
/// (whose hue is 0 by definition, not by division).
pub open spec fn hue_den(r: int, g: int, b: int) -> int {
    if delta3(r, g, b) == 0 {
        1
    } else {
        delta3(r, g, b)
    }
}

/// Numerator of the exact hue in degrees over [`hue_den`]: the standard
/// six-sextant formula, selected by which channel holds the maximum (ties
/// resolved in the order red, green, blue), brought to the common denominator
/// delta; a negative red-sextant result is wrapped by adding 360 degrees.
pub open spec fn hue_num(r: int, g: int, b: int) -> int {
    let d = delta3(r, g, b);
    if d == 0 {
        0
    } else if max3(r, g, b) == r {
        if g >= b {
            60 * (g - b)
        } else {
            360 * d - 60 * (b - g)
        }
    } else if max3(r, g, b) == g {
        120 * d + 60 * (b - r)
    } else {
        240 * d + 60 * (r - g)
    }
}

/// Numerator of the exact saturation over [`sat_den`]: delta over the maximum
/// channel, or 0 when the pixel is black.
pub open spec fn sat_num(r: int, g: int, b: int) -> int {
    delta3(r, g, b)
}

/// Denominator of the exact saturation.
pub open spec fn sat_den(r: int, g: int, b: int) -> int {
    if max3(r, g, b) == 0 {
        1
    } else {
        max3(r, g, b)
    }
}

/// Nearest integer to `a / b` for `a >= 0`, `b > 0`, halves rounded away from
/// zero.
pub open spec fn round_div(a: int, b: int) -> int {
    (2 * a + b) / (2 * b)
}

/// Which 60-degree sextant a hue `hn / hd` falls in: the hue's floor in whole
/// degrees, divided by 60.
pub open spec fn sextant(hn: int, hd: int) -> int {
    (hn / hd) / 60
}

/// Numerator over `60 * hd` of the folded hue offset `1 - |((h/60) mod 2) - 1|`,
/// the factor that shapes the secondary channel.
pub open spec fn hue_fold_num(hn: int, hd: int) -> int {
    let t = hn % (120 * hd);
    if t >= 60 * hd {
        120 * hd - t
    } else {
        t
    }
}

/// The channel that receives chroma plus match: since chroma plus match is
/// exactly the value, this is the value scaled to the channel width, rounded.
pub open spec fn chan_full(vn: int, vd: int, m: int) -> int {
    round_div(vn * m, vd)
}

/// The channel that receives only the match `v * (1 - s)`, scaled and rounded.
pub open spec fn chan_low(sn: int, sd: int, vn: int, vd: int, m: int) -> int {
    round_div(vn * (sd - sn) * m, vd * sd)
}

/// The channel that receives the secondary component plus match, scaled and
/// rounded.
pub open spec fn chan_mid(hn: int, hd: int, sn: int, sd: int, vn: int, vd: int, m: int) -> int {
    round_div(
        (vn * sn * hue_fold_num(hn, hd) + vn * (sd - sn) * (60 * hd)) * m,
        (vd * sd) * (60 * hd),
    )
}

/// The exact rgb triple an hsv pixel converts back to: the sextant selects
/// which channels receive the full, secondary and match components.
pub open spec fn rgb_of_hsv(hn: int, hd: int, sn: int, sd: int, vn: int, vd: int, m: int) -> (
    int,
    int,
    int,
) {
    let k = sextant(hn, hd);
    let full = chan_full(vn, vd, m);
    let mid = chan_mid(hn, hd, sn, sd, vn, vd, m);
    let low = chan_low(sn, sd, vn, vd, m);
    if k == 0 {
        (full, mid, low)
    } else if k == 1 {
        (mid, full, low)
    } else if k == 2 {
        (low, full, mid)
    } else if k == 3 {
        (low, mid, full)
    } else if k == 4 {
        (mid, low, full)
    } else {
        (full, low, mid)
    }
}

/// For nonnegative `x` and positive `d`, the floor quotient reaches `q`
/// exactly when `x` reaches `q * d`.
proof fn lemma_div_ge_iff(x: int, d: int, q: int)
    requires
        0 <= x,
        1 <= d,
        0 <= q,
    ensures
        x / d >= q <==> x >= q * d,
{
    vstd::arithmetic::div_mod::lemma_fundamental_div_mod(x, d);
    vstd::arithmetic::div_mod::lemma_mod_bound(x, d);
    if x / d >= q {
        lemma_mul_inequality(q, x / d, d);
        vstd::arithmetic::mul::lemma_mul_is_commutative(d, x / d);
    }
    if x >= q * d {
        lemma_div_is_ordered(q * d, x, d);
        vstd::arithmetic::mul::lemma_mul_is_commutative(q, d);
        vstd::arithmetic::div_mod::lemma_div_multiples_vanish(q, d);
    }
}

/// Scales and rounds one output channel: the nearest integer to `a / b`.
///
/// The conversion guards each channel against a scaled value that would
/// exceed the channel maximum by forcing such a channel to zero; the
/// precondition `a <= b * cap` records that under the data-model invariant
/// (saturation and value at most 1) no channel can overflow, so the guard is
/// provably never taken.
fn round_channel(a: u128, b: u128, cap: u32) -> (q: u32)
    requires
        1 <= b,
        b <= 0x100000000000000000000000000,
        cap <= 0xffff,
        a <= b * cap,
    ensures
        q == round_div(a as int, b as int),
        q <= cap,
{
    proof {
        assert(b * cap <= 0x100000000000000000000000000 * 0xffff) by (nonlinear_arith)
            requires
                b <= 0x100000000000000000000000000,
                cap <= 0xffff,
                0 <= b,
                0 <= cap,
        ;
    }
    if a > b * (cap as u128) {
        return 0;
    }
    let q128: u128 = (2 * a + b) / (2 * b);
    proof {
        // q128 <= cap: 2*a + b <= 2*b*cap + b, and (2*b*cap + b) / (2*b) == cap.
        assert(2 * a + b <= (2 * b) * cap + b) by (nonlinear_arith)
            requires
                a <= b * cap,
                0 <= b,
        ;
        lemma_div_is_ordered(2 * a + b, (2 * b) * cap + b, 2 * b);
        lemma_div_multiples_vanish_fancy(cap as int, b as int, 2 * b as int);
    }
    q128 as u32
}

impl<T> HSV<T> {
    pub fn new(h: T, s: T, v: T) -> (p: HSV<T>)
        ensures
            p == (HSV { h, s, v }),
    {
        HSV { h, s, v }
    }
}

impl HSV<Frac> {
    /// All three components are proper rationals: positive denominators,
    /// saturation and value at most 1.
    pub open spec fn wf(self) -> bool {
        &&& self.h.wf()
        &&& self.s.wf()
        &&& self.v.wf()
        &&& self.s.num <= self.s.den
        &&& self.v.num <= self.v.den
    }

    /// Converts an rgb pixel with channels in `0..=channel_max` into an hsv
    /// pixel, exactly.
    ///
    /// Hue is the six-sextant formula over the chroma delta with negative
    /// results wrapped into `[0, 360)`; achromatic input (all channels equal)
    /// has hue 0 and saturation 0 exactly; saturation is delta over the
    /// maximum channel (0 for black) and value is the maximum channel over
    /// `channel_max`.
    pub fn from_rgb(rgb_pixel: rgb::RGB<u32>, channel_max: u32) -> (p: HSV<Frac>)
        requires
            1 <= channel_max <= 0xffff,
            rgb_pixel.r <= channel_max,
            rgb_pixel.g <= channel_max,
            rgb_pixel.b <= channel_max,
        ensures
            p.h.num == hue_num(rgb_pixel.r as int, rgb_pixel.g as int, rgb_pixel.b as int),
            p.h.den == hue_den(rgb_pixel.r as int, rgb_pixel.g as int, rgb_pixel.b as int),
            p.s.num == sat_num(rgb_pixel.r as int, rgb_pixel.g as int, rgb_pixel.b as int),
            p.s.den == sat_den(rgb_pixel.r as int, rgb_pixel.g as int, rgb_pixel.b as int),
            p.v.num == max3(rgb_pixel.r as int, rgb_pixel.g as int, rgb_pixel.b as int),
            p.v.den == channel_max,
            p.wf(),
            p.h.num < 360 * p.h.den,
            p.h.den <= channel_max,
    {
        let r = rgb_pixel.r;
        let g = rgb_pixel.g;
        let b = rgb_pixel.b;

        let c_max = if r >= g && r >= b {
            r
        } else if g >= b {
            g
        } else {
            b
        };
        let c_min = if r <= g && r <= b {
            r
        } else if g <= b {
            g
        } else {
            b
        };
        let delta = c_max - c_min;

        let hue: Frac = if delta == 0 {
            Frac { num: 0, den: 1 }
        } else if c_max == r {
            // The red sextant spans -60..60 degrees; the negative half is
            // wrapped around to 300..360.
            if g >= b {
                Frac { num: 60 * (g - b), den: delta }
            } else {
                Frac { num: 360 * delta - 60 * (b - g), den: delta }
            }
        } else if c_max == g {
            if b >= r {
                Frac { num: 120 * delta + 60 * (b - r), den: delta }
            } else {
                Frac { num: 120 * delta - 60 * (r - b), den: delta }
            }
        } else {
            if r >= g {
                Frac { num: 240 * delta + 60 * (r - g), den: delta }
            } else {
                Frac { num: 240 * delta - 60 * (g - r), den: delta }
            }
        };

        let saturation: Frac = if c_max == 0 {
            Frac { num: 0, den: 1 }
        } else {
            Frac { num: delta, den: c_max }
        };

        let value: Frac = Frac { num: c_max, den: channel_max };

        HSV { h: hue, s: saturation, v: value }
    }

    /// Converts an hsv pixel to an rgb pixel with channels in
    /// `0..=channel_max`, or `None` when the hue is 360 degrees or more: the
    /// inverse is a partial function and an out-of-range hue is a caller
    /// contract violation, answered as a normal control-flow branch.
    ///
    /// The returned channels are the exact rational chroma/secondary/match
    /// components scaled to the channel width and rounded to nearest (halves
    /// away from zero), arranged by the hue's sextant.
    pub fn to_rgb(hsv_pixel: HSV<Frac>, channel_max: u32) -> (res: Option<rgb::RGB<u32>>)
        requires
            hsv_pixel.wf(),
            1 <= channel_max <= 0xffff,
        ensures
            res is Some <==> hsv_pixel.h.num < 360 * hsv_pixel.h.den,
            res matches Some(p) ==> {
                let (er, eg, eb) = rgb_of_hsv(
                    hsv_pixel.h.num as int,
                    hsv_pixel.h.den as int,
                    hsv_pixel.s.num as int,
                    hsv_pixel.s.den as int,
                    hsv_pixel.v.num as int,
                    hsv_pixel.v.den as int,
                    channel_max as int,
                );
                p.r == er && p.g == eg && p.b == eb && p.r <= channel_max && p.g <= channel_max
                    && p.b <= channel_max
            },
    {
        let hn = hsv_pixel.h.num;
        let hd = hsv_pixel.h.den;
        let sn = hsv_pixel.s.num;
        let sd = hsv_pixel.s.den;
        let vn = hsv_pixel.v.num;
        let vd = hsv_pixel.v.den;
        let m = channel_max;

        let deg: u32 = hn / hd;
        proof {
            lemma_div_ge_iff(hn as int, hd as int, 360);
        }
        if deg >= 360 {
            return None;
        }
        let k: u32 = deg / 60;

        let hd64: u64 = hd as u64;
        let t: u64 = (hn as u64) % (120 * hd64);
        let f_num: u64 = if t >= 60 * hd64 {
            120 * hd64 - t
        } else {
            t
        };
        proof {
            assert(f_num <= 60 * hd64);
            assert(f_num == hue_fold_num(hn as int, hd as int));
        }

        let m128 = m as u128;
        let vn128 = vn as u128;
        let vd128 = vd as u128;
        let sn128 = sn as u128;
        let sd128 = sd as u128;
        let hd60: u128 = 60 * (hd as u128);

        proof {
            assert(vn128 * sn128 <= 0x10000000000000000) by (nonlinear_arith)
                requires
                    vn128 < 0x100000000,
                    sn128 < 0x100000000,
                    0 <= vn128,
                    0 <= sn128,
            ;
            assert(vd128 * sd128 <= 0x10000000000000000) by (nonlinear_arith)
                requires
                    vd128 < 0x100000000,
                    sd128 < 0x100000000,
                    0 <= vd128,
                    0 <= sd128,
            ;
            assert(vn128 * (sd128 - sn128) <= 0x10000000000000000) by (nonlinear_arith)
                requires
                    vn128 < 0x100000000,
                    sn128 <= sd128,
                    sd128 < 0x100000000,
                    0 <= vn128,
            ;
        }
        let c_num: u128 = vn128 * sn128;
        let cd: u128 = vd128 * sd128;
        let match_num: u128 = vn128 * (sd128 - sn128);

        // The channel receiving chroma + match: exactly the value, scaled.
        proof {
            assert(vn128 * m128 <= vd128 * m128) by (nonlinear_arith)
                requires
                    vn128 <= vd128,
                    0 <= m128,
            ;
            assert(vd128 * m128 <= 0x100000000 * 0x10000u128) by (nonlinear_arith)
                requires
                    vd128 < 0x100000000,
                    m128 <= 0x10000,
                    0 <= vd128,
                    0 <= m128,
            ;
        }
        let full: u32 = round_channel(vn128 * m128, vd128, m);

        // The channel receiving only the match v * (1 - s).
        proof {
            assert(match_num * m128 <= (vd128 * sd128) * m128) by (nonlinear_arith)
                requires
                    match_num == vn128 * (sd128 - sn128),
                    vn128 <= vd128,
                    sn128 <= sd128,
                    sd128 < 0x100000000,
                    0 <= vn128,
                    0 <= sn128,
                    0 <= m128,
                    0 <= vd128,
            ;
            assert(cd >= 1 && match_num * m128 <= 0x10000000000000000 * 0x10000u128) by (nonlinear_arith)
                requires
                    cd == vd128 * sd128,
                    vd128 >= 1,
                    sd128 >= 1,
                    match_num <= 0x10000000000000000,
                    m128 <= 0x10000,
                    0 <= match_num,
                    0 <= m128,
            ;
        }
        let low: u32 = round_channel(match_num * m128, cd, m);

        // The channel receiving the secondary component x + match.
        proof {
            assert(c_num * (f_num as u128) <= c_num * hd60) by (nonlinear_arith)
                requires
                    0 <= c_num,
                    (f_num as u128) <= hd60,
            ;
            assert(c_num * hd60 + match_num * hd60 == (vn128 * sd128) * hd60) by (nonlinear_arith)
                requires
                    c_num == vn128 * sn128,
                    match_num == vn128 * (sd128 - sn128),
            ;
            assert((vn128 * sd128) * hd60 <= cd * hd60) by (nonlinear_arith)
                requires
                    cd == vd128 * sd128,
                    vn128 <= vd128,
                    0 <= sd128,
                    0 <= hd60,
                    0 <= vn128,
            ;
            assert(cd * hd60 <= 0x10000000000000000 * 0x3C00000000u128 && cd * hd60 >= 1) by (nonlinear_arith)
                requires
                    cd <= 0x10000000000000000,
                    cd >= 1,
                    hd60 <= 0x3C00000000,
                    hd60 >= 60,
            ;
            assert((c_num * (f_num as u128) + match_num * hd60) * m128 <= (cd * hd60) * m128) by (nonlinear_arith)
                requires
                    c_num * (f_num as u128) + match_num * hd60 <= cd * hd60,
                    0 <= c_num * (f_num as u128) + match_num * hd60,
                    0 <= m128,
            ;
            assert((cd * hd60) * m128 <= 0x10000000000000000 * 0x3C00000000u128 * 0x10000) by (nonlinear_arith)
                requires
                    cd * hd60 <= 0x10000000000000000 * 0x3C00000000u128,
                    m128 <= 0x10000,
                    0 <= cd * hd60,
                    0 <= m128,
            ;
        }
        let mid: u32 = round_channel(
            (c_num * (f_num as u128) + match_num * hd60) * m128,
            cd * hd60,
            m,
        );

        let (rr, gg, bb) = if k == 0 {
            (full, mid, low)
        } else if k == 1 {
            (mid, full, low)
        } else if k == 2 {
            (low, full, mid)
        } else if k == 3 {
            (low, mid, full)
        } else if k == 4 {
            (mid, low, full)
        } else {
            (full, low, mid)
        };
        Some(rgb::RGB { r: rr, g: gg, b: bb })
    }

    /// Converts an 8-bit rgb pixel into an hsv pixel; see [`HSV::from_rgb`].
    pub fn from_rgb8(rgb_pixel: rgb::RGB<u8>) -> (p: HSV<Frac>)
        ensures
            p.h.num == hue_num(rgb_pixel.r as int, rgb_pixel.g as int, rgb_pixel.b as int),
            p.h.den == hue_den(rgb_pixel.r as int, rgb_pixel.g as int, rgb_pixel.b as int),
            p.s.num == sat_num(rgb_pixel.r as int, rgb_pixel.g as int, rgb_pixel.b as int),
            p.s.den == sat_den(rgb_pixel.r as int, rgb_pixel.g as int, rgb_pixel.b as int),
            p.v.num == max3(rgb_pixel.r as int, rgb_pixel.g as int, rgb_pixel.b as int),
            p.v.den == 255,
            p.wf(),
            p.h.num < 360 * p.h.den,
    {
        let wide = rgb::RGB {
            r: rgb_pixel.r as u32,
            g: rgb_pixel.g as u32,
            b: rgb_pixel.b as u32,
        };
        HSV::from_rgb(wide, 255)
    }

    /// Converts an hsv pixel to an 8-bit rgb pixel; see [`HSV::to_rgb`].
    pub fn to_rgb8(hsv_pixel: HSV<Frac>) -> (res: Option<rgb::RGB<u8>>)
        requires
            hsv_pixel.wf(),
        ensures
            res is Some <==> hsv_pixel.h.num < 360 * hsv_pixel.h.den,
            res matches Some(p) ==> {
                let (er, eg, eb) = rgb_of_hsv(
                    hsv_pixel.h.num as int,
                    hsv_pixel.h.den as int,
                    hsv_pixel.s.num as int,
                    hsv_pixel.s.den as int,
                    hsv_pixel.v.num as int,
                    hsv_pixel.v.den as int,
                    255,
                );
                p.r == er && p.g == eg && p.b == eb
            },
    {
        match HSV::to_rgb(hsv_pixel, 255) {
            Some(p) => Some(
                rgb::RGB { r: p.r as u8, g: p.g as u8, b: p.b as u8 },
            ),
            None => None,
        }
    }
}

/// The weighted sum of squared channels, scaled by 1000: the luminance
/// power-mean is the square root of this sum divided by 1000.
pub open spec fn weighted_square_sum(r: int, g: int, b: int) -> int {
    299 * (r * r) + 587 * (g * g) + 114 * (b * b)
}

/// `n` is `sqrt(s / 1000)` rounded to the nearest integer, halves rounded
/// away from zero: `n - 1/2 <= sqrt(s / 1000) < n + 1/2`, stated with both
/// sides squared and scaled so that no root is needed.
pub open spec fn is_rounded_root_milli(s: int, n: int) -> bool {
    &&& 0 <= n
    &&& 250 * ((2 * n + 1) * (2 * n + 1)) > s
    &&& n > 0 ==> 250 * ((2 * n - 1) * (2 * n - 1)) <= s
}

/// At most one integer is the rounded root of a given sum.
pub proof fn lemma_rounded_root_unique(s: int, n1: int, n2: int)
    requires
        is_rounded_root_milli(s, n1),
        is_rounded_root_milli(s, n2),
    ensures
        n1 == n2,
{
    if n1 < n2 {
        assert(250 * ((2 * n1 + 1) * (2 * n1 + 1)) <= 250 * ((2 * n2 - 1) * (2 * n2 - 1)))
            by (nonlinear_arith)
            requires
                0 <= n1,
                n1 < n2,
        ;
    }
    if n2 < n1 {
        assert(250 * ((2 * n2 + 1) * (2 * n2 + 1)) <= 250 * ((2 * n1 - 1) * (2 * n1 - 1)))
            by (nonlinear_arith)
            requires
                0 <= n2,
                n2 < n1,
        ;
    }
}

impl<T> Luma<T> {
    /// Creates a Luma pixel.
    pub fn new(luminance: T) -> (p: Luma<T>)
        ensures
            p == (Luma { luminance }),
    {
        Luma { luminance }
    }
}

impl Luma<u32> {
    /// Converts an RGB pixel into a Luma pixel: the weighted power-mean
    /// `sqrt(0.299 r^2 + 0.587 g^2 + 0.114 b^2)`, rounded to the nearest
    /// integer, computed exactly.
    pub fn from_rgb(rgb_pixel: rgb::RGB<u32>) -> (p: Luma<u32>)
        requires
            rgb_pixel.r <= 0xffff,
            rgb_pixel.g <= 0xffff,
            rgb_pixel.b <= 0xffff,
        ensures
            is_rounded_root_milli(
                weighted_square_sum(rgb_pixel.r as int, rgb_pixel.g as int, rgb_pixel.b as int),
                p.luminance as int,
            ),
            p.luminance <= 0xffff,
    {
        let r = rgb_pixel.r as u64;
        let g = rgb_pixel.g as u64;
        let b = rgb_pixel.b as u64;
        proof {
            assert(r * r <= 0xffff * 0xffffu64 && g * g <= 0xffff * 0xffffu64 && b * b
                <= 0xffff * 0xffffu64) by (nonlinear_arith)
                requires
                    r <= 0xffff,
                    g <= 0xffff,
                    b <= 0xffff,
                    0 <= r,
                    0 <= g,
                    0 <= b,
            ;
        }
        let s: u64 = 299 * (r * r) + 587 * (g * g) + 114 * (b * b);
        let mut n: u32 = 0;
        loop
            invariant
                n <= 0xffff,
                s <= 1000 * 0xffff * 0xffffu64,
                n > 0 ==> 250 * ((2 * n - 1) * (2 * n - 1)) <= s,
            ensures
                250 * ((2 * n + 1) * (2 * n + 1)) > s,
                n > 0 ==> 250 * ((2 * n - 1) * (2 * n - 1)) <= s,
                n <= 0xffff,
            decreases 0xffff - n,
        {
            proof {
                assert((2 * (n as u64) + 1) * (2 * (n as u64) + 1) <= 0x20001 * 0x20001u64)
                    by (nonlinear_arith)
                    requires
                        n <= 0xffff,
                        0 <= n,
                ;
            }
            let q: u64 = 250 * ((2 * (n as u64) + 1) * (2 * (n as u64) + 1));
            if q > s {
                break;
            }
            proof {
                assert(n < 0xffff) by (nonlinear_arith)
                    requires
                        250 * ((2 * n + 1) * (2 * n + 1)) <= s,
                        s <= 1000 * 0xffff * 0xffffu64,
                        0 <= n,
                ;
            }
            n = n + 1;
        }
        Luma { luminance: n }
    }
}

impl Luma<u8> {
    /// Converts an 8-bit RGB pixel into a Luma pixel; see [`Luma::from_rgb`].
    pub fn from_rgb8(rgb_pixel: rgb::RGB<u8>) -> (p: Luma<u8>)
        ensures
            is_rounded_root_milli(
                weighted_square_sum(rgb_pixel.r as int, rgb_pixel.g as int, rgb_pixel.b as int),
                p.luminance as int,
            ),
    {
        let wide = rgb::RGB {
            r: rgb_pixel.r as u32,
            g: rgb_pixel.g as u32,
            b: rgb_pixel.b as u32,
        };
        let luma = Luma::from_rgb(wide);
        proof {
            // An 8-bit input keeps the root within 8 bits: a root of 256 or
            // more would put the sum past its largest possible value.
            assert(luma.luminance > 255 ==> 250 * ((2 * luma.luminance - 1) * (2 * luma.luminance
                - 1)) > 1000 * 255 * 255) by (nonlinear_arith)
                requires
                    0 <= luma.luminance,
            ;
            assert(weighted_square_sum(
                rgb_pixel.r as int,
                rgb_pixel.g as int,
                rgb_pixel.b as int,
            ) <= 1000 * 255 * 255) by (nonlinear_arith)
                requires
                    rgb_pixel.r <= 255,
                    rgb_pixel.g <= 255,
                    rgb_pixel.b <= 255,
                    0 <= rgb_pixel.r,
                    0 <= rgb_pixel.g,
                    0 <= rgb_pixel.b,
            ;
        }
        Luma { luminance: luma.luminance as u8 }
    }

    /// Converts a luma pixel into an 8-bit RGB pixel: the grey with that
    /// brightness in every channel.
    pub fn to_rgb8(luma_pixel: Luma<u8>) -> (p: rgb::RGB<u8>)
        ensures
            p.r == luma_pixel.luminance,
            p.g == luma_pixel.luminance,
            p.b == luma_pixel.luminance,
    {
        rgb::RGB {
            r: luma_pixel.luminance,
            g: luma_pixel.luminance,
            b: luma_pixel.luminance,
        }
    }
}

/// Exact division rounds to the quotient itself.
proof fn lemma_round_div_exact(k: int, b: int)
    requires
        0 <= k,
        1 <= b,
    ensures
        round_div(k * b, b) == k,
{
    assert(2 * (k * b) + b == (2 * b) * k + b) by (nonlinear_arith);
    lemma_div_multiples_vanish_fancy(k, b, 2 * b);
}

/// A quotient is pinned by bracketing the dividend between two consecutive
/// multiples of the divisor.
proof fn lemma_div_range(x: int, d: int, q: int)
    requires
        1 <= d,
        0 <= q,
        q * d <= x,
        x < (q + 1) * d,
    ensures
        x / d == q,
{
    assert((q + 1) * d == q * d + d) by (nonlinear_arith);
    lemma_fundamental_div_mod_converse(x, d, q, x - q * d);
}

/// The three output channels of the inverse conversion, on the exact hsv
/// components that the forward conversion produces from a chromatic sample:
/// the full channel recovers the maximum, the low channel the minimum, and
/// the secondary channel `w + cn`, where `60 * w` is the folded hue offset.
proof fn lemma_channels_chromatic(hn: int, cx: int, cn: int, m: int, w: int)
    requires
        0 <= cn,
        cn < cx,
        cx <= m,
        1 <= m,
        0 <= w,
        hue_fold_num(hn, cx - cn) == 60 * w,
    ensures
        chan_full(cx, m, m) == cx,
        chan_mid(hn, cx - cn, cx - cn, cx, cx, m, m) == w + cn,
        chan_low(cx - cn, cx, cx, m, m) == cn,
{
    let d = cx - cn;
    // Full channel: round((cx * m) / m) == cx.
    assert(cx * m == m * cx) by (nonlinear_arith);
    lemma_round_div_exact(cx, m);
    assert(chan_full(cx, m, m) == cx);
    // Low channel: the numerator is cn times the denominator.
    assert(cx * (cx - d) * m == cn * (m * cx) && m * cx >= 1) by (nonlinear_arith)
        requires
            d == cx - cn,
            1 <= m,
            0 <= cn,
            cn < cx,
    ;
    lemma_round_div_exact(cn, m * cx);
    assert(chan_low(d, cx, cx, m, m) == cn);
    // Secondary channel: the numerator is (w + cn) times the denominator.
    assert((cx * d * (60 * w) + cx * (cx - d) * (60 * d)) * m == (w + cn) * ((m * cx) * (60 * d))
        && (m * cx) * (60 * d) >= 1) by (nonlinear_arith)
        requires
            d == cx - cn,
            1 <= m,
            0 <= cn,
            cn < cx,
            0 <= w,
    ;
    lemma_round_div_exact(w + cn, (m * cx) * (60 * d));
    assert(chan_mid(hn, d, d, cx, cx, m, m) == w + cn);
}

/// The folded hue offset and the sextant of a hue `hn / d`, read off from
/// which multiple of `60 * d` brackets `hn`.
proof fn lemma_fold_and_sextant(hn: int, d: int, q: int)
    requires
        1 <= d,
        0 <= q <= 5,
        q * (60 * d) <= hn,
        hn < (q + 1) * (60 * d),
    ensures
        sextant(hn, d) == q,
        hue_fold_num(hn, d) == if q % 2 == 0 {
            hn - q * (60 * d)
        } else {
            (q + 1) * (60 * d) - hn
        },
{
    lemma_div_denominator(hn, d, 60);
    if q == 0 {
        lemma_div_range(hn, d * 60, 0);
        lemma_fundamental_div_mod_converse(hn, 120 * d, 0, hn);
    } else if q == 1 {
        lemma_div_range(hn, d * 60, 1);
        lemma_fundamental_div_mod_converse(hn, 120 * d, 0, hn);
    } else if q == 2 {
        lemma_div_range(hn, d * 60, 2);
        lemma_fundamental_div_mod_converse(hn, 120 * d, 1, hn - 120 * d);
    } else if q == 3 {
        lemma_div_range(hn, d * 60, 3);
        lemma_fundamental_div_mod_converse(hn, 120 * d, 1, hn - 120 * d);
    } else if q == 4 {
        lemma_div_range(hn, d * 60, 4);
        lemma_fundamental_div_mod_converse(hn, 120 * d, 2, hn - 240 * d);
    } else {
        lemma_div_range(hn, d * 60, 5);
        lemma_fundamental_div_mod_converse(hn, 120 * d, 2, hn - 240 * d);
    }
}

/// Law: an achromatic sample (all channels equal) converts to hue 0 and
/// saturation 0 exactly, with value the channel itself.
pub proof fn lemma_achromatic_hsv(r: int, g: int, b: int)
    requires
        r == g && g == b,
    ensures
        hue_num(r, g, b) == 0,
        sat_num(r, g, b) == 0,
        max3(r, g, b) == r,
{
}

/// Law: converting a sample to hsv and back recovers it exactly, for every
/// channel width and every representable sample: the hue produced by the
/// forward conversion is always below 360 degrees, so the inverse conversion
/// succeeds, and its exact rounded channels are the original ones.
pub proof fn lemma_rgb_hsv_round_trip(r: int, g: int, b: int, m: int)
    requires
        0 <= r <= m,
        0 <= g <= m,
        0 <= b <= m,
        1 <= m,
    ensures
        hue_num(r, g, b) < 360 * hue_den(r, g, b),
        rgb_of_hsv(
            hue_num(r, g, b),
            hue_den(r, g, b),
            sat_num(r, g, b),
            sat_den(r, g, b),
            max3(r, g, b),
            m,
            m,
        ) == (r, g, b),
{
    let cx = max3(r, g, b);
    let cn = min3(r, g, b);
    let d = delta3(r, g, b);
    let hn = hue_num(r, g, b);
    if d == 0 {
        // Achromatic: hue 0, saturation 0; every channel rounds back to the
        // shared value.
        let sd = sat_den(r, g, b);
        assert(cx * m == m * cx) by (nonlinear_arith);
        lemma_round_div_exact(cx, m);
        assert(chan_full(cx, m, m) == cx);
        assert(cx * (sd - 0) * m == cx * ((m * sd)) && (cx * 0 * hue_fold_num(0, 1) + cx * (sd - 0)
            * (60 * 1)) * m == cx * ((m * sd) * (60 * 1)) && (m * sd) * (60 * 1) >= 1 && m * sd
            >= 1) by (nonlinear_arith)
            requires
                1 <= m,
                1 <= sd,
                0 <= cx,
        ;
        lemma_round_div_exact(cx, m * sd);
        assert(chan_low(0, sd, cx, m, m) == cx);
        lemma_round_div_exact(cx, (m * sd) * (60 * 1));
        assert(chan_mid(0, 1, 0, sd, cx, m, m) == cx);
    } else {
        if cx == r && g >= b {
            // Red sextant, non-negative side: hue 60*(g-b)/d in [0, 60].
            if g - b < d {
                lemma_fold_and_sextant(hn, d, 0);
            } else {
                lemma_fold_and_sextant(hn, d, 1);
            }
            lemma_channels_chromatic(hn, cx, cn, m, g - b);
        } else if cx == r {
            // Red sextant wrapped: hue in (300, 360).
            lemma_fold_and_sextant(hn, d, 5);
            lemma_channels_chromatic(hn, cx, cn, m, b - g);
        } else if cx == g {
            // Green sextant: hue in (60, 180].
            if b < r {
                lemma_fold_and_sextant(hn, d, 1);
                lemma_channels_chromatic(hn, cx, cn, m, r - b);
            } else if b - r < d {
                lemma_fold_and_sextant(hn, d, 2);
                lemma_channels_chromatic(hn, cx, cn, m, b - r);
            } else {
                lemma_fold_and_sextant(hn, d, 3);
                lemma_channels_chromatic(hn, cx, cn, m, b - r);
            }
        } else {
            // Blue sextant: hue in (180, 300).
            if r < g {
                lemma_fold_and_sextant(hn, d, 3);
                lemma_channels_chromatic(hn, cx, cn, m, g - r);
            } else {
                lemma_fold_and_sextant(hn, d, 4);
                lemma_channels_chromatic(hn, cx, cn, m, r - g);
            }
        }
    }
}

/// Interpret a flat buffer as a 2d raster in row-major order.
pub trait Pixel<T> {
    /// How many samples the buffer holds.
    spec fn pixel_count(&self) -> nat;

    /// The sample at flat index `i`.
    spec fn pixel_at(&self, i: int) -> T;

    /// Interpret the buffer as a 2d coordinate system of width `w`, returning
    /// the pixel at `(x, y)`.
    fn get_pixel(&self, x: u32, y: u32, w: u32) -> (p: T)
        requires
            y * w + x < self.pixel_count(),
            y * w + x <= u32::MAX,
        ensures
            p == self.pixel_at(y * w + x),
    ;
}

impl<T: Copy> Pixel<HSV<T>> for Vec<HSV<T>> {
    open spec fn pixel_count(&self) -> nat {
        self@.len()
    }

    open spec fn pixel_at(&self, i: int) -> HSV<T> {
        self@[i]
    }

    fn get_pixel(&self, x: u32, y: u32, w: u32) -> (p: HSV<T>) {
        let one: u32 = y * w;
        self[(one + x) as usize]
    }
}

impl<T: Copy> Pixel<Luma<T>> for Vec<Luma<T>> {
    open spec fn pixel_count(&self) -> nat {
        self@.len()
    }

    open spec fn pixel_at(&self, i: int) -> Luma<T> {
        self@[i]
    }

    fn get_pixel(&self, x: u32, y: u32, w: u32) -> (p: Luma<T>) {
        let one: u32 = y * w;
        self[(one + x) as usize]
    }
}

impl<T: Copy> Pixel<rgb::RGB<T>> for Vec<rgb::RGB<T>> {
    open spec fn pixel_count(&self) -> nat {
        self@.len()
    }

    open spec fn pixel_at(&self, i: int) -> rgb::RGB<T> {
        self@[i]
    }

    fn get_pixel(&self, x: u32, y: u32, w: u32) -> (p: rgb::RGB<T>) {
        let one: u32 = y * w;
        self[(one + x) as usize]
    }
}

} // verus!
