use altered_perception::colorspaces::{Luma, HSV};
use altered_perception::rational::Frac;
use rayon::iter::{IntoParallelIterator, ParallelIterator};
use rgb::RGB;

#[test]
fn rgb8_to_hsv_f64() {
    (0..=u8::MAX).into_par_iter().for_each(|r| {
        (0..=u8::MAX).for_each(|g| {
            (0..=u8::MAX).for_each(|b| {
                let original = RGB::new(r, g, b);
                let intermediate: HSV<Frac> = HSV::from_rgb8(original);
                let final_out = HSV::to_rgb8(intermediate).expect("Could not convert from HSV to RGB!");

                assert_eq!(original, final_out);
            });
        });
    });
}

#[test]
fn rgb8_to_hsv_f32() {
    (0..=u8::MAX).into_par_iter().for_each(|r| {
        (0..=u8::MAX).for_each(|g| {
            (0..=u8::MAX).for_each(|b| {
                let original: RGB<u32> = RGB::new(r as u32, g as u32, b as u32);
                let intermediate: HSV<Frac> = HSV::from_rgb(original, 255);
                let final_out =
                    HSV::to_rgb(intermediate, 255).expect("Could not convert from HSV to RGB!");

                assert_eq!(original, final_out);
            });
        });
    });
}

#[test]
fn rgb16_round_trip_sampled() {
    // The 16-bit channel width, on a coarse grid of samples.
    (0u32..=0xffff).step_by(1021).for_each(|r| {
        (0u32..=0xffff).step_by(887).for_each(|g| {
            (0u32..=0xffff).step_by(761).for_each(|b| {
                let original: RGB<u32> = RGB::new(r, g, b);
                let intermediate: HSV<Frac> = HSV::from_rgb(original, 0xffff);
                let final_out =
                    HSV::to_rgb(intermediate, 0xffff).expect("Could not convert from HSV to RGB!");

                assert_eq!(original, final_out);
            });
        });
    });
}

#[test]
fn hsv_matches_float_reference() {
    // The exact rationals agree with the floating-point formulation of the
    // conversion wherever the latter is well conditioned.
    for r in (0..=u8::MAX).step_by(5) {
        for g in (0..=u8::MAX).step_by(7) {
            for b in (0..=u8::MAX).step_by(11) {
                let hsv = HSV::from_rgb8(RGB::new(r, g, b));
                let (fr, fg, fb) = (r as f64 / 255.0, g as f64 / 255.0, b as f64 / 255.0);
                let c_max = fr.max(fg.max(fb));
                let c_min = fr.min(fg.min(fb));
                let delta = c_max - c_min;
                let mut hue = if delta == 0.0 {
                    0.0
                } else if c_max == fr {
                    60.0 * (((fg - fb) / delta) % 6.0)
                } else if c_max == fg {
                    60.0 * (((fb - fr) / delta) + 2.0)
                } else {
                    60.0 * (((fr - fg) / delta) + 4.0)
                };
                if hue < 0.0 {
                    hue += 360.0;
                }
                let saturation = if c_max == 0.0 { 0.0 } else { delta / c_max };

                let hue_lib = hsv.h.num as f64 / hsv.h.den as f64;
                let sat_lib = hsv.s.num as f64 / hsv.s.den as f64;
                let val_lib = hsv.v.num as f64 / hsv.v.den as f64;
                assert!((hue_lib - hue).abs() < 1e-9, "hue for {r},{g},{b}");
                assert!((sat_lib - saturation).abs() < 1e-9, "saturation for {r},{g},{b}");
                assert!((val_lib - c_max).abs() < 1e-9, "value for {r},{g},{b}");
            }
        }
    }
}

#[test]
fn hsv_achromatic_degenerate() {
    let black = HSV::from_rgb8(RGB::new(0, 0, 0));
    assert_eq!(black.h.num, 0);
    assert_eq!(black.s.num, 0);
    assert_eq!(black.v.num, 0);

    let grey = HSV::from_rgb8(RGB::new(128, 128, 128));
    assert_eq!(grey.h.num, 0);
    assert_eq!(grey.s.num, 0);
    assert_eq!(grey.v.num, 128);
    assert_eq!(grey.v.den, 255);
}

#[test]
fn hsv_known_colors() {
    // Pure red: hue 0, full saturation and value.
    let red = HSV::from_rgb8(RGB::new(255, 0, 0));
    assert_eq!(red.h.num, 0);
    assert_eq!(red.s.num, red.s.den);
    assert_eq!(red.v.num, 255);

    // Pure green: hue 120.
    let green = HSV::from_rgb8(RGB::new(0, 255, 0));
    assert_eq!(green.h.num as f64 / green.h.den as f64, 120.0);

    // Pure blue: hue 240.
    let blue = HSV::from_rgb8(RGB::new(0, 0, 255));
    assert_eq!(blue.h.num as f64 / blue.h.den as f64, 240.0);

    // A negative red-sextant hue wraps past 300 degrees.
    let magenta_ish = HSV::from_rgb8(RGB::new(255, 0, 128));
    let hue = magenta_ish.h.num as f64 / magenta_ish.h.den as f64;
    assert!((300.0..360.0).contains(&hue));
}

#[test]
fn hsv_to_rgb8_rejects_out_of_range_hue() {
    let hsv = HSV::new(
        Frac { num: 360, den: 1 },
        Frac { num: 0, den: 1 },
        Frac { num: 1, den: 1 },
    );
    assert!(HSV::to_rgb8(hsv).is_none());

    let fine = HSV::new(
        Frac { num: 359, den: 1 },
        Frac { num: 0, den: 1 },
        Frac { num: 1, den: 1 },
    );
    assert!(HSV::to_rgb8(fine).is_some());
}

#[test]
fn luma_from_rgb8_exact_values() {
    assert_eq!(Luma::from_rgb8(RGB::new(0, 0, 0)).luminance, 0u8);
    assert_eq!(Luma::from_rgb8(RGB::new(255, 255, 255)).luminance, 255u8);
    // sqrt(0.299) * 255 = 139.43...
    assert_eq!(Luma::from_rgb8(RGB::new(255, 0, 0)).luminance, 139u8);
    // sqrt(0.587) * 255 = 195.37...
    assert_eq!(Luma::from_rgb8(RGB::new(0, 255, 0)).luminance, 195u8);
    // sqrt(0.114) * 255 = 86.10...
    assert_eq!(Luma::from_rgb8(RGB::new(0, 0, 255)).luminance, 86u8);
    // Grey input keeps its brightness.
    assert_eq!(Luma::from_rgb8(RGB::new(128, 128, 128)).luminance, 128u8);
}

#[test]
fn luma_matches_float_reference() {
    for r in (0..=u8::MAX).step_by(3) {
        for g in (0..=u8::MAX).step_by(5) {
            let b = r ^ g;
            let expected = (0.299 * (r as f64).powi(2) + 0.587 * (g as f64).powi(2)
                + 0.114 * (b as f64).powi(2))
            .sqrt()
            .round() as u8;
            assert_eq!(Luma::from_rgb8(RGB::new(r, g, b)).luminance, expected);
        }
    }
}

#[test]
fn luma_to_rgb8_is_grey() {
    let grey = Luma::to_rgb8(Luma::new(77u8));
    assert_eq!(grey, RGB::new(77, 77, 77));
}
