use altered_perception::colorspaces::HSV;
use altered_perception::helpers::{Dimensions, Identification, Point, Range};
use altered_perception::model::Model;
use altered_perception::rational::Frac;
use altered_perception::tools::{best_score_index, ColorArea, PositionAdjust};
use rgb::RGB;

fn permissive_area(width: u32, height: u32, corner: Point<u32>) -> ColorArea {
    ColorArea::new(
        Dimensions { width, height },
        corner,
        Range { lower: Frac::from_int(0), upper: Frac::from_int(360) },
        Range { lower: Frac::new(0, 1), upper: Frac::new(1, 1) },
        Range { lower: Frac::new(0, 1), upper: Frac::new(1, 1) },
        Identification { name: String::from("area"), id: 1 },
    )
}

fn raster_of(pixel: RGB<u8>, n: usize) -> Vec<HSV<Frac>> {
    (0..n).map(|_| HSV::from_rgb8(pixel)).collect()
}

#[test]
fn permissive_region_scores_one() {
    // A 10 by 10 all-white raster region against fully permissive ranges
    // must score exactly 1.
    let raster = raster_of(RGB::new(255, 255, 255), 100);
    let area = permissive_area(10, 10, Point { x: 0, y: 0 });
    let score = area.check(&raster, 10, 10);
    assert_eq!(score.num, 100);
    assert_eq!(score.den, 100);
}

#[test]
fn disjoint_hue_region_scores_zero() {
    // An all-red raster against a hue range of 200..250 matches nothing.
    let raster = raster_of(RGB::new(255, 0, 0), 100);
    let area = ColorArea::new(
        Dimensions { width: 10, height: 10 },
        Point { x: 0, y: 0 },
        Range { lower: Frac::from_int(200), upper: Frac::from_int(250) },
        Range { lower: Frac::new(0, 1), upper: Frac::new(1, 1) },
        Range { lower: Frac::new(0, 1), upper: Frac::new(1, 1) },
        Identification { name: String::from("off-hue"), id: 2 },
    );
    let score = area.check(&raster, 10, 10);
    assert_eq!(score.num, 0);
    assert_eq!(score.den, 100);
}

#[test]
fn partial_match_rounds_to_hundredths() {
    // A 1 by 1 region scans a 2 by 2 rectangle; one white sample among four
    // against a value floor of one half scores 0.25.
    let mut raster = raster_of(RGB::new(0, 0, 0), 4);
    raster[0] = HSV::from_rgb8(RGB::new(255, 255, 255));
    let area = ColorArea::new(
        Dimensions { width: 1, height: 1 },
        Point { x: 0, y: 0 },
        Range { lower: Frac::from_int(0), upper: Frac::from_int(360) },
        Range { lower: Frac::new(0, 1), upper: Frac::new(1, 1) },
        Range { lower: Frac::new(1, 2), upper: Frac::new(1, 1) },
        Identification { name: String::from("corner"), id: 3 },
    );
    let score = area.check(&raster, 2, 2);
    assert_eq!(score.num, 25);
    assert_eq!(score.den, 100);
}

#[test]
fn score_stays_within_unit_interval() {
    // Mixed rasters and regions: every score is a fraction in [0, 1].
    for seed in 0..6u8 {
        let raster: Vec<HSV<Frac>> = (0..36u32)
            .map(|i| {
                let v = ((i as u64 * 97 + seed as u64 * 13) % 256) as u8;
                HSV::from_rgb8(RGB::new(v, v.wrapping_mul(31), v ^ 0x5a))
            })
            .collect();
        let area = ColorArea::new(
            Dimensions { width: 2, height: 3 },
            Point { x: 1, y: 1 },
            Range { lower: Frac::from_int(300), upper: Frac::from_int(60) },
            Range { lower: Frac::new(0, 1), upper: Frac::new(1, 1) },
            Range { lower: Frac::new(1, 10), upper: Frac::new(9, 10) },
            Identification { name: String::from("mixed"), id: 4 },
        );
        let score = area.check(&raster, 6, 6);
        assert!(score.num <= 100);
        assert_eq!(score.den, 100);
    }
}

#[test]
fn model_compare_scores_every_region() {
    let raster = raster_of(RGB::new(255, 255, 255), 64);
    let tools = vec![
        permissive_area(3, 3, Point { x: 0, y: 0 }),
        ColorArea::new(
            Dimensions { width: 3, height: 3 },
            Point { x: 2, y: 2 },
            Range { lower: Frac::from_int(100), upper: Frac::from_int(200) },
            Range { lower: Frac::new(0, 1), upper: Frac::new(1, 1) },
            Range { lower: Frac::new(0, 1), upper: Frac::new(1, 1) },
            Identification { name: String::from("blue-green"), id: 5 },
        ),
    ];
    let model = Model::new(
        Identification { name: String::from("master"), id: 0x1234_5678_9abc_def0u128 },
        PositionAdjust::new(
            Dimensions { width: 8, height: 8 },
            Point { x: 0, y: 0 },
            Vec::new(),
        ),
        tools,
        Vec::new(),
    );
    let scores = model.compare(&raster, 8, 8);
    assert_eq!(scores.len(), 2);
    assert_eq!(scores[0].num, 100);
    assert_eq!(scores[1].num, 0);
    assert_eq!(model.identification.name, "master");
}

fn rotate_nn(base: &[f64], side: usize, degrees: f64) -> Vec<f64> {
    // Nearest-neighbour rotation about the raster centre, zero-filled, the
    // reference resampling for the synthetic alignment scenario.
    let c = (side as f64 - 1.0) / 2.0;
    let rad = degrees.to_radians();
    let (sin, cos) = rad.sin_cos();
    let mut out = vec![0.0; side * side];
    for y in 0..side {
        for x in 0..side {
            let dx = x as f64 - c;
            let dy = y as f64 - c;
            let sx = (cos * dx + sin * dy + c).round();
            let sy = (-sin * dx + cos * dy + c).round();
            if sx >= 0.0 && sy >= 0.0 && (sx as usize) < side && (sy as usize) < side {
                out[y * side + x] = base[sy as usize * side + sx as usize];
            }
        }
    }
    out
}

fn sum_abs_diff(a: &[f64], b: &[f64]) -> u64 {
    a.iter().zip(b.iter()).map(|(x, y)| ((x - y).abs() * 1000.0) as u64).sum()
}

#[test]
fn rotation_search_recovers_synthetic_curl() {
    // A synthetic asymmetric silhouette and a copy rotated by exactly 47
    // degrees: scoring the candidate at every whole angle against the
    // rotated reference must pick 47 within the grid resolution.
    let side = 32usize;
    let mut base = vec![0.0f64; side * side];
    for i in 4..28 {
        base[10 * side + i] = 1.0;
        base[i * side + 9] = 1.0;
    }
    for i in 20..26 {
        base[22 * side + i] = 1.0;
    }
    let reference = rotate_nn(&base, side, 47.0);

    let scores: Vec<u64> = (0..=360)
        .map(|i| sum_abs_diff(&rotate_nn(&base, side, i as f64), &reference))
        .collect();
    let curl = PositionAdjust::find_curl(&scores);
    assert!((46..=48).contains(&curl), "curl estimate was {curl}");
}

#[test]
fn curl_ties_keep_first_angle() {
    let mut scores = vec![9u64; 361];
    scores[50] = 2;
    scores[300] = 2;
    assert_eq!(PositionAdjust::find_curl(&scores), 50);
}

#[test]
fn best_score_index_prefers_earliest_minimum() {
    let scores = vec![5u64, 3, 7, 3, 9];
    assert_eq!(best_score_index(&scores), 1);
    let single = vec![4u64];
    assert_eq!(best_score_index(&single), 0);
}

#[test]
fn offset_search_picks_first_minimal_candidate() {
    let adjust = PositionAdjust::new(
        Dimensions { width: 4, height: 2 },
        Point { x: 0, y: 0 },
        Vec::new(),
    );
    // Candidates +1, -1, +2, -2 along x; the first minimum (score 3) sits at
    // index 1, offset -1. Along y candidates +1, -1: the minimum picks -1.
    let scores_x = vec![5u64, 3, 7, 3];
    let scores_y = vec![9u64, 2];
    assert_eq!(adjust.find_offset(&scores_x, &scores_y), (-1, -1));

    // Positive winners map to positive offsets.
    let scores_x2 = vec![5u64, 8, 1, 6];
    let scores_y2 = vec![0u64, 4];
    assert_eq!(adjust.find_offset(&scores_x2, &scores_y2), (2, 1));
}

#[test]
fn offset_search_with_no_candidates_keeps_zero() {
    let adjust = PositionAdjust::new(
        Dimensions { width: 1, height: 1 },
        Point { x: 0, y: 0 },
        Vec::new(),
    );
    assert_eq!(adjust.find_offset(&Vec::new(), &Vec::new()), (0, 0));
}
