use vstd::prelude::*;

use crate::colorspaces::{round_div, Luma, HSV};
use crate::helpers::{Dimensions, Identification, Point, Range};
use crate::linear_algebra::MatrixSlice2d;
use crate::rational::Frac;

verus! {

/// The index of the first occurrence of the smallest score in the sequence
/// (0 for an empty sequence).
pub open spec fn first_min_index(s: Seq<u64>) -> int
    decreases s.len(),
{
    if s.len() <= 1 {
        0
    } else {
        let sub = first_min_index(s.drop_last());
        if s[s.len() - 1] < s[sub] {
            s.len() - 1
        } else {
            sub
        }
    }
}

/// The first-minimum index is a minimum, and every earlier score is strictly
/// larger.
pub proof fn lemma_first_min_index(s: Seq<u64>)
    requires
        s.len() >= 1,
    ensures
        0 <= first_min_index(s) < s.len(),
        forall|i: int| 0 <= i < s.len() ==> s[first_min_index(s)] <= #[trigger] s[i],
        forall|i: int| 0 <= i < first_min_index(s) ==> #[trigger] s[i] > s[first_min_index(s)],
    decreases s.len(),
{
    if s.len() > 1 {
        lemma_first_min_index(s.drop_last());
        assert(forall|i: int| 0 <= i < s.len() - 1 ==> s.drop_last()[i] == s[i]);
    }
}

/// The translation candidate that position `j` of a score list stands for:
/// candidates run `+1, -1, +2, -2, ...` along one axis.
pub open spec fn offset_of_index(j: int) -> int {
    if j % 2 == 0 {
        j / 2 + 1
    } else {
        -(j / 2 + 1)
    }
}

/// Controls position adjustment parameters.
///
/// The master's silhouette (its edge-extracted raster) is supplied fully
/// materialized; edge extraction, rotation and the similarity metric are
/// external collaborators, and this type holds the decision logic of the
/// alignment search over the scores they produce.
#[derive(Clone, Debug)]
pub struct PositionAdjust {
    pub dimension: Dimensions<u32>,
    pub top_left_corner: Point<u32>,
    pub edge_image: Vec<Luma<u8>>,
}

/// The index of the lowest score in a non-empty list, ties resolved toward
/// the earliest candidate: the deterministic reduction both phases of the
/// alignment search share.
pub fn best_score_index(scores: &Vec<u64>) -> (best: usize)
    requires
        scores.len() >= 1,
    ensures
        best == first_min_index(scores@),
{
    let mut best: usize = 0;
    let mut i: usize = 1;
    while i < scores.len()
        invariant
            1 <= i <= scores@.len(),
            0 <= best < i,
            best == first_min_index(scores@.take(i as int)),
        decreases scores@.len() - i,
    {
        proof {
            let pre = scores@.take(i as int);
            let post = scores@.take(i + 1 as int);
            assert(post.drop_last() =~= pre);
            assert(post[post.len() - 1] == scores@[i as int]);
            lemma_first_min_index(pre);
        }
        if scores[i] < scores[best] {
            best = i;
        }
        i = i + 1;
    }
    proof {
        assert(scores@.take(scores@.len() as int) =~= scores@);
    }
    best
}

impl PositionAdjust {
    /// Returns a struct with the given fields.
    pub fn new(
        dimension: Dimensions<u32>,
        top_left_corner: Point<u32>,
        edge_image: Vec<Luma<u8>>,
    ) -> (t: PositionAdjust)
        ensures
            t.dimension == dimension,
            t.top_left_corner == top_left_corner,
            t.edge_image == edge_image,
    {
        Self { dimension, top_left_corner, edge_image }
    }

    /// Finds the angle offset of the given image when compared to the master
    /// image.
    ///
    /// `scores[i]` is the similarity score (lower is more similar) of the
    /// candidate silhouette rotated by `i` whole degrees against the
    /// reference, for every angle from 0 to 360 inclusive; the external
    /// metric produces the scores, and the winning curl is the first angle
    /// whose score is minimal, which keeps the search deterministic however
    /// the scoring was parallelized.
    pub fn find_curl(scores: &Vec<u64>) -> (curl: usize)
        requires
            scores.len() == 361,
        ensures
            curl == first_min_index(scores@),
            curl <= 360,
            forall|i: int| 0 <= i < 361 ==> scores@[curl as int] <= #[trigger] scores@[i],
            forall|i: int| 0 <= i < curl ==> #[trigger] scores@[i] > scores@[curl as int],
    {
        proof {
            lemma_first_min_index(scores@);
        }
        best_score_index(scores)
    }

    /// Selects the translation offset along each axis after the curl is
    /// fixed: a greedy, axis-separable search, not a joint one.
    ///
    /// `scores_x[j]` scores the candidate translated by `offset_of_index(j)`
    /// pixels along x (candidates `+1, -1, ..., +width/2, -width/2`, in that
    /// order); `scores_y` likewise along y with the x offset already applied.
    /// Each axis keeps the first offset with the minimum score; an axis with
    /// no candidates keeps offset 0.
    pub fn find_offset(&self, scores_x: &Vec<u64>, scores_y: &Vec<u64>) -> (offset: (i64, i64))
        requires
            scores_x.len() == 2 * (self.dimension.width / 2),
            scores_y.len() == 2 * (self.dimension.height / 2),
        ensures
            offset.0 == if scores_x.len() == 0 {
                0int
            } else {
                offset_of_index(first_min_index(scores_x@))
            },
            offset.1 == if scores_y.len() == 0 {
                0int
            } else {
                offset_of_index(first_min_index(scores_y@))
            },
    {
        let dx: i64 = Self::axis_offset(scores_x);
        let dy: i64 = Self::axis_offset(scores_y);
        (dx, dy)
    }

    /// The winning offset along one axis: the candidate of the first minimal
    /// score, or 0 when there are no candidates.
    fn axis_offset(scores: &Vec<u64>) -> (offset: i64)
        requires
            scores.len() <= u32::MAX,
        ensures
            offset == if scores.len() == 0 {
                0int
            } else {
                offset_of_index(first_min_index(scores@))
            },
    {
        if scores.len() == 0 {
            return 0;
        }
        let j = best_score_index(scores);
        proof {
            lemma_first_min_index(scores@);
        }
        let magnitude: i64 = (j as i64) / 2 + 1;
        if j % 2 == 0 {
            magnitude
        } else {
            -magnitude
        }
    }
}

/// The sample a region scan reads at `(x, y)` of a `w` by `h` raster:
/// row-major, falling back to the first sample for a spot past the end of
/// the buffer.
pub open spec fn read_sample(input: Seq<HSV<Frac>>, w: int, h: int, x: int, y: int) -> HSV<Frac> {
    if y * w + x < w * h {
        input[y * w + x]
    } else {
        input[0]
    }
}

/// Controls color area tool.
#[derive(Clone, Debug)]
pub struct ColorArea {
    pub dimension: Dimensions<u32>,
    pub top_left_corner: Point<u32>,
    pub hue: Range<Frac>,
    pub saturation: Range<Frac>,
    pub value: Range<Frac>,
    pub identification: Identification<u8>,
}

impl ColorArea {
    /// Whether a pixel satisfies all three configured ranges at once.
    pub open spec fn pixel_matches(self, p: HSV<Frac>) -> bool {
        &&& self.hue.spec_within_inclusive(p.h)
        &&& self.saturation.spec_within_inclusive(p.s)
        &&& self.value.spec_within_inclusive(p.v)
    }

    /// Matching pixels among the first `n` columns of the scan's row `y`.
    pub open spec fn row_match_count(
        self,
        input: Seq<HSV<Frac>>,
        w: int,
        h: int,
        y: int,
        n: int,
    ) -> int
        decreases n,
    {
        if n <= 0 {
            0
        } else {
            self.row_match_count(input, w, h, y, n - 1) + if self.pixel_matches(
                read_sample(input, w, h, self.top_left_corner.x + n - 1, y),
            ) {
                1int
            } else {
                0int
            }
        }
    }

    /// Matching pixels among the first `n` full rows of the scan.
    pub open spec fn rect_match_count(self, input: Seq<HSV<Frac>>, w: int, h: int, n: int) -> int
        decreases n,
    {
        if n <= 0 {
            0
        } else {
            self.rect_match_count(input, w, h, n - 1) + self.row_match_count(
                input,
                w,
                h,
                self.top_left_corner.y + n - 1,
                self.dimension.width + 1,
            )
        }
    }

    /// Matching pixels of the whole scan: the rectangle from the top-left
    /// corner spanning the configured width and height, both ends inclusive
    /// (one pixel wider and taller than the dimensions name, an off-by-one
    /// the scan keeps for compatibility).
    pub open spec fn match_count(self, input: Seq<HSV<Frac>>, w: int, h: int) -> int {
        self.rect_match_count(input, w, h, self.dimension.height + 1)
    }

    /// The number of pixels the scan reads.
    pub open spec fn scan_area(self) -> int {
        (self.dimension.width + 1) * (self.dimension.height + 1)
    }

    /// The score in hundredths: the matched share of the scanned pixels,
    /// rounded to two decimal places.
    ///
    /// The divisor counts the scanned pixels, so together with the inclusive
    /// scan the score is a well-defined fraction of at most 1 for every
    /// region, where dividing by the un-inflated width times height would let
    /// a fully matching region score above 1.
    pub open spec fn score_num(self, input: Seq<HSV<Frac>>, w: int, h: int) -> int {
        round_div(100 * self.match_count(input, w, h), self.scan_area())
    }

    /// What the scan needs of the raster and of the region so that every
    /// coordinate and the counter stay within machine bounds.
    pub open spec fn scan_ok(self, input: Seq<HSV<Frac>>, w: int, h: int) -> bool {
        &&& input.len() == w * h
        &&& input.len() >= 1
        &&& w * h <= u32::MAX
        &&& self.top_left_corner.x + self.dimension.width < u32::MAX
        &&& self.top_left_corner.y + self.dimension.height < u32::MAX
        &&& (self.top_left_corner.y + self.dimension.height) * w + self.top_left_corner.x
            + self.dimension.width <= u32::MAX
        &&& self.scan_area() <= u32::MAX
    }

    /// Every row count lies between 0 and the number of columns scanned.
    proof fn lemma_row_count_bound(self, input: Seq<HSV<Frac>>, w: int, h: int, y: int, n: int)
        requires
            0 <= n,
        ensures
            0 <= self.row_match_count(input, w, h, y, n) <= n,
        decreases n,
    {
        if n > 0 {
            self.lemma_row_count_bound(input, w, h, y, n - 1);
        }
    }

    /// Every rectangle count lies between 0 and rows times columns.
    proof fn lemma_rect_count_bound(self, input: Seq<HSV<Frac>>, w: int, h: int, n: int)
        requires
            0 <= n,
        ensures
            0 <= self.rect_match_count(input, w, h, n) <= n * (self.dimension.width + 1),
        decreases n,
    {
        let cols = self.dimension.width + 1;
        if n > 0 {
            self.lemma_rect_count_bound(input, w, h, n - 1);
            self.lemma_row_count_bound(
                input,
                w,
                h,
                self.top_left_corner.y + n - 1,
                cols,
            );
            assert((n - 1) * cols + cols == n * cols) by (nonlinear_arith);
        } else {
            assert(n * cols == 0) by (nonlinear_arith)
                requires
                    n == 0,
            ;
        }
    }

    /// Returns the share of pixels in the scanned rectangle whose hue,
    /// saturation and value each lie within the configured ranges, as a
    /// fraction in hundredths.
    ///
    /// The score is always between 0 and 1 inclusive, for any raster and any
    /// range configuration.
    pub fn check(&self, input: &Vec<HSV<Frac>>, width: u32, height: u32) -> (score: Frac)
        requires
            self.scan_ok(input@, width as int, height as int),
        ensures
            score.den == 100,
            score.num == self.score_num(input@, width as int, height as int),
            score.num <= 100,
            score.wf(),
    {
        let ghost w = width as int;
        let ghost h = height as int;
        let x_first: u32 = self.top_left_corner.x;
        let y_first: u32 = self.top_left_corner.y;
        let x_last: u32 = x_first + self.dimension.width;
        let y_last: u32 = y_first + self.dimension.height;
        let cols: u32 = self.dimension.width + 1;

        let mut count: u32 = 0;
        let mut y: u32 = y_first;
        while y <= y_last
            invariant
                self.scan_ok(input@, w, h),
                w == width as int,
                h == height as int,
                x_first == self.top_left_corner.x,
                y_first == self.top_left_corner.y,
                x_last == x_first + self.dimension.width,
                y_last == y_first + self.dimension.height,
                cols == self.dimension.width + 1,
                y_first <= y <= y_last + 1,
                count == self.rect_match_count(input@, w, h, y - y_first),
                count <= (y - y_first) * cols,
            decreases y_last + 1 - y,
        {
            let ghost row_y = y as int;
            let ghost done_rows = y - y_first;
            let mut x: u32 = x_first;
            while x <= x_last
                invariant
                    self.scan_ok(input@, w, h),
                    w == width as int,
                    h == height as int,
                    x_first == self.top_left_corner.x,
                    y_first == self.top_left_corner.y,
                    x_last == x_first + self.dimension.width,
                    y_last == y_first + self.dimension.height,
                    cols == self.dimension.width + 1,
                    y == row_y,
                    y_first <= y <= y_last,
                    done_rows == y - y_first,
                    x_first <= x <= x_last + 1,
                    count == self.rect_match_count(input@, w, h, done_rows)
                        + self.row_match_count(input@, w, h, row_y, x - x_first),
                    count <= done_rows * cols + (x - x_first),
                decreases x_last + 1 - x,
            {
                proof {
                    lemma_mul_le(y as int, y_last as int, w);
                }
                let pixel: HSV<Frac> = input.interpret_position(x, y, width, height);
                proof {
                    assert(pixel == read_sample(input@, w, h, x as int, y as int));
                    assert((done_rows + 1) * cols == done_rows * cols + cols)
                        by (nonlinear_arith);
                    lemma_mul_le(done_rows + 1, self.dimension.height + 1, cols as int);
                }
                if self.hue.within_range_inclusive(pixel.h) && self.saturation.within_range_inclusive(
                    pixel.s,
                ) && self.value.within_range_inclusive(pixel.v) {
                    count = count + 1;
                }
                x = x + 1;
            }
            proof {
                assert(self.rect_match_count(input@, w, h, done_rows + 1)
                    == self.rect_match_count(input@, w, h, done_rows) + self.row_match_count(
                    input@,
                    w,
                    h,
                    row_y,
                    cols as int,
                ));
                assert((done_rows + 1) * cols == done_rows * cols + cols) by (nonlinear_arith);
            }
            y = y + 1;
        }
        proof {
            self.lemma_rect_count_bound(input@, w, h, self.dimension.height + 1);
            assert((self.dimension.height + 1) * (self.dimension.width + 1) == (self.dimension.width
                + 1) * (self.dimension.height + 1) && (self.dimension.width + 1) * (self.dimension.height
                + 1) >= 1) by (nonlinear_arith)
                requires
                    self.dimension.height >= 0,
                    self.dimension.width >= 0,
            ;
        }
        let scan_pixels: u32 = cols * (self.dimension.height + 1);
        let num_wide: u64 = (200 * (count as u64) + (scan_pixels as u64)) / (2 * (
        scan_pixels as u64));
        proof {
            lemma_score_in_range(count as int, scan_pixels as int);
        }
        Frac { num: num_wide as u32, den: 100 }
    }

    /// Creates a struct with the given parameters.
    pub fn new(
        dimension: Dimensions<u32>,
        top_left_corner: Point<u32>,
        hue: Range<Frac>,
        saturation: Range<Frac>,
        value: Range<Frac>,
        identification: Identification<u8>,
    ) -> (t: ColorArea)
        ensures
            t.dimension == dimension,
            t.top_left_corner == top_left_corner,
            t.hue == hue,
            t.saturation == saturation,
            t.value == value,
            t.identification == identification,
    {
        Self { dimension, top_left_corner, hue, saturation, value, identification }
    }
}

/// Multiplying both sides of an inequality by a nonnegative factor keeps it.
proof fn lemma_mul_le(a: int, b: int, c: int)
    by (nonlinear_arith)
    requires
        a <= b,
        0 <= c,
    ensures
        a * c <= b * c,
{
}

/// A count of at most the scanned area rounds to a share between 0 and 100
/// hundredths.
proof fn lemma_score_in_range(c: int, a: int)
    requires
        0 <= c <= a,
        1 <= a,
    ensures
        0 <= round_div(100 * c, a) <= 100,
{
    vstd::arithmetic::div_mod::lemma_div_is_ordered(0, 2 * (100 * c) + a, 2 * a);
    vstd::arithmetic::div_mod::lemma_div_is_ordered(2 * (100 * c) + a, (2 * a) * 100 + a, 2 * a);
    vstd::arithmetic::div_mod::lemma_div_multiples_vanish_fancy(100, a, 2 * a);
    assert(2 * (100 * c) + a <= (2 * a) * 100 + a) by (nonlinear_arith)
        requires
            c <= a,
    ;
}

} // verus!
