use vstd::prelude::*;

use crate::colorspaces::HSV;
use crate::helpers::Identification;
use crate::rational::Frac;
use crate::tools::{ColorArea, PositionAdjust};

verus! {

/// An image to compare against: one reference object's identity, alignment
/// parameters, region classifiers and raw master pixels.
///
/// The raw pixel data arrives fully materialized; decoding the master image
/// from disk is the loader's business. The identifier is the loader's UUID
/// carried as its 128-bit value. Once constructed a model is read-only.
#[derive(Clone, Debug)]
pub struct Model {
    pub pos_adjust: PositionAdjust,
    pub color_tools: Vec<ColorArea>,
    pub identification: Identification<u128>,
    pub image_data: Vec<rgb::RGB<u8>>,
}

impl Model {
    /// Creates a Model.
    pub fn new(
        identification: Identification<u128>,
        pos_adjust: PositionAdjust,
        color_tools: Vec<ColorArea>,
        image_data: Vec<rgb::RGB<u8>>,
    ) -> (model: Model)
        ensures
            model.identification == identification,
            model.pos_adjust == pos_adjust,
            model.color_tools == color_tools,
            model.image_data == image_data,
    {
        Self { pos_adjust, color_tools, identification, image_data }
    }

    /// Scores a candidate hsv raster against every configured region, in
    /// configuration order: one score per region, each the region's own
    /// [`ColorArea::check`] result.
    pub fn compare(&self, input: &Vec<HSV<Frac>>, width: u32, height: u32) -> (scores: Vec<Frac>)
        requires
            forall|i: int|
                0 <= i < self.color_tools.len() ==> (#[trigger] self.color_tools[i]).scan_ok(
                    input@,
                    width as int,
                    height as int,
                ),
        ensures
            scores.len() == self.color_tools.len(),
            forall|i: int|
                0 <= i < scores.len() ==> {
                    &&& (#[trigger] scores[i]).den == 100
                    &&& scores[i].num == self.color_tools[i].score_num(
                        input@,
                        width as int,
                        height as int,
                    )
                    &&& scores[i].num <= 100
                },
    {
        let mut scores: Vec<Frac> = Vec::new();
        let mut i: usize = 0;
        while i < self.color_tools.len()
            invariant
                i <= self.color_tools.len(),
                scores.len() == i,
                forall|j: int|
                    0 <= j < self.color_tools.len() ==> (#[trigger] self.color_tools[j]).scan_ok(
                        input@,
                        width as int,
                        height as int,
                    ),
                forall|j: int|
                    0 <= j < i ==> {
                        &&& (#[trigger] scores[j]).den == 100
                        &&& scores[j].num == self.color_tools[j].score_num(
                            input@,
                            width as int,
                            height as int,
                        )
                        &&& scores[j].num <= 100
                    },
            decreases self.color_tools.len() - i,
        {
            let tool = &self.color_tools[i];
            let score = tool.check(input, width, height);
            scores.push(score);
            i = i + 1;
        }
        scores
    }
}

} // verus!
