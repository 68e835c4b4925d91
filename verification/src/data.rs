//! Training examples and the forms they take inside the sample buffer.

use vstd::prelude::*;
use crate::tree::MAX_MODEL_SIZE;
use crate::tree::PRED_LIMIT;

verus! {

/// Cap on the magnitude of a base score handed in by the sampler (`100000.0`
/// fixed point); keeps every later score computation inside `i64`.
pub const BASE_SCORE_LIMIT: i64 = 100_000_000_000_000;

/// One binned training example: small-integer feature codes and a label
/// (positive iff greater than zero).
pub struct LabeledData {
    /// Pre-binned feature codes.
    pub features: Vec<u8>,
    /// The example's label; positive iff `label > 0`.
    pub label: i8,
}

impl LabeledData {
    /// Build an example.
    pub fn new(features: Vec<u8>, label: i8) -> (r: LabeledData)
        ensures
            r.features == features,
            r.label == label,
    {
        LabeledData { features, label }
    }

    /// A fresh example with the same features and label.
    pub fn duplicate(&self) -> (r: LabeledData)
        ensures
            r.features@ == self.features@,
            r.label == self.label,
    {
        let mut feats: Vec<u8> = Vec::new();
        let mut i: usize = 0;
        while i < self.features.len()
            invariant
                i <= self.features@.len(),
                feats@ == self.features@.subrange(0, i as int),
            decreases self.features@.len() - i,
        {
            feats.push(self.features[i]);
            proof {
                assert(feats@ == self.features@.subrange(0, i + 1 as int));
            }
            i = i + 1;
        }
        proof {
            assert(self.features@.subrange(0, self.features@.len() as int) == self.features@);
        }
        LabeledData { features: feats, label: self.label }
    }
}

/// An example as the sampler delivers it: with the score and model length it
/// was sampled under.
pub struct ExampleWithScore {
    /// The example itself.
    pub example: LabeledData,
    /// Score (fixed point) of the example under the sampler's model.
    pub score: i64,
    /// Length of the model that produced `score`.
    pub model_len: usize,
}

/// An example resident in the training buffer: the base score is fixed when
/// the buffer is adopted, the current score advances with the local model.
pub struct ExampleInSampleSet {
    /// The example itself.
    pub example: LabeledData,
    /// Score when the example entered the buffer; never changes afterwards.
    pub base_score: i64,
    /// Model length `base_score` was computed under.
    pub base_len: usize,
    /// Score under the worker's current model.
    pub curr_score: i64,
    /// Model length `curr_score` was computed under.
    pub curr_len: usize,
}

impl ExampleInSampleSet {
    /// Range discipline of a buffered example: the current score has
    /// advanced from the base score by at most one bounded prediction per
    /// model node between the two lengths.
    pub open spec fn wf(self) -> bool {
        &&& -BASE_SCORE_LIMIT <= self.base_score <= BASE_SCORE_LIMIT
        &&& self.base_len <= self.curr_len <= MAX_MODEL_SIZE
        &&& -((self.curr_len - self.base_len) as int) * PRED_LIMIT
            <= self.curr_score - self.base_score
            <= ((self.curr_len - self.base_len) as int) * PRED_LIMIT
    }

    /// The margin (fixed point) of the example: the score it has gained
    /// since entering the buffer, signed by its label.
    pub open spec fn spec_margin(self) -> int {
        if self.label_positive() {
            self.curr_score - self.base_score
        } else {
            self.base_score - self.curr_score
        }
    }

    pub open spec fn label_positive(self) -> bool {
        self.example.label > 0
    }

    /// The margin as executable arithmetic.
    pub fn margin(&self) -> (m: i64)
        requires
            self.wf(),
        ensures
            m == self.spec_margin(),
    {
        proof {
            assert(((self.curr_len - self.base_len) as int) * PRED_LIMIT
                <= (MAX_MODEL_SIZE as int) * PRED_LIMIT) by (nonlinear_arith)
                requires 0 <= self.curr_len - self.base_len <= MAX_MODEL_SIZE;
        }
        if self.example.label > 0 {
            self.curr_score - self.base_score
        } else {
            self.base_score - self.curr_score
        }
    }
}

/// The signals the loader sends to the sampler.
#[derive(Debug, PartialEq, Eq, Structural, Clone, Copy)]
pub enum Signal {
    /// Ask the sampler to assemble and publish a new sample set.
    START,
    /// Tell the sampler the published set was taken.
    STOP,
}

} // verus!
