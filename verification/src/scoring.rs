//! Scoring models over a test set.
//!
//! The compute core of model validation: advance a score vector by the
//! predictions of the model nodes past the previously scored length. Called
//! once per persisted model when validating incrementally, or from zeroed
//! scores otherwise; reading the models and writing the reports is the
//! caller's business.

use vstd::prelude::*;
use vstd::pervasive::VecAdditionalExecFns;
use crate::data::LabeledData;
use crate::tree::Model;
use crate::tree::PRED_LIMIT;
use crate::tree::MAX_MODEL_SIZE;
use crate::tree::spec_predict_range;

verus! {

/// Magnitude bound on an accumulated validation score.
pub const VALIDATE_SCORE_LIMIT: i64 = 8_000_000_000_000_000_000;

/// Add to `scores[i]` what the model's nodes `[last_model_length, len)`
/// predict for `examples[i]`.
pub fn accumulate_scores(
    model: &Model,
    examples: &Vec<LabeledData>,
    scores: &mut Vec<i64>,
    last_model_length: usize,
)
    requires
        model.wf(),
        last_model_length <= model.nodes@.len(),
        old(scores)@.len() == examples@.len(),
        forall|i: int| 0 <= i < old(scores)@.len()
            ==> -VALIDATE_SCORE_LIMIT <= #[trigger] old(scores)@[i] <= VALIDATE_SCORE_LIMIT,
    ensures
        final(scores)@.len() == old(scores)@.len(),
        forall|i: int| 0 <= i < old(scores)@.len()
            ==> #[trigger] final(scores)@[i] == old(scores)@[i] + spec_predict_range(
                model.nodes@,
                examples@[i].features@,
                last_model_length as int,
                model.nodes@.len() as int,
            ),
{
    let len = model.size();
    let mut i: usize = 0;
    while i < examples.len()
        invariant
            model.wf(),
            len == model.nodes@.len(),
            last_model_length <= len,
            i <= examples@.len(),
            scores@.len() == examples@.len(),
            scores@.len() == old(scores)@.len(),
            forall|j: int| i <= j < scores@.len()
                ==> #[trigger] scores@[j] == old(scores)@[j],
            forall|j: int| 0 <= j < old(scores)@.len()
                ==> -VALIDATE_SCORE_LIMIT <= #[trigger] old(scores)@[j] <= VALIDATE_SCORE_LIMIT,
            forall|j: int| 0 <= j < i
                ==> #[trigger] scores@[j] == old(scores)@[j] + spec_predict_range(
                    model.nodes@,
                    examples@[j].features@,
                    last_model_length as int,
                    len as int,
                ),
        decreases examples@.len() - i,
    {
        let delta = model.predict_range(&examples[i].features, last_model_length, len);
        proof {
            assert(((len - last_model_length) as int) * PRED_LIMIT
                <= (MAX_MODEL_SIZE as int) * PRED_LIMIT) by (nonlinear_arith)
                requires 0 <= (len - last_model_length) as int <= MAX_MODEL_SIZE as int;
        }
        let s = scores[i];
        scores.set(i, s + delta);
        i = i + 1;
    }
}

} // verus!
