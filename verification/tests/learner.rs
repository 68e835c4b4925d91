use sparrow::bins::Bins;
use sparrow::data::ExampleInSampleSet;
use sparrow::data::LabeledData;
use sparrow::fixed::SCALE;
use sparrow::learner::Learner;
use sparrow::learner::LearnerOutcome;

fn resident(value: u8, label: i8) -> ExampleInSampleSet {
    ExampleInSampleSet {
        example: LabeledData::new(vec![value], label),
        base_score: 0,
        base_len: 0,
        curr_score: 0,
        curr_len: 0,
    }
}

/// A batch spread over both sides of the single threshold `0`, with
/// `pos_per_side` positives and `neg_per_side` negatives on each side. Its
/// single candidate has empirical edge
/// `|pos - neg| / (pos + neg)` per side, i.e.
/// `2 * (pos - neg) / (2 * 2 * (pos + neg))`.
fn edge_batch(pos_per_side: usize, neg_per_side: usize) -> Vec<ExampleInSampleSet> {
    let mut batch = Vec::new();
    for side in 0..2u8 {
        for _ in 0..pos_per_side {
            batch.push(resident(side, 1));
        }
        for _ in 0..neg_per_side {
            batch.push(resident(side, -1));
        }
    }
    batch
}

fn unit_weights(n: usize) -> Vec<u64> {
    vec![SCALE; n]
}

fn one_candidate_bins() -> Bins {
    Bins {
        thresholds: vec![vec![0u8]],
    }
}

#[test]
fn test_gamma_shrink() {
    // Batches with a true edge of 0.02 (27 positives and 23 negatives on
    // each side of the split) under a target edge of 0.1: the learner must
    // give up within its trial budget; at a target edge of 0.02 it fires.
    let max_trials: u64 = 5_000;
    let mut learner = Learner::new(100_000, max_trials, 0, one_candidate_bins());
    let mut fallback_at: Option<usize> = None;
    for round in 0..1_000 {
        let batch = edge_batch(27, 23);
        let weights = unit_weights(batch.len());
        match learner.update(&batch, &weights) {
            LearnerOutcome::Found(c) => {
                panic!("candidate with edge {} under a target of 0.1", c.edge);
            }
            LearnerOutcome::Fallback => {
                fallback_at = Some(round);
                break;
            }
            LearnerOutcome::Scanning => {}
        }
    }
    // the budget is max_trials examples, at 100 examples per batch
    let fallback_at = fallback_at.expect("no fallback within 1000 batches");
    assert!(fallback_at as u64 <= max_trials / 100 + 1);
    // after the shrink to 0.02 the same stream yields a candidate
    learner.set_gamma(20_000);
    let mut found = None;
    for _ in 0..10 {
        let batch = edge_batch(27, 23);
        let weights = unit_weights(batch.len());
        match learner.update(&batch, &weights) {
            LearnerOutcome::Found(c) => {
                found = Some(c);
                break;
            }
            LearnerOutcome::Fallback => panic!("fallback right after reset"),
            LearnerOutcome::Scanning => {}
        }
    }
    let c = found.expect("no candidate at a target edge the stream clears");
    // the empirical edge is exactly |27 - 23| / (2 * 100) = 0.02
    assert_eq!(c.edge, 20_000);
    assert_eq!(c.feature, 0);
    assert_eq!(c.threshold, 0);
}

#[test]
fn test_candidate_edge_meets_gamma() {
    // a perfectly separating stream fires immediately, and the candidate's
    // edge is at least the target edge
    let mut learner = Learner::new(100_000, 100_000, 0, one_candidate_bins());
    let mut batch = Vec::new();
    for i in 0..100 {
        // positives sit at value 0 (left of the threshold), negatives at 1
        if i % 2 == 0 {
            batch.push(resident(0, 1));
        } else {
            batch.push(resident(1, -1));
        }
    }
    let weights = unit_weights(batch.len());
    match learner.update(&batch, &weights) {
        LearnerOutcome::Found(c) => {
            assert!(c.edge >= learner.gamma);
            // one side holds all 50 positives: edge 50 / (2 * 100) = 0.25
            assert_eq!(c.edge, 250_000);
            // the left side is purely positive, the right purely negative
            assert!(c.pred_left > 0);
            assert!(c.pred_right < 0);
        }
        _ => panic!("perfectly separable batch found no candidate"),
    }
}

#[test]
fn test_zero_weight_examples_are_ignored() {
    // examples with zero weight contribute nothing to the histograms
    let mut learner = Learner::new(200_000, 100_000, 0, one_candidate_bins());
    let mut batch = Vec::new();
    let mut weights = Vec::new();
    for _ in 0..10 {
        batch.push(resident(0, 1));
        weights.push(SCALE);
    }
    for _ in 0..10 {
        batch.push(resident(1, -1));
        weights.push(SCALE);
    }
    for _ in 0..5 {
        // weightless positives on the right side
        batch.push(resident(1, 1));
        weights.push(0);
    }
    match learner.update(&batch, &weights) {
        LearnerOutcome::Found(c) => {
            // as if the weightless examples were absent: edge 0.25
            assert_eq!(c.edge, 250_000);
        }
        _ => panic!("expected a candidate"),
    }
    assert_eq!(learner.total_pos, 10 * SCALE);
    assert_eq!(learner.total_neg, 10 * SCALE);
}

#[test]
fn test_learner_reset_zeroes_state() {
    let mut learner = Learner::new(100_000, 100_000, 0, one_candidate_bins());
    let batch = edge_batch(5, 5);
    let weights = unit_weights(batch.len());
    learner.update(&batch, &weights);
    assert_eq!(learner.num_scanned, 20);
    learner.reset();
    assert_eq!(learner.num_scanned, 0);
    assert_eq!(learner.total_pos, 0);
    assert_eq!(learner.total_neg, 0);
    assert_eq!(learner.gamma, 100_000);
}

#[test]
fn test_confidence_floor_delays_candidate() {
    // with a confidence floor of 1000 examples, a good candidate may not
    // fire on the first 100-example batch
    let mut learner = Learner::new(20_000, 100_000, 1_000, one_candidate_bins());
    let batch = edge_batch(27, 23);
    let weights = unit_weights(batch.len());
    match learner.update(&batch, &weights) {
        LearnerOutcome::Scanning => {}
        _ => panic!("candidate fired below the confidence floor"),
    }
    // nine more batches cross the floor
    let mut outcome = LearnerOutcome::Scanning;
    for _ in 0..9 {
        let batch = edge_batch(27, 23);
        let weights = unit_weights(batch.len());
        outcome = learner.update(&batch, &weights);
    }
    match outcome {
        LearnerOutcome::Found(c) => assert_eq!(c.edge, 20_000),
        _ => panic!("no candidate after crossing the confidence floor"),
    }
}
