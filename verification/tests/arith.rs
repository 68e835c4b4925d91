use sparrow::data::ExampleInSampleSet;
use sparrow::data::LabeledData;
use sparrow::fixed::MAX_WEIGHT;
use sparrow::fixed::MARGIN_ZERO;
use sparrow::fixed::SCALE;
use sparrow::fixed::half_ln_ratio;
use sparrow::fixed::weight_of_margin;
use sparrow::scoring::accumulate_scores;
use sparrow::test_helper::get_mock_packet;
use sparrow::test_helper::get_n_random_examples;
use sparrow::tree::Model;
use sparrow::tree::UpdateList;

#[test]
fn test_weight_of_zero_margin_is_one() {
    assert_eq!(weight_of_margin(0), SCALE);
}

#[test]
fn test_weight_saturates_and_vanishes() {
    assert_eq!(weight_of_margin(MARGIN_ZERO), 0);
    assert_eq!(weight_of_margin(i64::MAX), 0);
    let heavy = weight_of_margin(i64::MIN);
    assert!(heavy >= SCALE);
    assert!(heavy <= MAX_WEIGHT);
    // a margin of -1.0 weighs about e ~ 2.718
    let w = weight_of_margin(-(SCALE as i64)) as f64 / SCALE as f64;
    assert!((w - 1.0f64.exp()).abs() < 0.02, "weight {}", w);
    // a margin of +1.0 weighs about 1/e ~ 0.368
    let w = weight_of_margin(SCALE as i64) as f64 / SCALE as f64;
    assert!((w - (-1.0f64).exp()).abs() < 0.01, "weight {}", w);
}

#[test]
fn test_half_ln_ratio_values() {
    assert_eq!(half_ln_ratio(5, 5), 0);
    // signed like the true logarithm, and at least 0.34 from ratio two up
    assert!(half_ln_ratio(1, 5) < 0);
    assert!(half_ln_ratio(5, 1) > 0);
    assert!(half_ln_ratio(2, 1) >= 340_000);
    assert_eq!(half_ln_ratio(123_456, 123_456), 0);
    let r = half_ln_ratio(60, 40) as f64 / SCALE as f64;
    let expected = 0.5f64 * 1.5f64.ln();
    assert!((r - expected).abs() < 5e-4, "half ln {}", r);
    let r = half_ln_ratio(1, 1_000_000) as f64 / SCALE as f64;
    let expected = 0.5f64 * (1e-6f64).ln();
    assert!((r - expected).abs() < 5e-3, "half ln {}", r);
}

#[test]
fn test_margin_signs() {
    let pos = ExampleInSampleSet {
        example: LabeledData::new(vec![0], 1),
        base_score: 100,
        base_len: 0,
        curr_score: 400,
        curr_len: 0,
    };
    assert_eq!(pos.margin(), 300);
    let neg = ExampleInSampleSet {
        example: LabeledData::new(vec![0], -1),
        base_score: 100,
        base_len: 0,
        curr_score: 400,
        curr_len: 0,
    };
    assert_eq!(neg.margin(), -300);
}

#[test]
fn test_accumulate_scores_incremental() {
    let mut model = Model::new_root(1_000);
    let mut patch = UpdateList::new();
    // a stump on feature 0 with threshold 4
    patch.add(0, 0, 4, true, 0, 2_000, -2_000);
    model.append_patch(&patch);
    let examples = vec![
        LabeledData::new(vec![3], 1),
        LabeledData::new(vec![9], -1),
    ];
    let mut scores: Vec<i64> = vec![0, 0];
    accumulate_scores(&model, &examples, &mut scores, 0);
    // root contributes 1000 to both; the stump adds +-2000 by side
    assert_eq!(scores, vec![3_000, -1_000]);
    // scoring only the new part of a grown model adds just the stump
    accumulate_scores(&model, &examples, &mut scores, 1);
    assert_eq!(scores, vec![5_000, -3_000]);
}

#[test]
fn test_mock_packet_and_random_examples() {
    let packet = get_mock_packet(3, 1, 45_000, 2);
    assert_eq!(packet.source_machine_id, 3);
    assert_eq!(packet.node_id, 1);
    assert_eq!(packet.gamma, 45_000);
    assert_eq!(packet.updates.updates.len(), 2);
    assert_eq!(packet.ess, SCALE / 2);
    assert!(!packet.fallback);
    assert_eq!(packet.base_model_signature.as_str(), "base_model_sig");
    let examples = get_n_random_examples(7, 3);
    assert_eq!(examples.len(), 7);
    for e in &examples {
        assert_eq!(e.example.features.len(), 3);
        assert_eq!(e.example.label, 0);
        assert_eq!(e.score, 0);
    }
}

#[test]
fn test_model_validate_and_prefix() {
    let mut model = Model::new_root(0);
    assert!(model.validate());
    let mut patch = UpdateList::new();
    patch.add(0, 0, 1, false, 0, 500, -500);
    model.append_patch(&patch);
    assert!(model.validate());
    // a hand-broken model fails validation
    let mut broken = model.duplicate();
    broken.nodes[1].depth = 7;
    assert!(!broken.validate());
}
