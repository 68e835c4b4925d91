use sparrow::booster::Boosting;
use sparrow::booster::get_base_tree;
use sparrow::buffer_loader::BufferLoader;
use sparrow::data::Signal;
use sparrow::fixed::SCALE;
use sparrow::test_helper::get_synthetic_example;
use sparrow::test_helper::start_network_only_recv;
use sparrow::tree::Model;

fn loaded_loader(
    messages: Vec<(u8, i8, u32)>,
    size: usize,
    batch_size: usize,
) -> BufferLoader {
    let (sender, receiver) = crossbeam_channel::bounded(16);
    let (signal_s, _signal_r) = crossbeam_channel::bounded::<Signal>(16);
    for (value, label, count) in messages {
        sender
            .send((get_synthetic_example(vec![value], label, 0), count))
            .unwrap();
    }
    let mut loader = BufferLoader::new(size, batch_size, receiver, signal_s, false, false, None);
    assert!(loader.try_switch());
    loader
}

#[test]
fn test_root_tree() {
    // 60 positives and 40 negatives: the root prediction is
    // 0.5 * ln(60/40) and the initial edge is |0.5 - 0.6| = 0.1
    let mut loader = loaded_loader(vec![(3, 1, 60), (3, -1, 40)], 100, 10);
    let (model, gamma, _counts) = get_base_tree(100, &mut loader);
    assert_eq!(gamma, 100_000);
    assert_eq!(model.size(), 1);
    let prediction = model.nodes[0].pred_left;
    assert_eq!(model.nodes[0].pred_right, prediction);
    let expected = 0.5f64 * (60.0f64 / 40.0f64).ln();
    let got = prediction as f64 / SCALE as f64;
    assert!(
        (got - expected).abs() < 5e-4,
        "root prediction {} is not near {}",
        got,
        expected
    );
    // balanced labels give a zero prediction and a zero edge, exactly
    let mut loader = loaded_loader(vec![(3, 1, 50), (3, -1, 50)], 100, 10);
    let (model, gamma, _counts) = get_base_tree(100, &mut loader);
    assert_eq!(gamma, 0);
    assert_eq!(model.nodes[0].pred_left, 0);
}

#[test]
fn test_booster_learns_separable_stream() {
    // 50 positives at feature value 0, 50 negatives at value 1: one
    // iteration of boosting finds the split and extends the model
    let loader = loaded_loader(vec![(0, 1, 50), (1, -1, 50)], 100, 10);
    let (sampler_s, sampler_r) = crossbeam_channel::bounded(16);
    let (validator_s, _validator_r) = crossbeam_channel::bounded(16);
    let mut booster = Boosting::new(
        1,        // stop after one accepted non-root node
        100_000,  // trial budget
        loader,
        0,
        1,
        100,
        10,
        100_000,  // target edge 0.1
        1_000,    // halt below 0.001
        0,
        sampler_s,
        validator_s,
    );
    assert_eq!(booster.model.size(), 1);
    let turns = booster.training();
    assert!(turns >= 1);
    assert_eq!(booster.model.size(), 2);
    let node = &booster.model.nodes[1];
    assert_eq!(node.feature, 0);
    assert!(node.pred_left > 0);
    assert!(node.pred_right < 0);
    assert!(booster.sum_gamma > 0);
    // the accepted model was forwarded to the sampler
    let forwarded = sampler_r.recv().unwrap();
    assert_eq!(forwarded.size(), 2);
    // buffered scores were advanced to the new model
    let batch = booster.training_loader.get_next_batch(false);
    assert_eq!(batch[0].curr_len, 2);
}

#[test]
fn test_booster_adopts_broadcast() {
    let loader = loaded_loader(vec![(0, 1, 50), (1, -1, 50)], 100, 10);
    let (sampler_s, _sampler_r) = crossbeam_channel::bounded(16);
    let (validator_s, _validator_r) = crossbeam_channel::bounded(16);
    let mut booster = Boosting::new(
        0,
        100_000,
        loader,
        0,
        1,
        100,
        10,
        100_000,
        1_000,
        0,
        sampler_s,
        validator_s,
    );
    let (out_s, _out_r) = crossbeam_channel::bounded(16);
    let (in_s, in_r) = crossbeam_channel::bounded(16);
    booster.enable_network(out_s, in_r);
    // every broadcast model replaces the local one, whatever its score
    let incoming = Model::new_root(42_000);
    in_s.send((incoming, booster.sum_gamma + 5)).unwrap();
    let replaced = booster.handle_network();
    assert!(replaced);
    assert_eq!(booster.model.nodes[0].pred_left, 42_000);
    // buffered scores were refreshed against the adopted model
    let batch = booster.training_loader.get_next_batch(false);
    assert_eq!(batch[0].curr_len, 1);
    // a later broadcast with a lower score is adopted just the same
    let incoming = Model::new_root(7_000);
    in_s.send((incoming, 0)).unwrap();
    assert!(booster.handle_network());
    assert_eq!(booster.model.nodes[0].pred_left, 7_000);
    assert_eq!(booster.sum_gamma, 0);
}

#[test]
fn test_network_bootstrap_stub() {
    let (sender, _receiver) = crossbeam_channel::bounded::<u32>(1);
    let r = start_network_only_recv("local", &vec![String::from("10.0.0.1")], 8080, sender);
    assert!(r.is_ok());
}
