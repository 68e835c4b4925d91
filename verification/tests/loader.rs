use sparrow::buffer_loader::BufferLoader;
use sparrow::data::Signal;
use sparrow::fixed::SCALE;
use sparrow::test_helper::get_synthetic_example;
use sparrow::tree::Model;

fn scale_i(v: i64) -> i64 {
    v * (SCALE as i64)
}

#[test]
fn test_buffer_loader() {
    let (sender, receiver) = crossbeam_channel::bounded(10);
    let (signal_s, signal_r) = crossbeam_channel::bounded::<Signal>(10);
    let mut buffer_loader = BufferLoader::new(100, 10, receiver, signal_s, false, false, None);
    assert_eq!(signal_r.recv().unwrap(), Signal::START);
    sender
        .send((get_synthetic_example(vec![0, 1, 2], 0, scale_i(1)), 100))
        .unwrap();
    for _ in 0..20 {
        let batch = buffer_loader.get_next_batch(true);
        assert_eq!(batch.len(), 10);
        assert_eq!(batch[0].base_score, scale_i(1));
        assert_eq!(batch[0].curr_score, scale_i(1));
        assert_eq!(batch[9].base_score, scale_i(1));
        assert_eq!(batch[9].curr_score, scale_i(1));
    }
    sender
        .send((get_synthetic_example(vec![0, 1, 2], 0, scale_i(2)), 100))
        .unwrap();
    for _ in 0..10 {
        let batch = buffer_loader.get_next_batch(true);
        assert_eq!(batch.len(), 10);
        assert_eq!(batch[0].base_score, scale_i(2));
        assert_eq!(batch[0].curr_score, scale_i(2));
        assert_eq!(batch[9].base_score, scale_i(2));
        assert_eq!(batch[9].curr_score, scale_i(2));
    }
}

#[test]
fn test_loader_num_batches() {
    let (_sender, receiver) = crossbeam_channel::bounded(10);
    let (signal_s, _signal_r) = crossbeam_channel::bounded::<Signal>(10);
    let loader = BufferLoader::new(100, 10, receiver, signal_s, true, false, Some(100_000));
    assert_eq!(loader.get_num_batches(), 10);
    assert_eq!(loader.ess, SCALE);
}

#[test]
fn test_ess_uniform_weights() {
    // 100 examples whose current score equals their base score: every
    // weight is exactly 1.0, so the effective sample size is exactly 1.0
    let (sender, receiver) = crossbeam_channel::bounded(10);
    let (signal_s, _signal_r) = crossbeam_channel::bounded::<Signal>(10);
    let mut loader = BufferLoader::new(100, 10, receiver, signal_s, false, false, None);
    sender
        .send((get_synthetic_example(vec![5], 1, 0), 100))
        .unwrap();
    // one full scan of the buffer recomputes the ESS
    for _ in 0..10 {
        loader.get_next_batch(true);
    }
    assert_eq!(loader.ess, SCALE);
}

#[test]
fn test_ess_half_zero_weights() {
    // Half the buffer keeps weight 1.0 (negative labels gain weight, all
    // equally), half drops to weight 0.0 (positive labels with a margin
    // past the zero cutoff): the effective sample size is exactly 0.5.
    let (sender, receiver) = crossbeam_channel::bounded(10);
    let (signal_s, _signal_r) = crossbeam_channel::bounded::<Signal>(10);
    let mut loader = BufferLoader::new(100, 10, receiver, signal_s, false, false, None);
    sender
        .send((get_synthetic_example(vec![5], 1, 0), 50))
        .unwrap();
    sender
        .send((get_synthetic_example(vec![5], -1, 0), 50))
        .unwrap();
    loader.get_next_batch(true);
    // a root whose constant prediction pushes positive margins to the
    // weight-zero cutoff (20.0)
    let model = Model::new_root(20_000_000);
    loader.update_scores(&model);
    assert_eq!(loader.ess, SCALE / 2);
}

#[test]
fn test_update_scores_advances_by_model_predictions() {
    let (sender, receiver) = crossbeam_channel::bounded(10);
    let (signal_s, _signal_r) = crossbeam_channel::bounded::<Signal>(10);
    let mut loader = BufferLoader::new(4, 2, receiver, signal_s, false, false, None);
    sender
        .send((get_synthetic_example(vec![7], 1, scale_i(3)), 4))
        .unwrap();
    loader.get_next_batch(true);
    let model = Model::new_root(123_456);
    loader.update_scores(&model);
    let batch = loader.get_next_batch(false);
    assert_eq!(batch[0].base_score, scale_i(3));
    assert_eq!(batch[0].curr_score, scale_i(3) + 123_456);
    assert_eq!(batch[0].curr_len, 1);
    assert_eq!(batch[0].base_len, 0);
}
