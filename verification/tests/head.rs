use sparrow::fixed::SCALE;
use sparrow::gamma::Gamma;
use sparrow::gamma::PacketStats;
use sparrow::model_sync::ModelStats;
use sparrow::model_sync::ModelSync;
use sparrow::model_sync::receive_model_update;
use sparrow::packet::Packet;
use sparrow::packet::PacketType;
use sparrow::scheduler::Scheduler;
use sparrow::tree::Model;
use sparrow::tree::UpdateList;

fn packet_for_taxonomy(sample_version: usize, ess: u64, fallback: bool, node_id: usize) -> Packet {
    Packet::new(
        &String::from("worker"),
        0,
        node_id,
        7,
        4,
        UpdateList::new(),
        50_000,
        ess,
        sample_version,
        String::from("A"),
        fallback,
    )
}

#[test]
fn test_packet_taxonomy() {
    let model_sig = String::from("A");
    let min_ess: u64 = 100_000; // 0.1
    // head state: current sample version 6, assignment Some(3)
    let p = packet_for_taxonomy(5, 500_000, false, 3);
    assert_eq!(
        p.get_packet_type(Some(3), 6, &model_sig, min_ess),
        PacketType::RejectSample
    );
    let p = packet_for_taxonomy(6, 500_000, false, 3);
    assert_eq!(
        p.get_packet_type(Some(3), 6, &model_sig, min_ess),
        PacketType::AcceptNonroot
    );
    let p = packet_for_taxonomy(6, 50_000, false, 3);
    assert_eq!(
        p.get_packet_type(Some(3), 6, &model_sig, min_ess),
        PacketType::SmallEffSize
    );
}

#[test]
fn test_packet_taxonomy_remaining_kinds() {
    let model_sig = String::from("A");
    let min_ess: u64 = 100_000;
    let p = packet_for_taxonomy(6, 500_000, false, 3);
    let other_sig = String::from("B");
    assert_eq!(
        p.get_packet_type(Some(3), 6, &other_sig, min_ess),
        PacketType::RejectBaseModel
    );
    assert_eq!(
        p.get_packet_type(Some(2), 6, &model_sig, min_ess),
        PacketType::AssignMismatch
    );
    assert_eq!(
        p.get_packet_type(None, 6, &model_sig, min_ess),
        PacketType::AssignMismatch
    );
    let p = packet_for_taxonomy(6, 500_000, true, 0);
    assert_eq!(
        p.get_packet_type(Some(0), 6, &model_sig, min_ess),
        PacketType::EmptyRoot
    );
    let p = packet_for_taxonomy(6, 500_000, true, 3);
    assert_eq!(
        p.get_packet_type(Some(3), 6, &model_sig, min_ess),
        PacketType::EmptyNonroot
    );
    let p = packet_for_taxonomy(6, 500_000, false, 0);
    assert_eq!(
        p.get_packet_type(Some(0), 6, &model_sig, min_ess),
        PacketType::AcceptRoot
    );
}

#[test]
fn test_packet_type_idempotent() {
    // classifying the same packet against the same head state twice gives
    // the same verdict
    let model_sig = String::from("A");
    let p = packet_for_taxonomy(6, 500_000, false, 3);
    let first = p.get_packet_type(Some(3), 6, &model_sig, 100_000);
    let second = p.get_packet_type(Some(3), 6, &model_sig, 100_000);
    assert_eq!(first, second);
}

#[test]
fn test_packet_signature() {
    let p = packet_for_taxonomy(6, 500_000, false, 3);
    assert_eq!(p.this_model_signature.as_str(), "worker_4");
    assert_eq!(p.packet_signature.as_str(), "pac_worker_4_7");
}

#[test]
fn test_model_append() {
    // two new children of node 0 and one new tree root: the model grows
    // from one node to four, depths [0, 1, 1, 1], parents [-, 0, 0, -]
    let mut model = Model::new_root(0);
    let mut patch = UpdateList::new();
    patch.add(0, 2, 10, false, 30_000, 100_000, -100_000);
    patch.add(0, 5, 20, false, 30_000, 50_000, -50_000);
    patch.add(0, 1, 3, true, 40_000, 25_000, -25_000);
    let new_depths = model.append_patch(&patch);
    assert_eq!(model.size(), 4);
    assert_eq!(new_depths, vec![1, 1, 1]);
    assert_eq!(model.nodes[0].depth, 0);
    assert_eq!(model.nodes[1].depth, 1);
    assert_eq!(model.nodes[2].depth, 1);
    assert_eq!(model.nodes[3].depth, 1);
    assert_eq!(model.nodes[0].parent, None);
    assert_eq!(model.nodes[1].parent, Some(0));
    assert_eq!(model.nodes[2].parent, Some(0));
    assert_eq!(model.nodes[3].parent, None);
    assert_eq!(model.nodes[0].children, vec![1, 2]);
    assert!(!model.nodes[0].is_leaf);
    assert!(model.nodes[1].is_leaf);
    // node splits carry the update's content
    assert_eq!(model.nodes[1].feature, 2);
    assert_eq!(model.nodes[1].threshold, 10);
    assert_eq!(model.nodes[1].pred_left, 100_000);
    assert_eq!(model.nodes[1].pred_right, -100_000);
}

#[test]
fn test_model_stats_counts() {
    let mut model = Model::new_root(0);
    let mut patch = UpdateList::new();
    patch.add(0, 0, 1, false, 0, 1_000, -1_000);
    patch.add(0, 0, 2, false, 0, 1_000, -1_000);
    model.append_patch(&patch);
    // root has two children (room for more trees up to 4); both children
    // are leaves at depth 1 and below the depth cap 3
    let stats = ModelStats::new(model, 4, 3);
    assert_eq!(stats.avail_new_tree, 2);
    assert_eq!(stats.avail_nodes, 3);
    assert_eq!(stats.model_sig.as_str(), "init");
}

#[test]
fn test_gamma_adjust_shrinks() {
    let mut gamma = Gamma::new(100_000, 1_000, 4);
    let mut stats = PacketStats::new(2);
    let packet = packet_for_taxonomy(0, 500_000, true, 3);
    // a window of four failures
    for _ in 0..4 {
        stats.handle_new_packet(&packet, &PacketType::EmptyNonroot);
    }
    assert!(gamma.adjust(&stats));
    assert_eq!(gamma.gamma, 80_000);
    assert_eq!(gamma.gamma_version, 1);
    assert!(gamma.is_valid());
    // below the window nothing moves
    stats.reset();
    assert!(!gamma.adjust(&stats));
    assert_eq!(gamma.gamma, 80_000);
}

#[test]
fn test_root_gamma_decrease() {
    let mut gamma = Gamma::new(100_000, 1_000, 4);
    gamma.decrease_root_gamma();
    assert_eq!(gamma.root_gamma, 80_000);
    assert_eq!(gamma.gamma, 100_000);
    gamma.decrease_root_gamma();
    assert_eq!(gamma.root_gamma, 64_000);
}

#[test]
fn test_handle_packet_accept_extends_model() {
    let model = Model::new_root(0);
    let stats = ModelStats::new(model, 4, 3);
    let gamma = Gamma::new(100_000, 1_000, 10);
    let (model_s, model_r) = crossbeam_channel::bounded(10);
    let mut sync = ModelSync::new(
        stats,
        0,
        &String::from("exp"),
        gamma,
        model_s,
        0,
        vec![0, 0, 0, 0],
        2,
        100_000,
    );
    let mut scheduler = Scheduler::new(2, 1, 3);
    // worker 0 was assigned the root
    scheduler.assignments[0] = Some(0);
    let mut updates = UpdateList::new();
    updates.add(0, 1, 7, false, 30_000, 10_000, -10_000);
    let packet = Packet::new(
        &String::from("worker"),
        0,
        0,
        1,
        2,
        updates,
        30_000,
        500_000,
        0,
        String::from("init"),
        false,
    );
    let verdict = sync.handle_packet(&packet, &mut scheduler);
    assert_eq!(verdict, Some(PacketType::AcceptRoot));
    assert_eq!(sync.model_stats.model.size(), 2);
    // the new signature was derived and broadcast
    assert_eq!(sync.model_stats.model_sig.as_str(), "init_0");
    let (broadcast_model, broadcast_sig) = model_r.recv().unwrap();
    assert_eq!(broadcast_model.size(), 2);
    assert_eq!(broadcast_sig.as_str(), "init_0");
}

#[test]
fn test_handle_packet_empty_root_shrinks_root_gamma() {
    let model = Model::new_root(0);
    let stats = ModelStats::new(model, 4, 3);
    let gamma = Gamma::new(100_000, 1_000, 10);
    let (model_s, _model_r) = crossbeam_channel::bounded(10);
    let mut sync = ModelSync::new(
        stats,
        0,
        &String::from("exp"),
        gamma,
        model_s,
        0,
        vec![],
        2,
        100_000,
    );
    let mut scheduler = Scheduler::new(2, 1, 3);
    scheduler.assignments[1] = Some(0);
    let packet = Packet::new(
        &String::from("worker"),
        1,
        0,
        1,
        1,
        UpdateList::new(),
        30_000,
        500_000,
        0,
        String::from("init"),
        true,
    );
    let verdict = sync.handle_packet(&packet, &mut scheduler);
    assert_eq!(verdict, Some(PacketType::EmptyRoot));
    assert_eq!(sync.gamma.root_gamma, 80_000);
    assert_eq!(sync.gamma.gamma, 100_000);
    assert_eq!(sync.model_stats.model.size(), 1);
    // the fallback was counted toward the window and the sender was unassigned
    assert_eq!(sync.packet_stats.num_empty, 1);
    assert_eq!(scheduler.assignment(1), None);
}

#[test]
fn test_handle_packet_reject_changes_nothing() {
    let model = Model::new_root(0);
    let stats = ModelStats::new(model, 4, 3);
    let gamma = Gamma::new(100_000, 1_000, 10);
    let (model_s, _model_r) = crossbeam_channel::bounded(10);
    let mut sync = ModelSync::new(
        stats,
        0,
        &String::from("exp"),
        gamma,
        model_s,
        5,
        vec![],
        2,
        100_000,
    );
    let mut scheduler = Scheduler::new(2, 1, 3);
    let packet = packet_for_taxonomy(4, 500_000, false, 0);
    let verdict = sync.handle_packet(&packet, &mut scheduler);
    assert_eq!(verdict, Some(PacketType::RejectSample));
    assert_eq!(sync.model_stats.model.size(), 1);
    assert_eq!(sync.model_stats.model_sig.as_str(), "init");
    assert_eq!(sync.packet_stats.num_reject, 1);
}

#[test]
fn test_receive_model_update() {
    let mut model = Model::new_root(0);
    let mut sig = String::from("init");
    let mut patch = UpdateList::new();
    patch.add(0, 0, 1, false, 0, 1_000, -1_000);
    // stale base signature: rejected, nothing changes
    let adopted = receive_model_update(
        &mut model,
        &mut sig,
        &patch,
        &String::from("other"),
        &String::from("v2"),
    );
    assert!(!adopted);
    assert_eq!(model.size(), 1);
    assert_eq!(sig.as_str(), "init");
    // matching base signature: the patch applies and the signature advances
    let adopted = receive_model_update(
        &mut model,
        &mut sig,
        &patch,
        &String::from("init"),
        &String::from("v2"),
    );
    assert!(adopted);
    assert_eq!(model.size(), 2);
    assert_eq!(sig.as_str(), "v2");
}

#[test]
fn test_scheduler_assigns_and_retires() {
    let model = Model::new_root(0);
    let stats = ModelStats::new(model, 4, 3);
    let mut scheduler = Scheduler::new(2, 1, 2);
    scheduler.append_new_nodes(1);
    let changed = scheduler.update(&stats);
    // both machines get the only open node: the root
    assert_eq!(changed, 2);
    assert_eq!(scheduler.assignment(0), Some(0));
    assert_eq!(scheduler.assignment(1), Some(0));
    // two failures retire the root; no assignment can be made afterwards
    let packet = packet_for_taxonomy(0, 500_000, true, 0);
    scheduler.handle_failure(&packet, 1);
    assert_eq!(scheduler.assignment(0), None);
    scheduler.handle_failure(&packet, 1);
    let changed = scheduler.update(&stats);
    assert_eq!(changed, 0);
    assert_eq!(scheduler.assignment(0), None);
}

#[test]
fn test_handle_packet_drops_inapplicable_update() {
    let model = Model::new_root(0);
    let stats = ModelStats::new(model, 4, 3);
    let gamma = Gamma::new(100_000, 1_000, 10);
    let (model_s, _model_r) = crossbeam_channel::bounded(10);
    let mut sync = ModelSync::new(
        stats,
        0,
        &String::from("exp"),
        gamma,
        model_s,
        0,
        vec![],
        2,
        100_000,
    );
    let mut scheduler = Scheduler::new(2, 1, 3);
    scheduler.assignments[0] = Some(0);
    // an update naming a parent the model does not hold
    let mut updates = UpdateList::new();
    updates.add(999, 1, 7, false, 30_000, 10_000, -10_000);
    let packet = Packet::new(
        &String::from("worker"),
        0,
        0,
        1,
        2,
        updates,
        30_000,
        500_000,
        0,
        String::from("init"),
        false,
    );
    let verdict = sync.handle_packet(&packet, &mut scheduler);
    assert_eq!(verdict, None);
    assert_eq!(sync.model_stats.model.size(), 1);
    assert_eq!(sync.packet_stats.num_accept, 0);
}

#[test]
fn test_ess_floor_is_inclusive() {
    // a packet exactly at the floor is not a small-sample packet
    let model_sig = String::from("A");
    let p = packet_for_taxonomy(6, 100_000, false, 3);
    assert_eq!(
        p.get_packet_type(Some(3), 6, &model_sig, 100_000),
        PacketType::AcceptNonroot
    );
}
