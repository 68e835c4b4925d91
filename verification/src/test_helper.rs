//! Helpers for exercising the trainer: synthetic examples, random example
//! batches, and mock packets.

use vstd::prelude::*;
use vstd::string::StringExecFns;
use crate::data::ExampleWithScore;
use crate::data::LabeledData;
use crate::fixed::SCALE;
use crate::packet::Packet;
use crate::tree::UpdateList;

verus! {

/// Relies on `rand::random`: a uniformly distributed byte from the
/// thread-local generator. Nothing can be promised of the value.
#[verifier::external_body]
fn random_byte() -> u8 {
    rand::random::<u8>()
}

/// One example with the given features, label and sampler score.
pub fn get_synthetic_example(features: Vec<u8>, label: i8, score: i64) -> (r: ExampleWithScore)
    ensures
        r.example.features == features,
        r.example.label == label,
        r.score == score,
        r.model_len == 0,
{
    ExampleWithScore {
        example: LabeledData::new(features, label),
        score,
        model_len: 0,
    }
}

/// `n` examples with random feature bytes, zero labels and zero scores.
pub fn get_n_random_examples(n: usize, num_features: usize) -> (r: Vec<ExampleWithScore>)
    ensures
        r@.len() == n,
        forall|i: int| 0 <= i < r@.len() ==> {
            &&& (#[trigger] r@[i]).example.features@.len() == num_features
            &&& r@[i].example.label == 0
            &&& r@[i].score == 0
            &&& r@[i].model_len == 0
        },
{
    let mut r: Vec<ExampleWithScore> = Vec::new();
    while r.len() < n
        invariant
            r@.len() <= n,
            forall|i: int| 0 <= i < r@.len() ==> {
                &&& (#[trigger] r@[i]).example.features@.len() == num_features
                &&& r@[i].example.label == 0
                &&& r@[i].score == 0
                &&& r@[i].model_len == 0
            },
        decreases n - r@.len(),
    {
        let mut features: Vec<u8> = Vec::new();
        while features.len() < num_features
            invariant
                features@.len() <= num_features,
            decreases num_features - features@.len(),
        {
            features.push(random_byte());
        }
        r.push(get_synthetic_example(features, 0, 0));
    }
    r
}

/// A packet as a worker would send it: `packet_size` new-tree extensions
/// with zeroed splits, half effective sample size, sample version zero.
pub fn get_mock_packet(machine_id: usize, node_id: usize, gamma: u64, packet_size: usize) -> (r: Packet)
    requires
        packet_size < usize::MAX,
    ensures
        r.source_machine_id == machine_id,
        r.node_id == node_id,
        r.gamma == gamma,
        r.updates.updates@.len() == packet_size,
        r.ess == SCALE / 2,
        r.sample_version == 0,
        r.fallback == false,
{
    let ess: u64 = SCALE / 2;
    let mut update_list = UpdateList::new();
    let mut k: usize = 0;
    while k < packet_size
        invariant
            k <= packet_size,
            update_list.updates@.len() == k,
            update_list.wf(),
        decreases packet_size - k,
    {
        update_list.add(0, 0, 0, true, 0, 0, 0);
        k = k + 1;
    }
    let machine_name = String::from_str("local_machine");
    Packet::new(
        &machine_name,
        machine_id,
        node_id,
        0,
        3,
        update_list,
        gamma,
        ess,
        0,
        String::from_str("base_model_sig"),
        false,
    )
}

/// A stand-in for the network bootstrap used when no cluster is attached:
/// accepts the configuration and reports success without opening anything.
pub fn start_network_only_recv<T>(
    _name: &str,
    _remote_ips: &Vec<String>,
    _port: u16,
    _data_remote: crossbeam_channel::Sender<T>,
) -> (r: Result<(), &'static str>)
    ensures
        r is Ok,
{
    Ok(())
}

} // verus!
