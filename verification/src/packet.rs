//! Worker-to-head packets and the head's packet taxonomy.
//!
//! A worker reports the outcome of scanning its assigned tree node in a
//! `Packet`; the head classifies each packet against its own state before
//! acting on it. The taxonomy is a pure function of the packet and of the
//! head state it is judged against: stale work is rejected, thin samples are
//! ignored, and only the remaining packets extend the model or count as
//! failures.

use vstd::prelude::*;
use vstd::string::StringExecFns;
use crate::digits::dec_string;
use crate::digits::spec_dec;
use crate::tree::UpdateList;

verus! {

/// The head's verdict on one packet.
#[derive(Debug, PartialEq, Eq, Structural, Clone, Copy)]
pub enum PacketType {
    /// The packet was computed on an outdated sample version.
    RejectSample,
    /// The packet was computed on an outdated model.
    RejectBaseModel,
    /// The worker worked on a node the head had not assigned to it.
    AssignMismatch,
    /// The worker's effective sample size is below the floor.
    SmallEffSize,
    /// The worker gave up on starting a new tree under the current edge target.
    EmptyRoot,
    /// The worker gave up on its non-root node under the current edge target.
    EmptyNonroot,
    /// A new tree root is accepted.
    AcceptRoot,
    /// A non-root extension is accepted.
    AcceptNonroot,
}

/// One report from a worker.
pub struct Packet {
    /// Unique tag of this packet, derived from the sender and a counter.
    pub packet_signature: String,
    /// Name of the sending machine.
    pub source_machine: String,
    /// Index of the sending machine.
    pub source_machine_id: usize,
    /// The tree node the worker believed it was assigned.
    pub node_id: usize,
    /// The node extensions found; empty for a fallback packet.
    pub updates: UpdateList,
    /// The edge target (fixed point) the worker searched under.
    pub gamma: u64,
    /// The sample version the worker's buffer was drawn from.
    pub sample_version: usize,
    /// The effective sample size (fixed point) of the worker's buffer.
    pub ess: u64,
    /// Signature of the model the update was computed against.
    pub base_model_signature: String,
    /// Signature tag of the sender's resulting local model.
    pub this_model_signature: String,
    /// Set when the worker found no candidate within its trial budget.
    pub fallback: bool,
}

/// The packet taxonomy: the verdict is a pure function of the packet fields
/// and of the head state `(assignment, current sample version, model
/// signature, ESS floor)` it is judged against.
pub open spec fn spec_packet_type(
    p: Packet,
    assignment: Option<usize>,
    current_sample_version: int,
    model_sig: Seq<char>,
    min_ess: int,
) -> PacketType {
    if p.sample_version != current_sample_version {
        PacketType::RejectSample
    } else if p.base_model_signature@ != model_sig {
        PacketType::RejectBaseModel
    } else if assignment != Some(p.node_id) {
        PacketType::AssignMismatch
    } else if p.ess < min_ess {
        PacketType::SmallEffSize
    } else if p.fallback && p.node_id == 0 {
        PacketType::EmptyRoot
    } else if p.fallback {
        PacketType::EmptyNonroot
    } else if p.node_id == 0 {
        PacketType::AcceptRoot
    } else {
        PacketType::AcceptNonroot
    }
}

impl Packet {
    /// Build a packet. The model signature tag of the sender is
    /// `<machine name>_<model size>`, and the packet signature extends it
    /// with the sender's packet counter.
    pub fn new(
        machine_name: &String,
        machine_id: usize,
        node_id: usize,
        packet_counter: usize,
        final_model_size: usize,
        updates: UpdateList,
        gamma: u64,
        ess: u64,
        sample_version: usize,
        base_model_sig: String,
        fallback: bool,
    ) -> (r: Packet)
        ensures
            r.packet_signature@ == seq!['p', 'a', 'c', '_'] + machine_name@
                + seq!['_'] + spec_dec(final_model_size as nat)
                + seq!['_'] + spec_dec(packet_counter as nat),
            r.source_machine@ == machine_name@,
            r.source_machine_id == machine_id,
            r.node_id == node_id,
            r.updates == updates,
            r.gamma == gamma,
            r.ess == ess,
            r.sample_version == sample_version,
            r.base_model_signature == base_model_sig,
            r.this_model_signature@ == machine_name@ + seq!['_']
                + spec_dec(final_model_size as nat),
            r.fallback == fallback,
    {
        proof {
            reveal_strlit("pac_");
            reveal_strlit("_");
        }
        let mut this_model_sig: String = machine_name.clone();
        this_model_sig.append("_");
        let size_digits = dec_string(final_model_size as u64);
        this_model_sig.append(size_digits.as_str());
        let mut packet_sig: String = String::from_str("pac_");
        packet_sig.append(this_model_sig.as_str());
        packet_sig.append("_");
        let counter_digits = dec_string(packet_counter as u64);
        packet_sig.append(counter_digits.as_str());
        assert(packet_sig@ == seq!['p', 'a', 'c', '_'] + machine_name@
            + seq!['_'] + spec_dec(final_model_size as nat)
            + seq!['_'] + spec_dec(packet_counter as nat));
        Packet {
            packet_signature: packet_sig,
            source_machine: machine_name.clone(),
            source_machine_id: machine_id,
            node_id,
            updates,
            gamma,
            sample_version,
            ess,
            base_model_signature: base_model_sig,
            this_model_signature: this_model_sig,
            fallback,
        }
    }

    /// Classify this packet against the head state: the assignment the head
    /// holds for the sender, the head's current sample version, the head's
    /// model signature, and the effective-sample-size floor.
    pub fn get_packet_type(
        &self,
        assignment: Option<usize>,
        current_sample_version: usize,
        model_sig: &String,
        min_ess: u64,
    ) -> (r: PacketType)
        ensures
            r == spec_packet_type(
                *self,
                assignment,
                current_sample_version as int,
                model_sig@,
                min_ess as int,
            ),
    {
        if self.sample_version != current_sample_version {
            return PacketType::RejectSample;
        }
        if !self.base_model_signature.eq(model_sig) {
            return PacketType::RejectBaseModel;
        }
        let assignment_matches = match assignment {
            Some(a) => a == self.node_id,
            None => false,
        };
        if !assignment_matches {
            return PacketType::AssignMismatch;
        }
        if self.ess < min_ess {
            return PacketType::SmallEffSize;
        }
        if self.fallback {
            if self.node_id == 0 {
                PacketType::EmptyRoot
            } else {
                PacketType::EmptyNonroot
            }
        } else {
            if self.node_id == 0 {
                PacketType::AcceptRoot
            } else {
                PacketType::AcceptNonroot
            }
        }
    }
}

/// Packet determinism: the verdict depends on nothing but the packet fields
/// and the head state it is judged against, so judging the same packet
/// against the same state any number of times gives the same verdict.
pub proof fn lemma_packet_type_deterministic(
    p1: Packet,
    p2: Packet,
    assignment: Option<usize>,
    current_sample_version: int,
    model_sig: Seq<char>,
    min_ess: int,
)
    requires
        p1.sample_version == p2.sample_version,
        p1.base_model_signature@ == p2.base_model_signature@,
        p1.node_id == p2.node_id,
        p1.ess == p2.ess,
        p1.fallback == p2.fallback,
    ensures
        spec_packet_type(p1, assignment, current_sample_version, model_sig, min_ess)
            == spec_packet_type(p2, assignment, current_sample_version, model_sig, min_ess),
{
}

} // verus!
