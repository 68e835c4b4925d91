//! Model synchronisation on the head node.
//!
//! The head holds the global model with its signature and capacity
//! bookkeeping (`ModelStats`), classifies every worker packet against its
//! own state, extends the model on accepted packets, counts failures,
//! shrinks the target edges, and broadcasts the new model to the workers.

use vstd::prelude::*;
use vstd::string::StringExecFns;
use crate::channel;
use crate::digits::dec_string;
use crate::digits::spec_dec;
use crate::gamma::Gamma;
use crate::gamma::PacketStats;
use crate::gamma::sat_inc;
use crate::gamma::sat_inc_usize;
use crate::gamma::shrunk;
use crate::scheduler::sat_add;
use crate::packet::Packet;
use crate::packet::PacketType;
use crate::packet::spec_packet_type;
use crate::scheduler::Scheduler;
use crate::tree::MAX_MODEL_SIZE;
use crate::tree::Model;
use crate::tree::TreeNode;
use crate::tree::UpdateList;

verus! {

/// Number of head loop turns `run_with_network` will take before returning.
pub const HEAD_LOOP_FUEL: u64 = 1_000_000_000;

/// Count of the nodes among `nodes[1..upto)` that are leaves at depth one:
/// the roots of trees that can still grow.
pub open spec fn spec_count_new_tree(nodes: Seq<TreeNode>, upto: int) -> int
    decreases upto,
{
    if upto <= 1 {
        0
    } else {
        spec_count_new_tree(nodes, upto - 1)
            + (if nodes[upto - 1].is_leaf && nodes[upto - 1].depth == 1 { 1int } else { 0 })
    }
}

/// Count of the nodes among `nodes[1..upto)` that are leaves above the
/// depth cap: the nodes that can still be extended.
pub open spec fn spec_count_avail(nodes: Seq<TreeNode>, max_depth: int, upto: int) -> int
    decreases upto,
{
    if upto <= 1 {
        0
    } else {
        spec_count_avail(nodes, max_depth, upto - 1)
            + (if nodes[upto - 1].is_leaf && (nodes[upto - 1].depth as int) < max_depth { 1int } else { 0 })
    }
}

/// Count of the nodes among `nodes[from..upto)` at depth one: freshly
/// appended tree roots.
pub open spec fn spec_count_depth_one(nodes: Seq<TreeNode>, from: int, upto: int) -> int
    decreases upto - from,
{
    if upto <= from {
        0
    } else {
        spec_count_depth_one(nodes, from, upto - 1)
            + (if nodes[upto - 1].depth == 1 { 1int } else { 0 })
    }
}

/// Saturating add on a capacity counter.
pub open spec fn sat_add_usize(a: usize, b: int) -> int {
    if a + b <= usize::MAX {
        a + b
    } else {
        usize::MAX as int
    }
}

/// Whether an update list can be applied to a model: well-formed entries,
/// parents in range, and room for the new nodes.
pub open spec fn spec_patch_fits(model: Model, patch: UpdateList) -> bool {
    &&& patch.wf()
    &&& patch.applicable_at(model.nodes@.len() as int)
    &&& model.nodes@.len() + patch.updates@.len() <= MAX_MODEL_SIZE
}

/// Whether a node can take no more children after this success: the root
/// once it carries the full tree count, any other node as soon as it has
/// split.
pub open spec fn spec_exhausted(model: Model, node_id: int, max_num_trees: int) -> bool {
    if 0 <= node_id < model.nodes@.len() {
        if node_id == 0 {
            model.nodes@[0].children@.len() >= max_num_trees
        } else {
            true
        }
    } else {
        false
    }
}

/// The global model with its signature and capacity bookkeeping.
pub struct ModelStats {
    /// The model itself.
    pub model: Model,
    /// Signature of the current model version.
    pub model_sig: String,
    /// How many nodes can still be extended.
    pub avail_nodes: usize,
    /// How many tree roots can still grow.
    pub avail_new_tree: usize,
    /// Cap on the number of trees under the synthetic root.
    pub max_num_trees: usize,
    /// Cap on node depth.
    pub max_depth: usize,
}

impl ModelStats {
    pub open spec fn wf(self) -> bool {
        &&& self.model.wf()
        &&& self.model.nodes@.len() >= 1
    }

    /// Take over a model, counting its open capacity: the root counts while
    /// it has room for more trees, every other leaf counts while it is
    /// above the depth cap, and each leaf at depth one is a growable tree.
    pub fn new(model: Model, max_num_trees: usize, max_depth: usize) -> (r: ModelStats)
        requires
            model.wf(),
            model.nodes@.len() >= 1,
        ensures
            r.wf(),
            r.model == model,
            r.max_num_trees == max_num_trees,
            r.max_depth == max_depth,
            r.model_sig@ == seq!['i', 'n', 'i', 't'],
            r.avail_new_tree == spec_count_new_tree(model.nodes@, model.nodes@.len() as int),
            r.avail_nodes == spec_count_avail(model.nodes@, max_depth as int, model.nodes@.len() as int)
                + (if max_depth > 0 && model.nodes@[0].children@.len() < max_num_trees { 1int } else { 0 }),
    {
        let mut avail_nodes: usize = 0;
        let mut avail_new_tree: usize = 0;
        if max_depth > 0 && model.nodes[0].children.len() < max_num_trees {
            avail_nodes = 1;
        }
        let ghost root_share: int = avail_nodes as int;
        let mut i: usize = 1;
        while i < model.nodes.len()
            invariant
                model.wf(),
                model.nodes@.len() >= 1,
                1 <= i <= model.nodes@.len(),
                avail_new_tree == spec_count_new_tree(model.nodes@, i as int),
                avail_nodes == spec_count_avail(model.nodes@, max_depth as int, i as int) + root_share,
                avail_new_tree <= i,
                avail_nodes <= i,
                root_share == (if max_depth > 0 && model.nodes@[0].children@.len() < max_num_trees { 1int } else { 0 }),
            decreases model.nodes@.len() - i,
        {
            let n = &model.nodes[i];
            if n.is_leaf && n.depth == 1 {
                avail_new_tree = avail_new_tree + 1;
            }
            if n.is_leaf && n.depth < max_depth {
                avail_nodes = avail_nodes + 1;
            }
            proof {
                assert(spec_count_new_tree(model.nodes@, i + 1) == spec_count_new_tree(model.nodes@, i as int)
                    + (if model.nodes@[i as int].is_leaf && model.nodes@[i as int].depth == 1 { 1int } else { 0 }));
                assert(spec_count_new_tree(model.nodes@, i as int) <= i) by {
                    lemma_count_bounds(model.nodes@, max_depth as int, i as int);
                };
                assert(spec_count_avail(model.nodes@, max_depth as int, i as int) <= i) by {
                    lemma_count_bounds(model.nodes@, max_depth as int, i as int);
                };
            }
            i = i + 1;
        }
        proof {
            reveal_strlit("init");
        }
        ModelStats {
            model,
            model_sig: String::from_str("init"),
            avail_nodes,
            avail_new_tree,
            max_num_trees,
            max_depth,
        }
    }

    /// Apply an accepted update list to the model and grow the capacity
    /// counters by the created nodes. Returns how many nodes were created.
    pub fn update(&mut self, patch: &UpdateList) -> (num_new: usize)
        requires
            old(self).wf(),
            patch.wf(),
            patch.applicable_at(old(self).model.nodes@.len() as int),
            old(self).model.nodes@.len() + patch.updates@.len() <= MAX_MODEL_SIZE,
        ensures
            final(self).wf(),
            num_new == patch.updates@.len(),
            old(self).model.prefix_of(final(self).model),
            final(self).model.nodes@.len() == old(self).model.nodes@.len() + patch.updates@.len(),
            final(self).model_sig == old(self).model_sig,
            final(self).max_num_trees == old(self).max_num_trees,
            final(self).max_depth == old(self).max_depth,
            forall|k: int| 0 <= k < patch.updates@.len() ==> {
                let e = #[trigger] patch.updates@[k];
                let n = final(self).model.nodes@[old(self).model.nodes@.len() + k];
                &&& n.feature == e.split_feature
                &&& n.threshold == e.threshold
                &&& n.pred_left == e.left_prediction
                &&& n.pred_right == e.right_prediction
                &&& n.parent == (if e.is_new_tree_root { Option::<usize>::None } else { Option::Some(e.parent_node_id) })
                &&& (e.is_new_tree_root ==> n.depth == 1)
                &&& (!e.is_new_tree_root ==> n.depth
                    == final(self).model.nodes@[e.parent_node_id as int].depth + 1)
            },
            final(self).avail_nodes
                == sat_add_usize(old(self).avail_nodes, patch.updates@.len() as int),
            final(self).avail_new_tree == sat_add_usize(
                old(self).avail_new_tree,
                spec_count_depth_one(
                    final(self).model.nodes@,
                    old(self).model.nodes@.len() as int,
                    final(self).model.nodes@.len() as int,
                ),
            ),
    {
        let ghost old_len: int = self.model.nodes@.len() as int;
        let new_depths = self.model.append_patch(patch);
        proof {
            assert forall|j: int| 0 <= j < new_depths@.len() implies
                #[trigger] new_depths@[j] == self.model.nodes@[old_len + j].depth by {
                let e = patch.updates@[j];
                assert(self.model.nodes@[old_len + j].depth == new_depths@[j]);
            }
        }
        let num_new = new_depths.len();
        let mut k: usize = 0;
        let mut new_trees: usize = 0;
        while k < new_depths.len()
            invariant
                k <= new_depths@.len(),
                new_depths@.len() == patch.updates@.len(),
                old_len + new_depths@.len() == self.model.nodes@.len(),
                forall|j: int| 0 <= j < new_depths@.len()
                    ==> #[trigger] new_depths@[j] == self.model.nodes@[old_len + j].depth,
                new_trees == spec_count_depth_one(self.model.nodes@, old_len, old_len + k),
                new_trees <= k,
            decreases new_depths@.len() - k,
        {
            if new_depths[k] == 1 {
                new_trees = new_trees + 1;
            }
            k = k + 1;
        }
        self.avail_nodes = if self.avail_nodes <= usize::MAX - num_new {
            self.avail_nodes + num_new
        } else {
            usize::MAX
        };
        self.avail_new_tree = if self.avail_new_tree <= usize::MAX - new_trees {
            self.avail_new_tree + new_trees
        } else {
            usize::MAX
        };
        num_new
    }

    /// Adopt a freshly derived signature.
    pub fn update_signature(&mut self, new_signature: &String)
        ensures
            final(self).model_sig@ == new_signature@,
            final(self).model == old(self).model,
            final(self).avail_nodes == old(self).avail_nodes,
            final(self).avail_new_tree == old(self).avail_new_tree,
            final(self).max_num_trees == old(self).max_num_trees,
            final(self).max_depth == old(self).max_depth,
    {
        self.model_sig = new_signature.clone();
    }
}

/// Capacity counts never exceed the number of nodes counted.
proof fn lemma_count_bounds(nodes: Seq<TreeNode>, max_depth: int, upto: int)
    ensures
        0 <= spec_count_new_tree(nodes, upto) <= (if upto >= 1 { upto - 1 } else { 0 }),
        0 <= spec_count_avail(nodes, max_depth, upto) <= (if upto >= 1 { upto - 1 } else { 0 }),
    decreases upto,
{
    if upto > 1 {
        lemma_count_bounds(nodes, max_depth, upto - 1);
    }
}

/// The head's model-sync component.
pub struct ModelSync {
    /// The model, its signature and capacity counters.
    pub model_stats: ModelStats,
    /// Stop once the model holds this many nodes (0: run on).
    pub num_iterations: usize,
    /// Name of the experiment, carried to persisted artifacts.
    pub exp_name: String,
    /// The target edges.
    pub gamma: Gamma,
    /// The shared run flag: cleared when training must stop.
    pub sampler_state: bool,
    /// Broadcast channel carrying `(model, signature)` to sampler and workers.
    pub next_model_sender: crossbeam_channel::Sender<(Model, String)>,
    /// The sampler's current sample version.
    pub current_sample_version: usize,
    /// Per-node example counts reported by the sampler.
    pub node_counts: Vec<u32>,
    /// Windowed packet statistics driving gamma adjustment.
    pub packet_stats: PacketStats,
    /// The effective-sample-size floor a packet must clear.
    pub min_ess: u64,
}

impl ModelSync {
    pub open spec fn wf(self) -> bool {
        &&& self.model_stats.wf()
        &&& self.gamma.wf()
    }

    /// Assemble the head's model-sync state.
    pub fn new(
        model_stats: ModelStats,
        num_iterations: usize,
        exp_name: &String,
        gamma: Gamma,
        next_model_sender: crossbeam_channel::Sender<(Model, String)>,
        current_sample_version: usize,
        node_counts: Vec<u32>,
        num_machines: usize,
        min_ess: u64,
    ) -> (r: ModelSync)
        requires
            model_stats.wf(),
            gamma.wf(),
        ensures
            r.wf(),
            r.model_stats == model_stats,
            r.num_iterations == num_iterations,
            r.exp_name@ == exp_name@,
            r.gamma == gamma,
            r.sampler_state == true,
            r.current_sample_version == current_sample_version,
            r.node_counts == node_counts,
            r.packet_stats.num_machines == num_machines,
            r.min_ess == min_ess,
    {
        ModelSync {
            model_stats,
            num_iterations,
            exp_name: exp_name.clone(),
            gamma,
            sampler_state: true,
            next_model_sender,
            current_sample_version,
            node_counts,
            packet_stats: PacketStats::new(num_machines),
            min_ess,
        }
    }

    /// The sampler's example count for a node; zero for unknown nodes.
    pub open spec fn spec_node_count(self, node_id: int) -> u32 {
        if 0 <= node_id < self.node_counts@.len() {
            self.node_counts@[node_id]
        } else {
            0u32
        }
    }

    pub fn get_node_counts(&self, node_id: usize) -> (r: u32)
        ensures
            r == self.spec_node_count(node_id as int),
    {
        if node_id >= self.node_counts.len() {
            0
        } else {
            self.node_counts[node_id]
        }
    }

    /// Whether the head keeps training: the run flag stands, gamma is still
    /// significant, and the model has not reached the iteration cap.
    pub fn continue_training(&self) -> (r: bool)
        ensures
            r == (self.sampler_state && self.gamma.gamma >= self.gamma.min_gamma
                && (self.num_iterations == 0
                    || self.model_stats.model.nodes@.len() < self.num_iterations)),
    {
        self.sampler_state && self.gamma.is_valid()
            && (self.num_iterations == 0 || self.model_stats.model.size() < self.num_iterations)
    }

    /// Derive the `<signature>_<gamma version>` tag and broadcast the model.
    /// When the model itself changed, the new tag becomes its signature.
    pub fn broadcast_model(&mut self, is_model_updated: bool) -> (sent: bool)
        requires
            old(self).wf(),
        ensures
            final(self).wf(),
            final(self).model_stats.model == old(self).model_stats.model,
            final(self).gamma == old(self).gamma,
            final(self).packet_stats == old(self).packet_stats,
            final(self).sampler_state == old(self).sampler_state,
            final(self).current_sample_version == old(self).current_sample_version,
            final(self).num_iterations == old(self).num_iterations,
            final(self).min_ess == old(self).min_ess,
            final(self).node_counts == old(self).node_counts,
            final(self).exp_name == old(self).exp_name,
            final(self).model_stats.avail_nodes == old(self).model_stats.avail_nodes,
            final(self).model_stats.avail_new_tree == old(self).model_stats.avail_new_tree,
            final(self).model_stats.max_num_trees == old(self).model_stats.max_num_trees,
            final(self).model_stats.max_depth == old(self).model_stats.max_depth,
            is_model_updated ==> final(self).model_stats.model_sig@
                == old(self).model_stats.model_sig@ + seq!['_']
                    + spec_dec(old(self).gamma.gamma_version as nat),
            !is_model_updated ==> final(self).model_stats.model_sig
                == old(self).model_stats.model_sig,
    {
        proof {
            reveal_strlit("_");
        }
        let mut tag: String = self.model_stats.model_sig.clone();
        tag.append("_");
        let version_digits = dec_string(self.gamma.gamma_version as u64);
        tag.append(version_digits.as_str());
        if is_model_updated {
            self.model_stats.update_signature(&tag);
        }
        let copy = self.model_stats.model.duplicate();
        channel::send(&self.next_model_sender, (copy, tag))
    }

    /// Whether an update list can be applied to the current model: bounded
    /// predictions, parents in range, and room for the new nodes.
    pub fn validate_patch(&self, patch: &UpdateList) -> (r: bool)
        ensures
            r == spec_patch_fits(self.model_stats.model, *patch),
    {
        let len = self.model_stats.model.size();
        if self.model_stats.model.size() > MAX_MODEL_SIZE
            || patch.updates.len() > MAX_MODEL_SIZE - len {
            return false;
        }
        let mut k: usize = 0;
        while k < patch.updates.len()
            invariant
                k <= patch.updates@.len(),
                len == self.model_stats.model.nodes@.len(),
                len <= MAX_MODEL_SIZE,
                patch.updates@.len() <= MAX_MODEL_SIZE - len,
                forall|j: int| 0 <= j < k ==> (#[trigger] patch.updates@[j]).wf(),
                forall|j: int| 0 <= j < k ==> ((#[trigger] patch.updates@[j]).is_new_tree_root
                    || patch.updates@[j].parent_node_id < len + j),
            decreases patch.updates@.len() - k,
        {
            let e = &patch.updates[k];
            if e.left_prediction > crate::tree::PRED_LIMIT
                || e.left_prediction < -crate::tree::PRED_LIMIT
                || e.right_prediction > crate::tree::PRED_LIMIT
                || e.right_prediction < -crate::tree::PRED_LIMIT {
                return false;
            }
            if !e.is_new_tree_root {
                // parent must exist when this entry is applied
                let limit = len + k;
                if e.parent_node_id >= limit {
                    return false;
                }
            }
            k = k + 1;
        }
        true
    }

    /// Handle one worker packet: classify it against the head state, then
    /// act on the verdict. Accepted packets extend the model and are
    /// broadcast; empty packets count as failures and a root fallback also
    /// shrinks the root edge; rejected packets change nothing. A packet
    /// whose update list does not fit the current model is dropped whole
    /// (`None`), with no state change.
    pub fn handle_packet(&mut self, packet: &Packet, scheduler: &mut Scheduler)
        -> (r: Option<PacketType>)
        requires
            old(self).wf(),
            old(scheduler).wf(),
        ensures
            final(self).wf(),
            final(scheduler).wf(),
            final(self).gamma.gamma == old(self).gamma.gamma,
            final(self).gamma.root_gamma <= old(self).gamma.root_gamma,
            final(self).sampler_state == old(self).sampler_state,
            final(self).current_sample_version == old(self).current_sample_version,
            final(self).num_iterations == old(self).num_iterations,
            final(self).min_ess == old(self).min_ess,
            final(self).exp_name == old(self).exp_name,
            final(self).node_counts == old(self).node_counts,
            final(self).model_stats.max_num_trees == old(self).model_stats.max_num_trees,
            final(self).model_stats.max_depth == old(self).model_stats.max_depth,
            final(self).packet_stats.num_machines == old(self).packet_stats.num_machines,
            // every packet is acted on, except an accept-class packet whose
            // update list does not fit the current model: that one is
            // dropped whole with no state change
            (r is None) <==> ({
                let verdict = spec_packet_type(
                    *packet,
                    (if packet.source_machine_id < old(scheduler).assignments@.len() {
                        old(scheduler).assignments@[packet.source_machine_id as int]
                    } else {
                        Option::<usize>::None
                    }),
                    old(self).current_sample_version as int,
                    old(self).model_stats.model_sig@,
                    old(self).min_ess as int,
                );
                &&& (verdict is AcceptRoot || verdict is AcceptNonroot)
                &&& !spec_patch_fits(old(self).model_stats.model, packet.updates)
            }),
            r is None ==> (*final(self) == *old(self) && *final(scheduler) == *old(scheduler)),
            r is Some ==> r.unwrap() == spec_packet_type(
                *packet,
                (if packet.source_machine_id < old(scheduler).assignments@.len() {
                    old(scheduler).assignments@[packet.source_machine_id as int]
                } else {
                    Option::<usize>::None
                }),
                old(self).current_sample_version as int,
                old(self).model_stats.model_sig@,
                old(self).min_ess as int,
            ),
            // the packet window counts the verdict, once
            r is Some ==> {
                let verdict = r.unwrap();
                &&& final(self).packet_stats.num_accept
                    == (if verdict is AcceptRoot || verdict is AcceptNonroot
                        { sat_inc(old(self).packet_stats.num_accept) }
                        else { old(self).packet_stats.num_accept })
                &&& final(self).packet_stats.num_empty
                    == (if verdict is EmptyRoot || verdict is EmptyNonroot
                        { sat_inc(old(self).packet_stats.num_empty) }
                        else { old(self).packet_stats.num_empty })
                &&& final(self).packet_stats.num_reject
                    == (if verdict is RejectSample || verdict is RejectBaseModel
                        { sat_inc(old(self).packet_stats.num_reject) }
                        else { old(self).packet_stats.num_reject })
                &&& final(self).packet_stats.num_ignored
                    == (if verdict is AssignMismatch || verdict is SmallEffSize
                        { sat_inc(old(self).packet_stats.num_ignored) }
                        else { old(self).packet_stats.num_ignored })
            },
            // the scheduler and capacity transitions of each verdict
            r is Some ==> match r.unwrap() {
                PacketType::AcceptRoot | PacketType::AcceptNonroot => {
                    let old_len = old(self).model_stats.model.nodes@.len() as int;
                    let new_len = final(self).model_stats.model.nodes@.len() as int;
                    let old_flen = old(scheduler).failure_count@.len() as int;
                    let new_flen = final(scheduler).failure_count@.len() as int;
                    let exhausted = spec_exhausted(
                        final(self).model_stats.model,
                        packet.node_id as int,
                        old(self).model_stats.max_num_trees as int,
                    );
                    let grown_nodes = sat_add_usize(
                        old(self).model_stats.avail_nodes,
                        packet.updates.updates@.len() as int,
                    );
                    let grown_trees = sat_add_usize(
                        old(self).model_stats.avail_new_tree,
                        spec_count_depth_one(final(self).model_stats.model.nodes@, old_len, new_len),
                    );
                    &&& old(self).model_stats.model.prefix_of(final(self).model_stats.model)
                    &&& new_len == old_len + packet.updates.updates@.len()
                    &&& forall|k: int| 0 <= k < packet.updates.updates@.len() ==> {
                        let e = #[trigger] packet.updates.updates@[k];
                        let n = final(self).model_stats.model.nodes@[old_len + k];
                        &&& n.feature == e.split_feature
                        &&& n.threshold == e.threshold
                        &&& n.pred_left == e.left_prediction
                        &&& n.pred_right == e.right_prediction
                        &&& n.parent == (if e.is_new_tree_root { Option::<usize>::None } else { Option::Some(e.parent_node_id) })
                        &&& (e.is_new_tree_root ==> n.depth == 1)
                        &&& (!e.is_new_tree_root ==> n.depth
                            == final(self).model_stats.model.nodes@[e.parent_node_id as int].depth + 1)
                    }
                    &&& final(self).model_stats.model_sig@
                        == old(self).model_stats.model_sig@ + seq!['_']
                            + spec_dec(old(self).gamma.gamma_version as nat)
                    &&& final(self).gamma == old(self).gamma
                    // capacity bookkeeping: grown by the created nodes, one
                    // slot retired when the node is exhausted
                    &&& final(self).model_stats.avail_nodes
                        == (if exhausted && grown_nodes >= 1 { grown_nodes - 1 } else { grown_nodes })
                    &&& final(self).model_stats.avail_new_tree
                        == (if exhausted && packet.node_id == 0 && grown_trees >= 1 { grown_trees - 1 } else { grown_trees })
                    // the scheduler learned of the new nodes and the success
                    &&& new_flen == (if old_flen + packet.updates.updates@.len() <= MAX_MODEL_SIZE
                        { old_flen + packet.updates.updates@.len() } else { MAX_MODEL_SIZE as int })
                    &&& (packet.node_id < new_flen ==> final(scheduler).failure_count@[packet.node_id as int] == 0)
                    &&& forall|i: int| 0 <= i < old_flen && i < new_flen && i != packet.node_id
                        ==> #[trigger] final(scheduler).failure_count@[i] == old(scheduler).failure_count@[i]
                    &&& forall|i: int| old_flen <= i < new_flen && i != packet.node_id
                        ==> #[trigger] final(scheduler).failure_count@[i] == 0
                    &&& final(scheduler).assignments@.len() == old(scheduler).assignments@.len()
                    &&& (packet.source_machine_id < old(scheduler).assignments@.len()
                        ==> final(scheduler).assignments@[packet.source_machine_id as int] is None)
                    &&& forall|m: int| 0 <= m < old(scheduler).assignments@.len() && m != packet.source_machine_id
                        ==> #[trigger] final(scheduler).assignments@[m] == old(scheduler).assignments@[m]
                    &&& final(scheduler).num_machines == old(scheduler).num_machines
                    &&& final(scheduler).min_grid_size == old(scheduler).min_grid_size
                    &&& final(scheduler).failure_threshold == old(scheduler).failure_threshold
                },
                PacketType::EmptyRoot | PacketType::EmptyNonroot => {
                    &&& final(self).model_stats.model == old(self).model_stats.model
                    &&& final(self).model_stats.model_sig == old(self).model_stats.model_sig
                    &&& final(self).model_stats.avail_nodes == old(self).model_stats.avail_nodes
                    &&& final(self).model_stats.avail_new_tree == old(self).model_stats.avail_new_tree
                    // the root edge shrinks on a root fallback and only then
                    &&& (r.unwrap() is EmptyRoot ==> {
                        &&& final(self).gamma.root_gamma == shrunk(old(self).gamma.root_gamma)
                        &&& final(self).gamma.gamma_version == sat_inc_usize(old(self).gamma.gamma_version)
                        &&& final(self).gamma.min_gamma == old(self).gamma.min_gamma
                        &&& final(self).gamma.window == old(self).gamma.window
                    })
                    &&& (r.unwrap() is EmptyNonroot ==> final(self).gamma == old(self).gamma)
                    // the node's failure weight grew by the worker's node count
                    &&& final(scheduler).failure_count@.len() == old(scheduler).failure_count@.len()
                    &&& (packet.node_id < old(scheduler).failure_count@.len()
                        ==> final(scheduler).failure_count@[packet.node_id as int] == sat_add(
                            old(scheduler).failure_count@[packet.node_id as int],
                            old(self).spec_node_count(packet.node_id as int) as u64,
                        ))
                    &&& forall|i: int| 0 <= i < old(scheduler).failure_count@.len() && i != packet.node_id
                        ==> #[trigger] final(scheduler).failure_count@[i] == old(scheduler).failure_count@[i]
                    &&& final(scheduler).assignments@.len() == old(scheduler).assignments@.len()
                    &&& (packet.source_machine_id < old(scheduler).assignments@.len()
                        ==> final(scheduler).assignments@[packet.source_machine_id as int] is None)
                    &&& forall|m: int| 0 <= m < old(scheduler).assignments@.len() && m != packet.source_machine_id
                        ==> #[trigger] final(scheduler).assignments@[m] == old(scheduler).assignments@[m]
                    &&& final(scheduler).num_machines == old(scheduler).num_machines
                    &&& final(scheduler).min_grid_size == old(scheduler).min_grid_size
                    &&& final(scheduler).failure_threshold == old(scheduler).failure_threshold
                },
                _ => {
                    &&& final(self).model_stats.model == old(self).model_stats.model
                    &&& final(self).model_stats.model_sig == old(self).model_stats.model_sig
                    &&& final(self).model_stats.avail_nodes == old(self).model_stats.avail_nodes
                    &&& final(self).model_stats.avail_new_tree == old(self).model_stats.avail_new_tree
                    &&& final(self).gamma == old(self).gamma
                    &&& *final(scheduler) == *old(scheduler)
                },
            },
    {
        let assignment = scheduler.assignment(packet.source_machine_id);
        let packet_type = packet.get_packet_type(
            assignment,
            self.current_sample_version,
            &self.model_stats.model_sig,
            self.min_ess,
        );
        let is_accept = match packet_type {
            PacketType::AcceptRoot | PacketType::AcceptNonroot => true,
            _ => false,
        };
        if is_accept && !self.validate_patch(&packet.updates) {
            return None;
        }
        self.packet_stats.handle_new_packet(packet, &packet_type);
        let node_count = self.get_node_counts(packet.node_id);
        match packet_type {
            PacketType::EmptyRoot => {
                scheduler.handle_failure(packet, node_count);
                self.gamma.decrease_root_gamma();
                self.broadcast_model(false);
            },
            PacketType::EmptyNonroot => {
                scheduler.handle_failure(packet, node_count);
            },
            PacketType::AcceptRoot | PacketType::AcceptNonroot => {
                let num_new = self.model_stats.update(&packet.updates);
                scheduler.append_new_nodes(num_new);
                let exhausted = scheduler.handle_success(packet, &self.model_stats, node_count);
                if exhausted {
                    if self.model_stats.avail_nodes >= 1 {
                        self.model_stats.avail_nodes = self.model_stats.avail_nodes - 1;
                    }
                    if packet.node_id == 0 && self.model_stats.avail_new_tree >= 1 {
                        self.model_stats.avail_new_tree = self.model_stats.avail_new_tree - 1;
                    }
                }
                self.broadcast_model(true);
            },
            PacketType::RejectSample | PacketType::RejectBaseModel
            | PacketType::AssignMismatch | PacketType::SmallEffSize => {},
        }
        Some(packet_type)
    }

    /// The head's main loop: adjust gamma from the packet window, refresh
    /// assignments, and handle one incoming packet per turn, until training
    /// is done (or the turn budget runs out). The target edge never grows
    /// over the run.
    pub fn run_with_network(&mut self, scheduler: &mut Scheduler,
        packet_receiver: &crossbeam_channel::Receiver<Packet>)
        requires
            old(self).wf(),
            old(scheduler).wf(),
        ensures
            final(self).wf(),
            final(scheduler).wf(),
            final(self).gamma.gamma <= old(self).gamma.gamma,
            final(self).gamma.root_gamma <= old(self).gamma.root_gamma,
            final(self).sampler_state == false,
    {
        let mut fuel: u64 = HEAD_LOOP_FUEL;
        while fuel > 0 && self.continue_training()
            invariant
                self.wf(),
                scheduler.wf(),
                self.gamma.gamma <= old(self).gamma.gamma,
                self.gamma.root_gamma <= old(self).gamma.root_gamma,
            decreases fuel,
        {
            if self.gamma.adjust(&self.packet_stats) {
                self.broadcast_model(false);
                self.packet_stats.reset();
                scheduler.reset_failures();
            }
            scheduler.update(&self.model_stats);
            match channel::try_recv(packet_receiver) {
                Some(packet) => {
                    self.handle_packet(&packet, scheduler);
                },
                None => {},
            }
            fuel = fuel - 1;
        }
        self.sampler_state = false;
    }

    /// Adopt the sample version the sampler has advanced to.
    pub fn set_sample_version(&mut self, version: usize)
        ensures
            final(self).current_sample_version == version,
            final(self).model_stats == old(self).model_stats,
            final(self).gamma == old(self).gamma,
    {
        self.current_sample_version = version;
    }

    /// Adopt the per-node example counts the sampler reported.
    pub fn set_node_counts(&mut self, counts: Vec<u32>)
        ensures
            final(self).node_counts == counts,
            final(self).model_stats == old(self).model_stats,
            final(self).gamma == old(self).gamma,
    {
        self.node_counts = counts;
    }
}

/// The worker-side model intake: adopt a broadcast patch only when it was
/// derived from the model we hold, then take over the broadcast signature.
/// Returns whether the model advanced.
pub fn receive_model_update(
    model: &mut Model,
    model_sig: &mut String,
    patch: &UpdateList,
    old_sig: &String,
    new_sig: &String,
) -> (r: bool)
    requires
        old(model).wf(),
        old(model).nodes@.len() >= 1,
    ensures
        final(model).wf(),
        r == (old_sig@ == old(model_sig)@
            && patch.wf()
            && patch.applicable_at(old(model).nodes@.len() as int)
            && old(model).nodes@.len() + patch.updates@.len() <= MAX_MODEL_SIZE),
        r ==> {
            &&& old(model).prefix_of(*final(model))
            &&& final(model).nodes@.len() == old(model).nodes@.len() + patch.updates@.len()
            &&& final(model_sig)@ == new_sig@
        },
        !r ==> (*final(model) == *old(model) && *final(model_sig) == *old(model_sig)),
{
    if !(&*model_sig).eq(old_sig) {
        return false;
    }
    let len = model.size();
    if model.size() > MAX_MODEL_SIZE || patch.updates.len() > MAX_MODEL_SIZE - len {
        return false;
    }
    let mut k: usize = 0;
    while k < patch.updates.len()
        invariant
            k <= patch.updates@.len(),
            *model == *old(model),
            *model_sig == *old(model_sig),
            old(model).wf(),
            old(model).nodes@.len() >= 1,
            len == model.nodes@.len(),
            len <= MAX_MODEL_SIZE,
            patch.updates@.len() <= MAX_MODEL_SIZE - len,
            forall|j: int| 0 <= j < k ==> (#[trigger] patch.updates@[j]).wf(),
            forall|j: int| 0 <= j < k ==> ((#[trigger] patch.updates@[j]).is_new_tree_root
                || patch.updates@[j].parent_node_id < len + j),
        decreases patch.updates@.len() - k,
    {
        let e = &patch.updates[k];
        if e.left_prediction > crate::tree::PRED_LIMIT
            || e.left_prediction < -crate::tree::PRED_LIMIT
            || e.right_prediction > crate::tree::PRED_LIMIT
            || e.right_prediction < -crate::tree::PRED_LIMIT {
            return false;
        }
        if !e.is_new_tree_root {
            let limit = len + k;
            if e.parent_node_id >= limit {
                return false;
            }
        }
        k = k + 1;
    }
    model.append_patch(patch);
    *model_sig = new_sig.clone();
    true
}

} // verus!
