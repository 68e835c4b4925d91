//! The head's scheduler: which tree node each worker extends.
//!
//! Keeps one optional node assignment per machine and a failure count per
//! node. Machines without an assignment get one on `update`: the new-tree
//! slot (node 0) while new trees are wanted, otherwise the first extendable
//! leaf in round-robin order. Nodes that failed too often are passed over
//! until gamma shrinks and the counts reset.

use vstd::prelude::*;
use vstd::pervasive::VecAdditionalExecFns;
use crate::model_sync::ModelStats;
use crate::packet::Packet;
use crate::tree::MAX_MODEL_SIZE;

verus! {

/// Per-machine assignments and per-node failure bookkeeping.
pub struct Scheduler {
    /// Number of worker machines.
    pub num_machines: usize,
    /// The node each machine is assigned to extend, if any.
    pub assignments: Vec<Option<usize>>,
    /// Accumulated failure weight per node.
    pub failure_count: Vec<u64>,
    /// Round-robin cursor over the nodes.
    pub next_node: usize,
    /// While fewer nodes than this are open, new trees are preferred.
    pub min_grid_size: usize,
    /// A node with at least this failure weight is passed over.
    pub failure_threshold: u64,
}

impl Scheduler {
    pub open spec fn wf(self) -> bool {
        &&& self.assignments@.len() == self.num_machines
        &&& self.failure_count@.len() <= MAX_MODEL_SIZE
        &&& self.failure_threshold >= 1
    }

    /// A fresh scheduler with no assignments and no failures.
    pub fn new(num_machines: usize, min_grid_size: usize, failure_threshold: u64) -> (r: Scheduler)
        requires
            failure_threshold >= 1,
        ensures
            r.wf(),
            r.num_machines == num_machines,
            r.min_grid_size == min_grid_size,
            r.failure_threshold == failure_threshold,
            r.assignments@.len() == num_machines,
            forall|m: int| 0 <= m < num_machines
                ==> #[trigger] r.assignments@[m] is None,
            r.failure_count@.len() == 0,
    {
        let mut assignments: Vec<Option<usize>> = Vec::new();
        while assignments.len() < num_machines
            invariant
                assignments@.len() <= num_machines,
                forall|m: int| 0 <= m < assignments@.len()
                    ==> #[trigger] assignments@[m] is None,
            decreases num_machines - assignments@.len(),
        {
            assignments.push(None);
        }
        Scheduler {
            num_machines,
            assignments,
            failure_count: Vec::new(),
            next_node: 0,
            min_grid_size,
            failure_threshold,
        }
    }

    /// The node the head believes this machine is working on.
    pub fn assignment(&self, machine_id: usize) -> (r: Option<usize>)
        ensures
            r == (if machine_id < self.assignments@.len() {
                self.assignments@[machine_id as int]
            } else {
                Option::<usize>::None
            }),
    {
        if machine_id < self.assignments.len() {
            self.assignments[machine_id]
        } else {
            None
        }
    }

    /// Make room in the failure table for freshly created nodes.
    pub fn append_new_nodes(&mut self, n: usize)
        requires
            old(self).wf(),
        ensures
            final(self).wf(),
            final(self).failure_count@.len() == (if old(self).failure_count@.len() + n <= MAX_MODEL_SIZE {
                old(self).failure_count@.len() + n
            } else {
                MAX_MODEL_SIZE as int
            }),
            forall|i: int| 0 <= i < old(self).failure_count@.len()
                ==> #[trigger] final(self).failure_count@[i] == old(self).failure_count@[i],
            forall|i: int| old(self).failure_count@.len() <= i < final(self).failure_count@.len()
                ==> #[trigger] final(self).failure_count@[i] == 0,
            final(self).assignments@ == old(self).assignments@,
            final(self).num_machines == old(self).num_machines,
            final(self).min_grid_size == old(self).min_grid_size,
            final(self).failure_threshold == old(self).failure_threshold,
    {
        let mut k: usize = 0;
        while k < n && self.failure_count.len() < MAX_MODEL_SIZE
            invariant
                k <= n,
                self.wf(),
                self.failure_count@.len() == (if old(self).failure_count@.len() + k <= MAX_MODEL_SIZE {
                    old(self).failure_count@.len() + k
                } else {
                    MAX_MODEL_SIZE as int
                }),
                self.failure_count@.len() < MAX_MODEL_SIZE ==> self.failure_count@.len() == old(self).failure_count@.len() + k,
                forall|i: int| 0 <= i < old(self).failure_count@.len()
                    ==> #[trigger] self.failure_count@[i] == old(self).failure_count@[i],
                forall|i: int| old(self).failure_count@.len() <= i < self.failure_count@.len()
                    ==> #[trigger] self.failure_count@[i] == 0,
                self.assignments@ == old(self).assignments@,
                self.num_machines == old(self).num_machines,
                self.min_grid_size == old(self).min_grid_size,
                self.failure_threshold == old(self).failure_threshold,
            decreases n - k,
        {
            self.failure_count.push(0);
            k = k + 1;
        }
    }

    /// Record a fallback on the packet's node: its failure count grows by
    /// the worker's node-count weighting and the sender loses its
    /// assignment, to be reassigned on the next scheduling tick.
    pub fn handle_failure(&mut self, packet: &Packet, node_count: u32)
        requires
            old(self).wf(),
        ensures
            final(self).wf(),
            final(self).failure_count@.len() == old(self).failure_count@.len(),
            packet.node_id < old(self).failure_count@.len()
                ==> final(self).failure_count@[packet.node_id as int]
                    == sat_add(old(self).failure_count@[packet.node_id as int], node_count as u64),
            forall|i: int| 0 <= i < old(self).failure_count@.len() && i != packet.node_id
                ==> #[trigger] final(self).failure_count@[i] == old(self).failure_count@[i],
            final(self).assignments@.len() == old(self).assignments@.len(),
            packet.source_machine_id < old(self).assignments@.len()
                ==> final(self).assignments@[packet.source_machine_id as int] is None,
            forall|m: int| 0 <= m < old(self).assignments@.len() && m != packet.source_machine_id
                ==> #[trigger] final(self).assignments@[m] == old(self).assignments@[m],
            final(self).num_machines == old(self).num_machines,
            final(self).min_grid_size == old(self).min_grid_size,
            final(self).failure_threshold == old(self).failure_threshold,
    {
        let weight: u64 = node_count as u64;
        if packet.node_id < self.failure_count.len() {
            let c = self.failure_count[packet.node_id];
            let grown = if c <= u64::MAX - weight {
                c + weight
            } else {
                u64::MAX
            };
            self.failure_count.set(packet.node_id, grown);
        }
        if packet.source_machine_id < self.assignments.len() {
            self.assignments.set(packet.source_machine_id, None);
        }
    }

    /// Record an accepted packet: the node's failure count resets, the
    /// sender loses its assignment, and the caller learns whether the node
    /// can take no more children (the root once it carries the full tree
    /// count, any other node as soon as it has split).
    pub fn handle_success(&mut self, packet: &Packet, model_stats: &ModelStats, _node_count: u32)
        -> (exhausted: bool)
        requires
            old(self).wf(),
        ensures
            final(self).wf(),
            final(self).failure_count@.len() == old(self).failure_count@.len(),
            packet.node_id < old(self).failure_count@.len()
                ==> final(self).failure_count@[packet.node_id as int] == 0,
            forall|i: int| 0 <= i < old(self).failure_count@.len() && i != packet.node_id
                ==> #[trigger] final(self).failure_count@[i] == old(self).failure_count@[i],
            final(self).assignments@.len() == old(self).assignments@.len(),
            packet.source_machine_id < old(self).assignments@.len()
                ==> final(self).assignments@[packet.source_machine_id as int] is None,
            forall|m: int| 0 <= m < old(self).assignments@.len() && m != packet.source_machine_id
                ==> #[trigger] final(self).assignments@[m] == old(self).assignments@[m],
            final(self).num_machines == old(self).num_machines,
            final(self).min_grid_size == old(self).min_grid_size,
            final(self).failure_threshold == old(self).failure_threshold,
            exhausted == (if packet.node_id < model_stats.model.nodes@.len() {
                if packet.node_id == 0 {
                    model_stats.model.nodes@[0].children@.len() >= model_stats.max_num_trees
                } else {
                    true
                }
            } else {
                false
            }),
    {
        if packet.node_id < self.failure_count.len() {
            self.failure_count.set(packet.node_id, 0);
        }
        if packet.source_machine_id < self.assignments.len() {
            self.assignments.set(packet.source_machine_id, None);
        }
        if packet.node_id < model_stats.model.size() {
            if packet.node_id == 0 {
                model_stats.model.nodes[0].children.len() >= model_stats.max_num_trees
            } else {
                true
            }
        } else {
            false
        }
    }

    /// Forget all failures (called when gamma shrinks).
    pub fn reset_failures(&mut self)
        requires
            old(self).wf(),
        ensures
            final(self).wf(),
            final(self).failure_count@.len() == old(self).failure_count@.len(),
            forall|i: int| 0 <= i < final(self).failure_count@.len()
                ==> #[trigger] final(self).failure_count@[i] == 0,
            final(self).assignments@ == old(self).assignments@,
            final(self).num_machines == old(self).num_machines,
            final(self).min_grid_size == old(self).min_grid_size,
            final(self).failure_threshold == old(self).failure_threshold,
    {
        let mut i: usize = 0;
        while i < self.failure_count.len()
            invariant
                i <= self.failure_count@.len(),
                self.failure_count@.len() == old(self).failure_count@.len(),
                forall|j: int| 0 <= j < i ==> #[trigger] self.failure_count@[j] == 0,
                self.assignments@ == old(self).assignments@,
                self.num_machines == old(self).num_machines,
                self.min_grid_size == old(self).min_grid_size,
                self.failure_threshold == old(self).failure_threshold,
            decreases self.failure_count@.len() - i,
        {
            self.failure_count.set(i, 0);
            i = i + 1;
        }
    }

    /// Whether a node may be handed to a worker: an extendable leaf (or the
    /// root with room for more trees) that has not failed too often.
    pub open spec fn spec_node_open(self, model_stats: ModelStats, i: int) -> bool {
        &&& 0 <= i < model_stats.model.nodes@.len()
        &&& (if i < self.failure_count@.len() {
            self.failure_count@[i]
        } else {
            0u64
        }) < self.failure_threshold
        &&& (if i == 0 {
            model_stats.max_depth > 0
                && model_stats.model.nodes@[0].children@.len() < model_stats.max_num_trees
        } else {
            model_stats.model.nodes@[i].is_leaf
                && model_stats.model.nodes@[i].depth < model_stats.max_depth
        })
    }

    fn node_open(&self, model_stats: &ModelStats, node_id: usize) -> (r: bool)
        requires
            model_stats.model.wf(),
        ensures
            r == self.spec_node_open(*model_stats, node_id as int),
    {
        if node_id >= model_stats.model.size() {
            return false;
        }
        let failures: u64 = if node_id < self.failure_count.len() {
            self.failure_count[node_id]
        } else {
            0
        };
        if failures >= self.failure_threshold {
            return false;
        }
        let n = &model_stats.model.nodes[node_id];
        if node_id == 0 {
            model_stats.max_depth > 0 && n.children.len() < model_stats.max_num_trees
        } else {
            n.is_leaf && n.depth < model_stats.max_depth
        }
    }

    /// Assign a node to every idle machine: the new-tree slot while new
    /// trees are wanted and the grid is small, otherwise the next open node
    /// in round-robin order. Returns how many assignments changed.
    pub fn update(&mut self, model_stats: &ModelStats) -> (changed: usize)
        requires
            old(self).wf(),
            model_stats.model.wf(),
            model_stats.model.nodes@.len() >= 1,
        ensures
            final(self).wf(),
            final(self).assignments@.len() == old(self).assignments@.len(),
            final(self).failure_count@ == old(self).failure_count@,
            final(self).num_machines == old(self).num_machines,
            final(self).min_grid_size == old(self).min_grid_size,
            final(self).failure_threshold == old(self).failure_threshold,
            changed <= final(self).num_machines,
            forall|m: int| 0 <= m < old(self).assignments@.len()
                && old(self).assignments@[m] is Some
                ==> #[trigger] final(self).assignments@[m] == old(self).assignments@[m],
            forall|m: int| 0 <= m < final(self).assignments@.len()
                && final(self).assignments@[m] is Some
                && !(old(self).assignments@[m] is Some)
                ==> #[trigger] final(self).assignments@[m].unwrap()
                    < model_stats.model.nodes@.len(),
            forall|m: int| 0 <= m < old(self).assignments@.len()
                && !(old(self).assignments@[m] is Some)
                && !(#[trigger] final(self).assignments@[m] is Some)
                ==> final(self).assignments@[m] == old(self).assignments@[m],
            // an idle machine is assigned exactly when some node is open
            forall|m: int| 0 <= m < old(self).assignments@.len()
                && !(old(self).assignments@[m] is Some)
                ==> ((#[trigger] final(self).assignments@[m] is Some)
                    == exists|i: int| old(self).spec_node_open(*model_stats, i)),
    {
        let ghost pre: Scheduler = *old(self);
        let mut changed: usize = 0;
        let mut m: usize = 0;
        let model_len = model_stats.model.size();
        while m < self.assignments.len()
            invariant
                self.wf(),
                model_stats.model.wf(),
                model_stats.model.nodes@.len() >= 1,
                model_len == model_stats.model.nodes@.len(),
                m <= self.assignments@.len(),
                self.assignments@.len() == pre.assignments@.len(),
                self.failure_count@ == pre.failure_count@,
                self.num_machines == pre.num_machines,
                self.min_grid_size == pre.min_grid_size,
                self.failure_threshold == pre.failure_threshold,
                changed <= m,
                forall|j: int| 0 <= j < pre.assignments@.len()
                    && pre.assignments@[j] is Some
                    ==> #[trigger] self.assignments@[j] == pre.assignments@[j],
                forall|j: int| 0 <= j < self.assignments@.len()
                    && self.assignments@[j] is Some
                    && !(pre.assignments@[j] is Some)
                    ==> #[trigger] self.assignments@[j].unwrap() < model_stats.model.nodes@.len(),
                forall|j: int| 0 <= j < pre.assignments@.len()
                    && pre.assignments@[j] is Some
                    ==> #[trigger] self.assignments@[j].unwrap() == pre.assignments@[j].unwrap()
                        || !(pre.assignments@[j] is Some),
                forall|j: int| 0 <= j < pre.assignments@.len()
                    && !(pre.assignments@[j] is Some)
                    && !(#[trigger] self.assignments@[j] is Some)
                    ==> self.assignments@[j] == pre.assignments@[j],
                forall|j: int| m <= j < self.assignments@.len()
                    ==> #[trigger] self.assignments@[j] == pre.assignments@[j],
                forall|j: int| 0 <= j < m
                    && !(pre.assignments@[j] is Some)
                    ==> ((#[trigger] self.assignments@[j] is Some)
                        == exists|i: int| pre.spec_node_open(*model_stats, i)),
            decreases self.assignments@.len() - m,
        {
            if self.assignments[m].is_none() {
                let prefer_root = model_stats.avail_new_tree > 0
                    && model_stats.avail_nodes < self.min_grid_size;
                let picked: Option<usize> = if prefer_root && self.node_open(model_stats, 0) {
                    Some(0)
                } else {
                    self.find_open_node(model_stats)
                };
                match picked {
                    Some(node) => {
                        proof {
                            assert(self.spec_node_open(*model_stats, node as int));
                            assert(pre.spec_node_open(*model_stats, node as int));
                        }
                        self.assignments.set(m, Some(node));
                        changed = changed + 1;
                    },
                    None => {
                        proof {
                            assert(!(exists|i: int| self.spec_node_open(*model_stats, i)));
                            assert forall|i: int| !pre.spec_node_open(*model_stats, i) by {
                                assert(!self.spec_node_open(*model_stats, i));
                            }
                        }
                    },
                }
            }
            m = m + 1;
        }
        changed
    }

    /// The next open node at or after the round-robin cursor, scanning the
    /// whole model once.
    fn find_open_node(&mut self, model_stats: &ModelStats) -> (r: Option<usize>)
        requires
            old(self).wf(),
            model_stats.model.wf(),
            model_stats.model.nodes@.len() >= 1,
        ensures
            final(self).wf(),
            final(self).assignments@ == old(self).assignments@,
            final(self).failure_count@ == old(self).failure_count@,
            final(self).num_machines == old(self).num_machines,
            final(self).min_grid_size == old(self).min_grid_size,
            final(self).failure_threshold == old(self).failure_threshold,
            r is Some ==> final(self).spec_node_open(*model_stats, r.unwrap() as int),
            r is None ==> !(exists|i: int| final(self).spec_node_open(*model_stats, i)),
    {
        let len = model_stats.model.size();
        let mut k: usize = 0;
        let start = if self.next_node < len {
            self.next_node
        } else {
            0
        };
        while k < len
            invariant
                self.wf(),
                model_stats.model.wf(),
                len == model_stats.model.nodes@.len(),
                len >= 1,
                start < len,
                k <= len,
                self.assignments@ == old(self).assignments@,
                self.failure_count@ == old(self).failure_count@,
                self.num_machines == old(self).num_machines,
                self.min_grid_size == old(self).min_grid_size,
                self.failure_threshold == old(self).failure_threshold,
                forall|j: int| 0 <= j < k
                    ==> !self.spec_node_open(*model_stats, #[trigger] spec_wrap(start as int, j, len as int)),
            decreases len - k,
        {
            let idx = if start + k < len {
                start + k
            } else {
                start + k - len
            };
            proof {
                assert(idx as int == spec_wrap(start as int, k as int, len as int));
            }
            if self.node_open(model_stats, idx) {
                self.next_node = if idx + 1 < len {
                    idx + 1
                } else {
                    0
                };
                return Some(idx);
            }
            k = k + 1;
        }
        proof {
            assert forall|i: int| 0 <= i < len implies
                !self.spec_node_open(*model_stats, i) by {
                if i >= start {
                    assert(spec_wrap(start as int, i - start, len as int) == i);
                } else {
                    assert(spec_wrap(start as int, i + len - start, len as int) == i);
                }
            }
            assert forall|i: int| !self.spec_node_open(*model_stats, i) by {
                if 0 <= i < len {
                    assert(!self.spec_node_open(*model_stats, i));
                }
            }
        }
        None
    }
}

/// The node index reached `j` steps after `start` in a round-robin walk
/// over `len` nodes.
pub open spec fn spec_wrap(start: int, j: int, len: int) -> int {
    if start + j < len {
        start + j
    } else {
        start + j - len
    }
}

/// Saturating add on failure weights.
pub open spec fn sat_add(a: u64, b: u64) -> u64 {
    if a + b <= u64::MAX {
        (a + b) as u64
    } else {
        u64::MAX
    }
}

} // verus!
