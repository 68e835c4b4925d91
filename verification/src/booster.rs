//! The boosting worker.
//!
//! Drives one boosting iteration per loader batch: pull a batch, weigh it,
//! hand it to the weak learner, and on a candidate extend the local model,
//! publish it, refresh the buffered scores and reset the learner. A
//! fallback shrinks the local target edge; training halts when that edge
//! falls below the configured floor. Every model broadcast received from
//! the cluster replaces the local model and refreshes the buffered scores.

use vstd::prelude::*;
use crate::bins::create_bins;
use crate::buffer_loader::BufferLoader;
use crate::channel;
use crate::fixed::MAX_HALF_LN;
use crate::fixed::MAX_WEIGHT;
use crate::fixed::SCALE;
use crate::fixed::half_ln_ratio;
use crate::fixed::spec_half_ln_ratio;
use crate::fixed::weight_of_margin;
use crate::gamma::shrink;
use crate::gamma::shrunk;
use crate::learner::Learner;
use crate::learner::LearnerOutcome;
use crate::learner::MAX_TRIALS_LIMIT;
use crate::tree::MAX_MODEL_SIZE;
use crate::tree::Model;
use crate::tree::PRED_LIMIT;
use crate::tree::UpdateList;

verus! {

/// A model travelling with its accumulated squared edge.
pub type ModelScore = (Model, u64);

/// Number of iterations a `training` call will run when `num_iterations`
/// asks for an open-ended run.
pub const TRAINING_FUEL: u64 = 1_000_000_000;

/// Number of pending broadcasts one `handle_network` call will drain.
pub const NETWORK_DRAIN_FUEL: u64 = 10_000;

/// The bootstrap edge of a sample holding `np` positive and `nn` negative
/// examples: `|1/2 - np / (np + nn)|`, fixed point; zero for an empty
/// sample.
pub open spec fn spec_base_edge(np: int, nn: int) -> int {
    let total = np + nn;
    if total <= 0 {
        0
    } else {
        let frac = np * (SCALE as int) / total;
        if frac >= (SCALE as int) / 2 {
            frac - (SCALE as int) / 2
        } else {
            (SCALE as int) / 2 - frac
        }
    }
}

/// The boosting worker.
pub struct Boosting {
    /// Stop once the model holds this many nodes (0: run on).
    pub num_iterations: usize,
    /// Training halts once the target edge falls below this floor.
    pub min_gamma: u64,
    /// The double-buffered example stream.
    pub training_loader: BufferLoader,
    /// The weak-learner search state.
    pub learner: Learner,
    /// The worker's local model.
    pub model: Model,
    /// Accumulated squared edge (fixed point) of the local model.
    pub sum_gamma: u64,
    /// The accumulated squared edge last shared with the network.
    pub remote_sum_gamma: u64,
    /// Outgoing model broadcasts, when networking is enabled.
    pub network_sender: Option<crossbeam_channel::Sender<ModelScore>>,
    /// Incoming model broadcasts, when networking is enabled.
    pub network_receiver: Option<crossbeam_channel::Receiver<ModelScore>>,
    /// Accepted models are forwarded to the sampler here.
    pub sampler_channel_s: crossbeam_channel::Sender<Model>,
    /// Accepted models are forwarded to the validator here.
    pub validator_channel_s: crossbeam_channel::Sender<Model>,
    /// The positive and negative label counts of the bootstrap scan.
    pub base_counts: Ghost<(int, int)>,
}

impl Boosting {
    pub open spec fn wf(self) -> bool {
        &&& self.training_loader.wf()
        &&& self.training_loader.examples@.len() == self.training_loader.size
        &&& self.learner.wf()
        &&& self.model.wf()
        &&& self.model.nodes@.len() >= 1
    }

    /// Every buffered example that is not ahead of the model has been
    /// scored against all of it.
    pub open spec fn scores_at(self, model_len: int) -> bool {
        forall|i: int| 0 <= i < self.training_loader.examples@.len()
            ==> ((#[trigger] self.training_loader.examples@[i]).curr_len <= model_len
                ==> self.training_loader.examples@[i].curr_len == model_len)
    }

    /// The training loop's guard: non-root work remains (spec counts the
    /// accepted non-root nodes, the synthetic root excluded) and the target
    /// edge still clears the floor.
    pub open spec fn spec_keep_training(self) -> bool {
        &&& (self.num_iterations == 0
            || self.model.nodes@.len() - 1 < self.num_iterations)
        &&& self.learner.gamma >= self.min_gamma
    }

    /// Assemble a worker: derive the bins from the training stream, seed the
    /// learner, and bootstrap the model with the label-balancing root. The
    /// accumulated edge counters start at the square of the bootstrap edge.
    pub fn new(
        num_iterations: usize,
        max_trials_before_shrink: u64,
        training_loader: BufferLoader,
        feature_begin: usize,
        feature_end: usize,
        max_sample_size: usize,
        max_bin_size: usize,
        default_gamma: u64,
        min_gamma: u64,
        min_examples: u64,
        sampler_channel_s: crossbeam_channel::Sender<Model>,
        validator_channel_s: crossbeam_channel::Sender<Model>,
    ) -> (r: Boosting)
        requires
            training_loader.wf(),
            training_loader.examples@.len() == training_loader.size,
            0 < default_gamma <= SCALE,
            max_trials_before_shrink <= MAX_TRIALS_LIMIT,
            max_bin_size >= 1,
            feature_begin <= feature_end <= 100_000,
            max_sample_size <= 4_000_000_000_000,
        ensures
            r.wf(),
            r.num_iterations == num_iterations,
            r.min_gamma == min_gamma,
            r.model.nodes@.len() == 1,
            r.learner.gamma == default_gamma,
            r.learner.max_trials == max_trials_before_shrink,
            r.learner.min_examples == min_examples,
            r.network_sender is None,
            r.network_receiver is None,
            r.base_counts@.0 >= 0 && r.base_counts@.1 >= 0,
            r.sum_gamma == spec_base_edge(r.base_counts@.0, r.base_counts@.1)
                * spec_base_edge(r.base_counts@.0, r.base_counts@.1) / (SCALE as int),
            r.remote_sum_gamma == r.sum_gamma,
    {
        let mut training_loader = training_loader;
        let (bins, _bin_counts) = create_bins(
            max_sample_size,
            max_bin_size,
            feature_begin,
            feature_end,
            &mut training_loader,
        );
        let learner = Learner::new(default_gamma, max_trials_before_shrink, min_examples, bins);
        let (model, gamma0, counts) = get_base_tree(max_sample_size, &mut training_loader);
        proof {
            assert(gamma0 * gamma0 <= 500_000u64 * 500_000u64) by (nonlinear_arith)
                requires gamma0 <= 500_000u64;
        }
        let gamma_squared: u64 = gamma0 * gamma0 / SCALE;
        Boosting {
            num_iterations,
            min_gamma,
            training_loader,
            learner,
            model,
            sum_gamma: gamma_squared,
            remote_sum_gamma: gamma_squared,
            network_sender: None,
            network_receiver: None,
            sampler_channel_s,
            validator_channel_s,
            base_counts: counts,
        }
    }

    /// Attach the worker to the cluster: incoming and outgoing model
    /// broadcasts flow through the given channels.
    pub fn enable_network(
        &mut self,
        sender: crossbeam_channel::Sender<ModelScore>,
        receiver: crossbeam_channel::Receiver<ModelScore>,
    )
        requires
            old(self).wf(),
        ensures
            final(self).wf(),
            final(self).model == old(self).model,
            final(self).learner == old(self).learner,
            final(self).training_loader == old(self).training_loader,
            final(self).sum_gamma == old(self).sum_gamma,
            final(self).remote_sum_gamma == old(self).remote_sum_gamma,
            final(self).num_iterations == old(self).num_iterations,
            final(self).min_gamma == old(self).min_gamma,
            final(self).network_sender is Some,
            final(self).network_receiver is Some,
    {
        self.network_sender = Some(sender);
        self.network_receiver = Some(receiver);
    }

    /// Run boosting iterations until `num_iterations` non-root nodes stand
    /// in the model (the synthetic root does not count), the target edge
    /// collapses below `min_gamma`, or (for an open-ended run) the internal
    /// turn budget is spent. Returns the number of turns taken, with a
    /// ghost trace tying every turn to one iteration-plus-poll transition:
    /// a run that stopped early did so because a stopping condition held.
    pub fn training(&mut self) -> (turns: u64)
        requires
            old(self).wf(),
        ensures
            final(self).wf(),
            final(self).num_iterations == old(self).num_iterations,
            final(self).min_gamma == old(self).min_gamma,
            final(self).learner.gamma <= old(self).learner.gamma,
            turns <= TRAINING_FUEL,
            turns < TRAINING_FUEL ==> !final(self).spec_keep_training(),
            exists|trace: Seq<Boosting>| {
                &&& #[trigger] spec_training_trace(trace, turns as int)
                &&& trace[0] == *old(self)
                &&& trace[turns as int] == *final(self)
            },
    {
        let mut fuel: u64 = TRAINING_FUEL;
        let ghost mut trace: Seq<Boosting> = seq![*self];
        while fuel > 0
            && (self.num_iterations == 0 || self.model.size() - 1 < self.num_iterations)
            && self.learner.gamma >= self.min_gamma
            invariant
                self.wf(),
                fuel <= TRAINING_FUEL,
                self.num_iterations == old(self).num_iterations,
                self.min_gamma == old(self).min_gamma,
                self.learner.gamma <= old(self).learner.gamma,
                trace.len() == TRAINING_FUEL - fuel + 1,
                trace[0] == *old(self),
                trace.last() == *self,
                forall|j: int| 0 <= j < trace.len() - 1
                    ==> (#[trigger] trace[j]).spec_keep_training(),
                forall|j: int| 0 <= j < trace.len() - 1
                    ==> spec_worker_step(#[trigger] trace[j], trace[j + 1]),
            decreases fuel,
        {
            let ghost pre_state: Boosting = *self;
            proof {
                assert(pre_state.spec_keep_training());
            }
            let outcome = self.boost_iteration();
            let ghost mid_state: Boosting = *self;
            proof {
                match outcome {
                    LearnerOutcome::Fallback => {},
                    LearnerOutcome::Found(_) => {},
                    LearnerOutcome::Scanning => {},
                }
                assert(spec_iteration_rel(pre_state, mid_state));
            }
            self.handle_network();
            proof {
                assert(spec_network_rel(mid_state, *self));
                assert(spec_worker_step(pre_state, *self));
                trace = trace.push(*self);
            }
            fuel = fuel - 1;
        }
        proof {
            let turns = TRAINING_FUEL - fuel;
            assert(spec_training_trace(trace, turns as int));
            assert(trace[turns as int] == *self);
        }
        TRAINING_FUEL - fuel
    }

    /// One boosting iteration: weigh the next batch, feed the learner, and
    /// act on its outcome. A found candidate (with room in the model)
    /// becomes one new tree-root node, the accumulated edge grows by the
    /// candidate's squared edge, the buffered scores advance to the new
    /// model, and the learner starts afresh; a fallback shrinks the target
    /// edge and starts the learner afresh; otherwise only the learner's
    /// accumulators have absorbed the batch.
    pub fn boost_iteration(&mut self) -> (r: LearnerOutcome)
        requires
            old(self).wf(),
        ensures
            final(self).wf(),
            final(self).num_iterations == old(self).num_iterations,
            final(self).min_gamma == old(self).min_gamma,
            final(self).remote_sum_gamma == old(self).remote_sum_gamma,
            final(self).learner.max_trials == old(self).learner.max_trials,
            final(self).learner.min_examples == old(self).learner.min_examples,
            final(self).learner.bins == old(self).learner.bins,
            final(self).model.nodes@.len() >= old(self).model.nodes@.len(),
            final(self).learner.gamma <= old(self).learner.gamma,
            final(self).sum_gamma >= old(self).sum_gamma,
            (r is Fallback) <==> old(self).learner.num_scanned >= old(self).learner.max_trials,
            match r {
                LearnerOutcome::Found(c) => {
                    &&& final(self).learner.is_reset()
                    &&& final(self).learner.gamma == old(self).learner.gamma
                    &&& c.edge >= final(self).learner.gamma
                    &&& c.edge <= SCALE / 2
                    &&& -MAX_HALF_LN <= c.pred_left <= MAX_HALF_LN
                    &&& -MAX_HALF_LN <= c.pred_right <= MAX_HALF_LN
                    &&& (old(self).model.nodes@.len() < MAX_MODEL_SIZE ==> {
                        let n = final(self).model.nodes@[old(self).model.nodes@.len() as int];
                        &&& old(self).model.prefix_of(final(self).model)
                        &&& final(self).model.nodes@.len() == old(self).model.nodes@.len() + 1
                        &&& n.feature == c.feature
                        &&& n.threshold == c.threshold
                        &&& n.pred_left == c.pred_left
                        &&& n.pred_right == c.pred_right
                        &&& n.parent is None
                        &&& n.depth == 1
                        &&& final(self).sum_gamma == (if old(self).sum_gamma + c.edge * c.edge / (SCALE as int) <= u64::MAX {
                            (old(self).sum_gamma + c.edge * c.edge / (SCALE as int)) as u64
                        } else {
                            u64::MAX
                        })
                        &&& final(self).scores_at(final(self).model.nodes@.len() as int)
                    })
                    &&& (old(self).model.nodes@.len() >= MAX_MODEL_SIZE ==> {
                        &&& final(self).model == old(self).model
                        &&& final(self).sum_gamma == old(self).sum_gamma
                    })
                },
                LearnerOutcome::Fallback => {
                    &&& final(self).learner.is_reset()
                    &&& final(self).learner.gamma == shrunk(old(self).learner.gamma)
                    &&& final(self).model == old(self).model
                    &&& final(self).sum_gamma == old(self).sum_gamma
                },
                LearnerOutcome::Scanning => {
                    &&& final(self).model == old(self).model
                    &&& final(self).sum_gamma == old(self).sum_gamma
                    &&& final(self).learner.gamma == old(self).learner.gamma
                    // the learner absorbed exactly the batch the loader handed out
                    &&& final(self).learner.num_scanned == old(self).learner.num_scanned
                        + (if final(self).training_loader.curr_example + final(self).training_loader.batch_size
                            <= final(self).training_loader.size {
                            final(self).training_loader.batch_size as int
                        } else {
                            final(self).training_loader.size - final(self).training_loader.curr_example
                        })
                },
            },
    {
        let ghost pre: Boosting = *self;
        let outcome: LearnerOutcome;
        {
            let batch = self.training_loader.get_next_batch(true);
            let mut weights: Vec<u64> = Vec::new();
            let mut i: usize = 0;
            while i < batch.len()
                invariant
                    i <= batch@.len(),
                    weights@.len() == i,
                    forall|j: int| 0 <= j < batch@.len() ==> (#[trigger] batch@[j]).wf(),
                    forall|j: int| 0 <= j < weights@.len() ==> #[trigger] weights@[j] <= MAX_WEIGHT,
                decreases batch@.len() - i,
            {
                let m = batch[i].margin();
                weights.push(weight_of_margin(m));
                i = i + 1;
            }
            outcome = self.learner.update(batch, &weights);
        }
        match &outcome {
            LearnerOutcome::Found(c) => {
                if self.model.size() < MAX_MODEL_SIZE {
                    let mut patch = UpdateList::new();
                    proof {
                        assert(-PRED_LIMIT <= c.pred_left <= PRED_LIMIT);
                    }
                    patch.add(0, c.feature, c.threshold, true, c.edge, c.pred_left, c.pred_right);
                    let ghost len0: int = self.model.nodes@.len() as int;
                    self.model.append_patch(&patch);
                    proof {
                        let e = patch.updates@[0];
                        let n = self.model.nodes@[len0];
                        assert(n.feature == e.split_feature);
                        assert(n.threshold == e.threshold);
                        assert(n.pred_left == e.left_prediction);
                        assert(n.pred_right == e.right_prediction);
                        assert(n.parent is None);
                        assert(n.depth == 1);
                        assert(c.edge * c.edge <= 500_000u64 * 500_000u64) by (nonlinear_arith)
                            requires c.edge <= 500_000u64;
                    }
                    let gain: u64 = c.edge * c.edge / SCALE;
                    self.sum_gamma = if self.sum_gamma <= u64::MAX - gain {
                        self.sum_gamma + gain
                    } else {
                        u64::MAX
                    };
                    self.try_send_model();
                    let ghost mid: BufferLoader = self.training_loader;
                    self.training_loader.update_scores(&self.model);
                    proof {
                        let len = self.model.nodes@.len() as int;
                        assert forall|i: int|
                            0 <= i < self.training_loader.examples@.len()
                            && (#[trigger] self.training_loader.examples@[i]).curr_len <= len
                            implies self.training_loader.examples@[i].curr_len == len by {
                            let e0 = mid.examples@[i];
                            assert(e0 == mid.examples@[i]);
                        }
                        assert(self.scores_at(len));
                    }
                }
                self.learner.reset();
            },
            LearnerOutcome::Fallback => {
                // the learner gave up under the current edge target: shrink it
                let g = shrink(self.learner.gamma);
                self.learner.set_gamma(g);
            },
            LearnerOutcome::Scanning => {},
        }
        outcome
    }

    /// Drain pending model broadcasts: each well-formed broadcast model
    /// replaces the local one (the last drained wins), the buffered scores
    /// advance to the adopted model and the learner starts afresh. If our
    /// accumulated edge beats what the network last saw of us, our model is
    /// shared. Returns whether the local model was replaced.
    pub fn handle_network(&mut self) -> (replaced: bool)
        requires
            old(self).wf(),
        ensures
            final(self).wf(),
            final(self).num_iterations == old(self).num_iterations,
            final(self).min_gamma == old(self).min_gamma,
            final(self).learner.gamma == old(self).learner.gamma,
            !replaced ==> {
                &&& final(self).model == old(self).model
                &&& final(self).sum_gamma == old(self).sum_gamma
                &&& final(self).learner == old(self).learner
                &&& final(self).training_loader.examples@ == old(self).training_loader.examples@
            },
            replaced ==> {
                &&& final(self).learner.is_reset()
                &&& final(self).remote_sum_gamma == final(self).sum_gamma
                &&& final(self).scores_at(final(self).model.nodes@.len() as int)
            },
    {
        if self.network_receiver.is_none() {
            return false;
        }
        let mut replaced = false;
        let mut fuel: u64 = NETWORK_DRAIN_FUEL;
        loop
            invariant
                self.wf(),
                self.num_iterations == old(self).num_iterations,
                self.min_gamma == old(self).min_gamma,
                self.learner == old(self).learner,
                self.training_loader == old(self).training_loader,
                self.network_receiver == old(self).network_receiver,
                self.network_receiver is Some,
                self.remote_sum_gamma == old(self).remote_sum_gamma,
                !replaced ==> {
                    &&& self.model == old(self).model
                    &&& self.sum_gamma == old(self).sum_gamma
                },
            decreases fuel,
        {
            if fuel == 0 {
                break;
            }
            let msg = match &self.network_receiver {
                Some(receiver) => channel::try_recv(receiver),
                None => None,
            };
            match msg {
                Some((m, score)) => {
                    // adopt every structurally sound broadcast model
                    if m.size() >= 1 && m.validate() {
                        self.model = m;
                        self.sum_gamma = score;
                        replaced = true;
                    }
                },
                None => {
                    break;
                },
            }
            fuel = fuel - 1;
        }
        if replaced {
            let ghost mid: BufferLoader = self.training_loader;
            self.training_loader.update_scores(&self.model);
            proof {
                let len = self.model.nodes@.len() as int;
                assert forall|i: int|
                    0 <= i < self.training_loader.examples@.len()
                    && (#[trigger] self.training_loader.examples@[i]).curr_len <= len
                    implies self.training_loader.examples@[i].curr_len == len by {
                    let e0 = mid.examples@[i];
                    assert(e0 == mid.examples@[i]);
                }
                assert(self.scores_at(len));
            }
            self.learner.reset();
            self.remote_sum_gamma = self.sum_gamma;
        }
        if self.sum_gamma > self.remote_sum_gamma {
            let sent = match &self.network_sender {
                Some(sender) => {
                    let copy = self.model.duplicate();
                    channel::send(sender, (copy, self.sum_gamma))
                },
                None => false,
            };
            if sent {
                self.remote_sum_gamma = self.sum_gamma;
            }
        }
        replaced
    }

    /// Publish the local model to the network, the sampler and the
    /// validator.
    fn try_send_model(&mut self)
        requires
            old(self).wf(),
        ensures
            final(self).wf(),
            *final(self) == *old(self),
    {
        match &self.network_sender {
            Some(sender) => {
                let copy = self.model.duplicate();
                channel::send(sender, (copy, self.sum_gamma));
            },
            None => {},
        }
        let copy = self.model.duplicate();
        channel::send(&self.sampler_channel_s, copy);
        let copy = self.model.duplicate();
        channel::send(&self.validator_channel_s, copy);
    }
}

/// What one boosting iteration guarantees between its pre- and post-state:
/// the configuration stands, the target edge never grows, and exactly one
/// of the learner's outcomes has taken effect — a fallback (exactly when
/// the budget was spent) that reset the learner and shrank the edge, a
/// found candidate that reset the learner and (with room) grew the model
/// by one node, or a scan that only advanced the example counter.
pub open spec fn spec_iteration_rel(pre: Boosting, post: Boosting) -> bool {
    &&& post.wf()
    &&& post.num_iterations == pre.num_iterations
    &&& post.min_gamma == pre.min_gamma
    &&& post.remote_sum_gamma == pre.remote_sum_gamma
    &&& post.learner.max_trials == pre.learner.max_trials
    &&& post.learner.min_examples == pre.learner.min_examples
    &&& post.learner.bins == pre.learner.bins
    &&& post.model.nodes@.len() >= pre.model.nodes@.len()
    &&& post.learner.gamma <= pre.learner.gamma
    &&& post.sum_gamma >= pre.sum_gamma
    &&& ({
        ||| (pre.learner.num_scanned >= pre.learner.max_trials
            && post.learner.is_reset()
            && post.learner.gamma == shrunk(pre.learner.gamma)
            && post.model == pre.model
            && post.sum_gamma == pre.sum_gamma)
        ||| (pre.learner.num_scanned < pre.learner.max_trials
            && post.learner.is_reset()
            && post.learner.gamma == pre.learner.gamma
            && (pre.model.nodes@.len() < MAX_MODEL_SIZE ==> {
                &&& post.model.nodes@.len() == pre.model.nodes@.len() + 1
                &&& pre.model.prefix_of(post.model)
            }))
        ||| (pre.learner.num_scanned < pre.learner.max_trials
            && post.model == pre.model
            && post.sum_gamma == pre.sum_gamma
            && post.learner.gamma == pre.learner.gamma
            && post.learner.num_scanned > pre.learner.num_scanned)
    })
}

/// What one network poll guarantees: either nothing was adopted and the
/// model, edge sum and learner stand, or a structurally sound broadcast
/// was adopted, the learner reset and the buffered scores refreshed.
pub open spec fn spec_network_rel(pre: Boosting, post: Boosting) -> bool {
    &&& post.wf()
    &&& post.num_iterations == pre.num_iterations
    &&& post.min_gamma == pre.min_gamma
    &&& post.learner.gamma == pre.learner.gamma
    &&& ({
        ||| (post.model == pre.model
            && post.sum_gamma == pre.sum_gamma
            && post.learner == pre.learner)
        ||| (post.learner.is_reset()
            && post.remote_sum_gamma == post.sum_gamma
            && post.scores_at(post.model.nodes@.len() as int))
    })
}

/// One turn of the training loop: a boosting iteration followed by a
/// network poll.
pub open spec fn spec_worker_step(pre: Boosting, post: Boosting) -> bool {
    exists|mid: Boosting| #![trigger spec_iteration_rel(pre, mid)] {
        &&& spec_iteration_rel(pre, mid)
        &&& spec_network_rel(mid, post)
    }
}

/// A complete record of a training run: `turns + 1` worker states, each
/// step taken while the loop guard held, consecutive states related by one
/// loop turn.
pub open spec fn spec_training_trace(trace: Seq<Boosting>, turns: int) -> bool {
    &&& trace.len() == turns + 1
    &&& forall|j: int| 0 <= j < turns ==> (#[trigger] trace[j]).spec_keep_training()
    &&& forall|j: int| 0 <= j < turns ==> spec_worker_step(#[trigger] trace[j], trace[j + 1])
}

/// Bootstrap the synthetic root: scan about `max_sample_size` examples,
/// count the labels, and build the one-node model whose constant prediction
/// is half the log-ratio of positive to negative counts. Also returns the
/// initial edge `|1/2 - n_pos/(n_pos + n_neg)|` (fixed point) and, as a
/// ghost value, the positive and negative counts themselves.
pub fn get_base_tree(max_sample_size: usize, data_loader: &mut BufferLoader)
    -> (r: (Model, u64, Ghost<(int, int)>))
    requires
        old(data_loader).wf(),
        old(data_loader).examples@.len() == old(data_loader).size,
        max_sample_size <= 4_000_000_000_000,
    ensures
        final(data_loader).wf(),
        old(data_loader).same_config(*final(data_loader)),
        final(data_loader).examples@.len() == final(data_loader).size,
        r.0.wf(),
        r.0.nodes@.len() == 1,
        r.0.nodes@[0].depth == 0,
        r.0.nodes@[0].pred_right == r.0.nodes@[0].pred_left,
        -MAX_HALF_LN <= r.0.nodes@[0].pred_left <= MAX_HALF_LN,
        r.2@.0 >= 0 && r.2@.1 >= 0,
        // the initial edge is exactly the label imbalance of the scan
        r.1 == spec_base_edge(r.2@.0, r.2@.1),
        r.1 <= SCALE / 2,
        // the root prediction is exactly the half-log-ratio of the counts
        ({
            let np = r.2@.0;
            let nn = r.2@.1;
            let pred = r.0.nodes@[0].pred_left;
            &&& (np >= 1 && nn >= 1 ==> pred == spec_half_ln_ratio(np, nn))
            &&& ((np == 0 || nn == 0) ==> pred == 0)
            &&& (np >= 1 && nn >= 1 && np == nn ==> pred == 0)
            &&& (np >= 1 && nn >= 1 && np <= nn ==> pred <= 0)
            &&& (np >= 1 && nn >= 1 && np >= nn ==> pred >= 0)
            &&& (nn >= 1 && np >= 2 * nn ==> pred >= 340_000)
        }),
{
    let mut n_pos: u64 = 0;
    let mut n_neg: u64 = 0;
    let max_sample: u64 = max_sample_size as u64;
    let mut seen: u64 = 0;
    while seen < max_sample
        invariant
            data_loader.wf(),
            old(data_loader).same_config(*data_loader),
            data_loader.examples@.len() == data_loader.size,
            max_sample <= 4_000_000_000_000,
            n_pos + n_neg <= seen,
            seen <= max_sample + 1_000_000,
        decreases (if seen <= max_sample { max_sample - seen } else { 0int }),
    {
        let batch = data_loader.get_next_batch(true);
        proof {
            assert(batch@.len() <= 1_000_000);
        }
        let mut bp: u64 = 0;
        let mut bn: u64 = 0;
        let mut b: usize = 0;
        while b < batch.len()
            invariant
                b <= batch@.len(),
                batch@.len() <= 1_000_000,
                bp + bn == b,
            decreases batch@.len() - b,
        {
            if batch[b].example.label > 0 {
                bp = bp + 1;
            } else {
                bn = bn + 1;
            }
            b = b + 1;
        }
        n_pos = n_pos + bp;
        n_neg = n_neg + bn;
        seen = seen + (batch.len() as u64);
    }
    let total: u64 = n_pos + n_neg;
    let gamma: u64 = if total == 0 {
        0
    } else {
        let half: u64 = SCALE / 2;
        proof {
            assert((n_pos as u128) * (SCALE as u128)
                <= 0xffff_ffff_ffff_ffffu128 * 1_000_000u128) by (nonlinear_arith)
                requires n_pos as u128 <= 0xffff_ffff_ffff_ffffu128;
        }
        let frac128: u128 = (n_pos as u128) * (SCALE as u128) / (total as u128);
        proof {
            assert((n_pos as u128) * (SCALE as u128) <= (total as u128) * (SCALE as u128))
                by (nonlinear_arith)
                requires n_pos <= total;
            vstd::arithmetic::div_mod::lemma_div_is_ordered(
                ((n_pos as u128) * (SCALE as u128)) as int,
                ((total as u128) * (SCALE as u128)) as int,
                total as int,
            );
            assert(((total as u128) * (SCALE as u128)) as int == (SCALE as int) * (total as int))
                by (nonlinear_arith);
            vstd::arithmetic::div_mod::lemma_div_multiples_vanish(SCALE as int, total as int);
            assert(frac128 as int == (n_pos as int) * (SCALE as int) / (total as int));
        }
        let frac: u64 = frac128 as u64;
        if frac >= half {
            frac - half
        } else {
            half - frac
        }
    };
    proof {
        assert(gamma == spec_base_edge(n_pos as int, n_neg as int));
        assert(gamma <= SCALE / 2);
    }
    let prediction: i64 = if n_pos >= 1 && n_neg >= 1 {
        half_ln_ratio(n_pos, n_neg)
    } else {
        0
    };
    (Model::new_root(prediction), gamma, Ghost((n_pos as int, n_neg as int)))
}

} // verus!
