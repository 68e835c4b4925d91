//! The weak learner.
//!
//! Over a stream of weighted batches, the learner accumulates per-candidate
//! weight histograms — one candidate per (feature, threshold) pair of the
//! bins — and fires the candidate with the greatest empirical edge once that
//! edge clears the target edge gamma with enough examples seen. When no
//! candidate fires within the trial budget, it signals a gamma shrink and
//! resets its accumulators.

use vstd::prelude::*;
use vstd::pervasive::VecAdditionalExecFns;
use crate::bins::Bins;
use crate::data::ExampleInSampleSet;
use crate::fixed::MAX_HALF_LN;
use crate::fixed::MAX_WEIGHT;
use crate::fixed::SCALE;
use crate::fixed::half_ln_ratio;
use crate::fixed::spec_half_ln_ratio;

verus! {

/// Ceiling on the trial budget, so that weight sums stay inside `u64`.
pub const MAX_TRIALS_LIMIT: u64 = 1_000_000_000;

/// Running weighted sums of one candidate split: the positive and negative
/// weight of the examples whose feature value is at or below the threshold.
#[derive(Clone, Copy)]
pub struct CandidateStats {
    /// Weight of positive examples on the left side.
    pub w_pos_le: u64,
    /// Weight of negative examples on the left side.
    pub w_neg_le: u64,
}

/// A split the learner proposes.
pub struct Candidate {
    /// Feature dimension of the split.
    pub feature: usize,
    /// Bin code compared against the feature value.
    pub threshold: u8,
    /// The empirical edge (fixed point) of the split at the moment of return.
    pub edge: u64,
    /// Leaf prediction (fixed point) for the left side.
    pub pred_left: i64,
    /// Leaf prediction (fixed point) for the right side.
    pub pred_right: i64,
}

/// What one `update` call produced.
pub enum LearnerOutcome {
    /// A candidate cleared the target edge.
    Found(Candidate),
    /// The trial budget ran out without a candidate; accumulators were reset.
    Fallback,
    /// Keep feeding batches.
    Scanning,
}

/// The weight of `ws[j]` counted toward the `pos` label total.
pub open spec fn label_contrib(e: ExampleInSampleSet, w: u64, pos: bool) -> int {
    if (e.example.label > 0) == pos {
        w as int
    } else {
        0
    }
}

/// Total weight of the `pos`-labelled examples among the first `upto`.
pub open spec fn sum_label_weights(
    batch: Seq<ExampleInSampleSet>,
    ws: Seq<u64>,
    pos: bool,
    upto: int,
) -> int
    decreases upto,
{
    if upto <= 0 {
        0
    } else {
        sum_label_weights(batch, ws, pos, upto - 1) + label_contrib(batch[upto - 1], ws[upto - 1], pos)
    }
}

/// The weight of `ws[j]` counted toward a candidate's left side.
pub open spec fn match_contrib(e: ExampleInSampleSet, w: u64, pos: bool, f: int, thr: u8) -> int {
    if (e.example.label > 0) == pos && f < e.example.features@.len()
        && e.example.features@[f] <= thr {
        w as int
    } else {
        0
    }
}

/// Total weight the first `upto` examples add to a candidate's left side.
pub open spec fn sum_match(
    batch: Seq<ExampleInSampleSet>,
    ws: Seq<u64>,
    pos: bool,
    f: int,
    thr: u8,
    upto: int,
) -> int
    decreases upto,
{
    if upto <= 0 {
        0
    } else {
        sum_match(batch, ws, pos, f, thr, upto - 1)
            + match_contrib(batch[upto - 1], ws[upto - 1], pos, f, thr)
    }
}

/// A candidate's left-side contribution never exceeds its label total.
proof fn lemma_match_le_label(
    batch: Seq<ExampleInSampleSet>,
    ws: Seq<u64>,
    pos: bool,
    f: int,
    thr: u8,
    upto: int,
)
    ensures
        0 <= sum_match(batch, ws, pos, f, thr, upto),
        sum_match(batch, ws, pos, f, thr, upto) <= sum_label_weights(batch, ws, pos, upto),
    decreases upto,
{
    if upto > 0 {
        lemma_match_le_label(batch, ws, pos, f, thr, upto - 1);
    }
}

/// Label totals are bounded by the scanned weight.
proof fn lemma_label_sum_bound(
    batch: Seq<ExampleInSampleSet>,
    ws: Seq<u64>,
    upto: int,
    bound: int,
)
    requires
        0 <= upto <= ws.len(),
        forall|j: int| 0 <= j < ws.len() ==> ws[j] <= bound,
        bound >= 0,
    ensures
        0 <= sum_label_weights(batch, ws, true, upto),
        0 <= sum_label_weights(batch, ws, false, upto),
        sum_label_weights(batch, ws, true, upto) + sum_label_weights(batch, ws, false, upto)
            <= upto * bound,
    decreases upto,
{
    if upto > 0 {
        lemma_label_sum_bound(batch, ws, upto - 1, bound);
        assert((upto - 1) * bound + bound == upto * bound) by (nonlinear_arith);
    }
}

/// The weak learner.
pub struct Learner {
    /// The shared per-feature thresholds; one candidate per entry.
    pub bins: Bins,
    /// Per-feature rows of candidate statistics, parallel to the bins.
    pub stats: Vec<Vec<CandidateStats>>,
    /// Accumulated weight of positive examples since the last reset.
    pub total_pos: u64,
    /// Accumulated weight of negative examples since the last reset.
    pub total_neg: u64,
    /// Examples scanned since the last reset.
    pub num_scanned: u64,
    /// The target edge (fixed point) a candidate must clear.
    pub gamma: u64,
    /// Examples to scan before giving up on the current gamma.
    pub max_trials: u64,
    /// Examples to scan before a candidate may fire (confidence floor).
    pub min_examples: u64,
}

impl Learner {
    /// Structural invariant: statistics parallel the bins, all sums are
    /// consistent and bounded.
    pub open spec fn wf(self) -> bool {
        &&& self.bins.wf()
        &&& self.stats@.len() == self.bins.thresholds@.len()
        &&& forall|f: int| 0 <= f < self.stats@.len()
            ==> (#[trigger] self.stats@[f])@.len() == self.bins.thresholds@[f]@.len()
        &&& self.max_trials <= MAX_TRIALS_LIMIT
        &&& self.num_scanned <= self.max_trials + SCALE
        &&& self.total_pos + self.total_neg <= self.num_scanned * MAX_WEIGHT
        &&& forall|f: int, t: int| 0 <= f < self.stats@.len() && 0 <= t < self.stats@[f]@.len()
            ==> {
                &&& (#[trigger] self.stats@[f]@[t]).w_pos_le <= self.total_pos
                &&& self.stats@[f]@[t].w_neg_le <= self.total_neg
            }
        &&& 0 < self.gamma <= SCALE
    }

    /// The learner's configuration, unchanged by scanning.
    pub open spec fn same_config(self, other: Learner) -> bool {
        &&& self.bins == other.bins
        &&& self.gamma == other.gamma
        &&& self.max_trials == other.max_trials
        &&& self.min_examples == other.min_examples
    }

    /// All accumulators hold zero.
    pub open spec fn is_reset(self) -> bool {
        &&& self.total_pos == 0
        &&& self.total_neg == 0
        &&& self.num_scanned == 0
        &&& forall|f: int, t: int| 0 <= f < self.stats@.len() && 0 <= t < self.stats@[f]@.len()
            ==> (#[trigger] self.stats@[f]@[t]).w_pos_le == 0 && self.stats@[f]@[t].w_neg_le == 0
    }

    /// The state after absorbing a weighted batch: the example counter, the
    /// label totals and every candidate's sums have grown by exactly the
    /// batch's contributions.
    pub open spec fn accumulated(
        pre: Learner,
        post: Learner,
        batch: Seq<ExampleInSampleSet>,
        ws: Seq<u64>,
    ) -> bool {
        &&& post.num_scanned == pre.num_scanned + batch.len()
        &&& post.total_pos == pre.total_pos + sum_label_weights(batch, ws, true, batch.len() as int)
        &&& post.total_neg == pre.total_neg + sum_label_weights(batch, ws, false, batch.len() as int)
        &&& post.stats@.len() == pre.stats@.len()
        &&& forall|f: int, t: int| 0 <= f < pre.stats@.len() && 0 <= t < pre.stats@[f]@.len()
            ==> {
                &&& (#[trigger] post.stats@[f]@[t]).w_pos_le == pre.stats@[f]@[t].w_pos_le
                    + sum_match(batch, ws, true, f, pre.bins.thresholds@[f]@[t], batch.len() as int)
                &&& post.stats@[f]@[t].w_neg_le == pre.stats@[f]@[t].w_neg_le
                    + sum_match(batch, ws, false, f, pre.bins.thresholds@[f]@[t], batch.len() as int)
            }
    }

    /// The empirical edge (fixed point) of candidate `(f, t)`: the greater
    /// one-sided weighted advantage, over twice the total weight.
    pub open spec fn spec_edge(self, f: int, t: int) -> int {
        let s = self.stats@[f]@[t];
        let total = self.total_pos + self.total_neg;
        if total == 0 {
            0
        } else {
            let d_le = abs_int(s.w_pos_le - s.w_neg_le);
            let d_gt = abs_int(
                (self.total_pos - s.w_pos_le) - (self.total_neg - s.w_neg_le),
            );
            let d = if d_le >= d_gt { d_le } else { d_gt };
            d * SCALE / (2 * (total as int))
        }
    }

    /// A candidate is active while its right side carries any weight.
    pub open spec fn spec_active(self, f: int, t: int) -> bool {
        let s = self.stats@[f]@[t];
        (self.total_pos - s.w_pos_le) + (self.total_neg - s.w_neg_le) > 0
    }

    /// `c` names an actual candidate of this learner state, and carries
    /// that candidate's exact empirical edge and the half-log-ratio leaf
    /// predictions of its two sides (with add-one smoothing).
    pub open spec fn spec_valid_candidate(self, c: Candidate) -> bool {
        exists|f: int, t: int| #![trigger self.stats@[f]@[t]] {
            let s = self.stats@[f]@[t];
            &&& 0 <= f < self.stats@.len()
            &&& 0 <= t < self.stats@[f]@.len()
            &&& self.spec_active(f, t)
            &&& c.feature == f
            &&& c.threshold == self.bins.thresholds@[f]@[t]
            &&& c.edge == self.spec_edge(f, t)
            &&& c.pred_left == spec_half_ln_ratio(s.w_pos_le + 1, s.w_neg_le + 1)
            &&& c.pred_right == spec_half_ln_ratio(
                self.total_pos - s.w_pos_le + 1,
                self.total_neg - s.w_neg_le + 1,
            )
        }
    }

    /// No active candidate beats `c`.
    pub open spec fn spec_maximal(self, edge: int) -> bool {
        forall|f: int, t: int| 0 <= f < self.stats@.len() && 0 <= t < self.stats@[f]@.len()
            && self.spec_active(f, t)
            ==> #[trigger] self.spec_edge(f, t) <= edge
    }

    /// A fresh learner over the given bins with zeroed accumulators.
    pub fn new(default_gamma: u64, max_trials: u64, min_examples: u64, bins: Bins) -> (r: Learner)
        requires
            0 < default_gamma <= SCALE,
            max_trials <= MAX_TRIALS_LIMIT,
            bins.wf(),
        ensures
            r.wf(),
            r.is_reset(),
            r.bins == bins,
            r.gamma == default_gamma,
            r.max_trials == max_trials,
            r.min_examples == min_examples,
    {
        let stats = zero_stats(&bins);
        Learner {
            bins,
            stats,
            total_pos: 0,
            total_neg: 0,
            num_scanned: 0,
            gamma: default_gamma,
            max_trials,
            min_examples,
        }
    }

    /// Zero all accumulators; bins and gamma stay.
    pub fn reset(&mut self)
        requires
            old(self).wf(),
        ensures
            final(self).wf(),
            final(self).is_reset(),
            old(self).same_config(*final(self)),
    {
        let stats = zero_stats(&self.bins);
        self.stats = stats;
        self.total_pos = 0;
        self.total_neg = 0;
        self.num_scanned = 0;
    }

    /// Adopt a newly broadcast target edge.
    pub fn set_gamma(&mut self, gamma: u64)
        requires
            old(self).wf(),
            0 < gamma <= SCALE,
        ensures
            final(self).wf(),
            final(self).gamma == gamma,
            final(self).bins == old(self).bins,
            final(self).stats == old(self).stats,
            final(self).total_pos == old(self).total_pos,
            final(self).total_neg == old(self).total_neg,
            final(self).num_scanned == old(self).num_scanned,
            final(self).max_trials == old(self).max_trials,
            final(self).min_examples == old(self).min_examples,
    {
        self.gamma = gamma;
    }

    /// The empirical edge of candidate `(f, t)`, as executable arithmetic.
    fn edge_at(&self, f: usize, t: usize) -> (r: u64)
        requires
            self.wf(),
            f < self.stats@.len(),
            t < self.stats@[f as int]@.len(),
        ensures
            r == self.spec_edge(f as int, t as int),
            r <= SCALE / 2,
    {
        let s = self.stats[f][t];
        let total: u64 = self.total_pos + self.total_neg;
        if total == 0 {
            return 0;
        }
        let d_le: u64 = if s.w_pos_le >= s.w_neg_le {
            s.w_pos_le - s.w_neg_le
        } else {
            s.w_neg_le - s.w_pos_le
        };
        let pos_gt: u64 = self.total_pos - s.w_pos_le;
        let neg_gt: u64 = self.total_neg - s.w_neg_le;
        let d_gt: u64 = if pos_gt >= neg_gt {
            pos_gt - neg_gt
        } else {
            neg_gt - pos_gt
        };
        let d: u64 = if d_le >= d_gt {
            d_le
        } else {
            d_gt
        };
        assert(d <= total);
        let num: u128 = (d as u128) * (SCALE as u128);
        let den: u128 = 2 * (total as u128);
        let e: u128 = num / den;
        proof {
            assert((d as int) * (SCALE as int) <= (2 * (total as int)) * ((SCALE / 2) as int))
                by (nonlinear_arith)
                requires d <= total, SCALE == 1_000_000u64;
            vstd::arithmetic::div_mod::lemma_div_is_ordered(
                (d as int) * (SCALE as int),
                (2 * (total as int)) * ((SCALE / 2) as int),
                2 * (total as int),
            );
            vstd::arithmetic::div_mod::lemma_div_multiples_vanish(
                (SCALE / 2) as int,
                2 * (total as int),
            );
        }
        e as u64
    }

    /// Absorb one weighted batch and report: a candidate whose empirical
    /// edge clears gamma (the greatest such edge), a fallback once the trial
    /// budget is spent, or a request for more batches.
    pub fn update(
        &mut self,
        batch: &[ExampleInSampleSet],
        weights: &Vec<u64>,
    ) -> (r: LearnerOutcome)
        requires
            old(self).wf(),
            batch@.len() == weights@.len(),
            batch@.len() <= SCALE,
            forall|j: int| 0 <= j < weights@.len() ==> #[trigger] weights@[j] <= MAX_WEIGHT,
        ensures
            final(self).wf(),
            old(self).same_config(*final(self)),
            (r is Fallback) <==> old(self).num_scanned >= old(self).max_trials,
            match r {
                LearnerOutcome::Fallback => final(self).is_reset(),
                LearnerOutcome::Found(c) => {
                    &&& Learner::accumulated(*old(self), *final(self), batch@, weights@)
                    &&& c.edge <= SCALE / 2
                    &&& c.edge >= final(self).gamma
                    &&& final(self).num_scanned >= final(self).min_examples
                    &&& final(self).spec_valid_candidate(c)
                    &&& final(self).spec_maximal(c.edge as int)
                    &&& -MAX_HALF_LN <= c.pred_left <= MAX_HALF_LN
                    &&& -MAX_HALF_LN <= c.pred_right <= MAX_HALF_LN
                },
                LearnerOutcome::Scanning => {
                    &&& Learner::accumulated(*old(self), *final(self), batch@, weights@)
                    &&& (final(self).num_scanned < final(self).min_examples
                        || final(self).spec_maximal(final(self).gamma as int - 1))
                },
            },
    {
        let ghost pre: Learner = *self;
        if self.num_scanned >= self.max_trials {
            self.reset();
            return LearnerOutcome::Fallback;
        }
        let n = batch.len();
        // label totals
        let mut b: usize = 0;
        while b < n
            invariant
                pre.wf(),
                pre.same_config(*self),
                self.bins == pre.bins,
                n == batch@.len(),
                batch@.len() == weights@.len(),
                batch@.len() <= SCALE,
                forall|j: int| 0 <= j < weights@.len() ==> #[trigger] weights@[j] <= MAX_WEIGHT,
                b <= n,
                self.stats == pre.stats,
                self.num_scanned == pre.num_scanned,
                pre.num_scanned < pre.max_trials,
                self.total_pos == pre.total_pos + sum_label_weights(batch@, weights@, true, b as int),
                self.total_neg == pre.total_neg + sum_label_weights(batch@, weights@, false, b as int),
                self.total_pos + self.total_neg
                    <= pre.total_pos + pre.total_neg + (b as int) * MAX_WEIGHT,
            decreases n - b,
        {
            let w = weights[b];
            proof {
                lemma_label_sum_bound(batch@, weights@, b as int, MAX_WEIGHT as int);
                assert(pre.total_pos + pre.total_neg <= pre.num_scanned * MAX_WEIGHT);
                assert(pre.num_scanned * MAX_WEIGHT + (b + 1 as int) * MAX_WEIGHT
                    <= (MAX_TRIALS_LIMIT + 2 * SCALE as int) * MAX_WEIGHT) by (nonlinear_arith)
                    requires
                        pre.num_scanned <= MAX_TRIALS_LIMIT + SCALE,
                        0 <= b + 1 as int <= SCALE as int;
                assert((b + 1 as int) * MAX_WEIGHT == (b as int) * MAX_WEIGHT + MAX_WEIGHT)
                    by (nonlinear_arith);
            }
            if batch[b].example.label > 0 {
                self.total_pos = self.total_pos + w;
            } else {
                self.total_neg = self.total_neg + w;
            }
            b = b + 1;
        }
        self.num_scanned = self.num_scanned + (n as u64);
        proof {
            lemma_label_sum_bound(batch@, weights@, n as int, MAX_WEIGHT as int);
            assert(pre.total_pos + pre.total_neg + (n as int) * MAX_WEIGHT
                <= (pre.num_scanned + n as int) * MAX_WEIGHT) by (nonlinear_arith)
                requires pre.total_pos + pre.total_neg <= pre.num_scanned * MAX_WEIGHT;
        }
        // per-candidate sums, one rebuilt row per feature
        let mut f: usize = 0;
        while f < self.stats.len()
            invariant
                self.bins.wf(),
                pre.same_config(*self),
                self.stats@.len() == pre.stats@.len(),
                self.stats@.len() == self.bins.thresholds@.len(),
                forall|g: int| 0 <= g < self.stats@.len()
                    ==> (#[trigger] self.stats@[g])@.len() == self.bins.thresholds@[g]@.len(),
                f <= self.stats@.len(),
                n == batch@.len(),
                batch@.len() == weights@.len(),
                batch@.len() <= SCALE,
                forall|j: int| 0 <= j < weights@.len() ==> #[trigger] weights@[j] <= MAX_WEIGHT,
                self.num_scanned == pre.num_scanned + n,
                self.max_trials == pre.max_trials,
                pre.num_scanned < pre.max_trials,
                pre.wf(),
                self.total_pos == pre.total_pos + sum_label_weights(batch@, weights@, true, n as int),
                self.total_neg == pre.total_neg + sum_label_weights(batch@, weights@, false, n as int),
                self.total_pos + self.total_neg <= self.num_scanned * MAX_WEIGHT,
                forall|g: int, t: int| f <= g < self.stats@.len() && 0 <= t < self.stats@[g]@.len()
                    ==> #[trigger] self.stats@[g]@[t] == pre.stats@[g]@[t],
                forall|g: int, t: int| 0 <= g < f && 0 <= t < self.stats@[g]@.len()
                    ==> {
                        &&& (#[trigger] self.stats@[g]@[t]).w_pos_le == pre.stats@[g]@[t].w_pos_le
                            + sum_match(batch@, weights@, true, g, pre.bins.thresholds@[g]@[t], n as int)
                        &&& self.stats@[g]@[t].w_neg_le == pre.stats@[g]@[t].w_neg_le
                            + sum_match(batch@, weights@, false, g, pre.bins.thresholds@[g]@[t], n as int)
                    },
                forall|g: int, t: int| 0 <= g < self.stats@.len() && 0 <= t < self.stats@[g]@.len()
                    ==> {
                        &&& (#[trigger] self.stats@[g]@[t]).w_pos_le <= self.total_pos
                        &&& self.stats@[g]@[t].w_neg_le <= self.total_neg
                    },
            decreases self.stats@.len() - f,
        {
            let row_len = self.stats[f].len();
            let mut new_row: Vec<CandidateStats> = Vec::new();
            let mut t: usize = 0;
            while t < row_len
                invariant
                    self.bins.wf(),
                    f < self.stats@.len(),
                    self.stats@.len() == self.bins.thresholds@.len(),
                    forall|g: int| 0 <= g < self.stats@.len()
                        ==> (#[trigger] self.stats@[g])@.len() == self.bins.thresholds@[g]@.len(),
                    row_len == self.stats@[f as int]@.len(),
                    t <= row_len,
                    n == batch@.len(),
                    batch@.len() == weights@.len(),
                    batch@.len() <= SCALE,
                    forall|j: int| 0 <= j < weights@.len() ==> #[trigger] weights@[j] <= MAX_WEIGHT,
                    forall|tt: int| 0 <= tt < self.stats@[f as int]@.len()
                        ==> #[trigger] self.stats@[f as int]@[tt] == pre.stats@[f as int]@[tt],
                    pre.stats@[f as int]@.len() == row_len,
                    pre.wf(),
                    pre.bins == self.bins,
                    self.total_pos == pre.total_pos + sum_label_weights(batch@, weights@, true, n as int),
                    self.total_neg == pre.total_neg + sum_label_weights(batch@, weights@, false, n as int),
                    new_row@.len() == t,
                    forall|tt: int| 0 <= tt < t ==> {
                        &&& (#[trigger] new_row@[tt]).w_pos_le == pre.stats@[f as int]@[tt].w_pos_le
                            + sum_match(batch@, weights@, true, f as int, pre.bins.thresholds@[f as int]@[tt], n as int)
                        &&& new_row@[tt].w_neg_le == pre.stats@[f as int]@[tt].w_neg_le
                            + sum_match(batch@, weights@, false, f as int, pre.bins.thresholds@[f as int]@[tt], n as int)
                    },
                decreases row_len - t,
            {
                let thr = self.bins.thresholds[f][t];
                let mut add_pos: u64 = 0;
                let mut add_neg: u64 = 0;
                let mut b2: usize = 0;
                while b2 < n
                    invariant
                        n == batch@.len(),
                        batch@.len() == weights@.len(),
                        batch@.len() <= SCALE,
                        forall|j: int| 0 <= j < weights@.len() ==> #[trigger] weights@[j] <= MAX_WEIGHT,
                        b2 <= n,
                        add_pos == sum_match(batch@, weights@, true, f as int, thr, b2 as int),
                        add_neg == sum_match(batch@, weights@, false, f as int, thr, b2 as int),
                        add_pos <= (b2 as int) * MAX_WEIGHT,
                        add_neg <= (b2 as int) * MAX_WEIGHT,
                    decreases n - b2,
                {
                    proof {
                        assert((b2 + 1 as int) * MAX_WEIGHT == (b2 as int) * MAX_WEIGHT + MAX_WEIGHT)
                            by (nonlinear_arith);
                        assert((SCALE as int) * MAX_WEIGHT < 0x8000_0000_0000_0000int)
                            by (nonlinear_arith);
                        assert((b2 + 1 as int) * MAX_WEIGHT <= (SCALE as int) * MAX_WEIGHT)
                            by (nonlinear_arith)
                            requires 0 <= b2 + 1 as int <= SCALE as int;
                    }
                    let e = &batch[b2];
                    let w = weights[b2];
                    if w > 0 && e.example.features.len() > f && e.example.features[f] <= thr {
                        if e.example.label > 0 {
                            add_pos = add_pos + w;
                        } else {
                            add_neg = add_neg + w;
                        }
                    }
                    b2 = b2 + 1;
                }
                proof {
                    lemma_match_le_label(batch@, weights@, true, f as int, thr, n as int);
                    lemma_match_le_label(batch@, weights@, false, f as int, thr, n as int);
                    assert(pre.stats@[f as int]@[t as int].w_pos_le <= pre.total_pos);
                    assert(pre.stats@[f as int]@[t as int].w_neg_le <= pre.total_neg);
                }
                let s = self.stats[f][t];
                new_row.push(CandidateStats {
                    w_pos_le: s.w_pos_le + add_pos,
                    w_neg_le: s.w_neg_le + add_neg,
                });
                t = t + 1;
            }
            self.stats.set(f, new_row);
            proof {
                assert forall|g: int, tt: int|
                    0 <= g < self.stats@.len() && 0 <= tt < self.stats@[g]@.len() implies {
                    &&& (#[trigger] self.stats@[g]@[tt]).w_pos_le <= self.total_pos
                    &&& self.stats@[g]@[tt].w_neg_le <= self.total_neg
                } by {
                    if g == f {
                        lemma_match_le_label(
                            batch@, weights@, true, g, pre.bins.thresholds@[g]@[tt], n as int);
                        lemma_match_le_label(
                            batch@, weights@, false, g, pre.bins.thresholds@[g]@[tt], n as int);
                        assert(pre.stats@[g]@[tt].w_pos_le <= pre.total_pos);
                        assert(pre.stats@[g]@[tt].w_neg_le <= pre.total_neg);
                    }
                }
            }
            f = f + 1;
        }
        proof {
            assert(Learner::accumulated(pre, *self, batch@, weights@));
        }
        // search for the best active candidate
        let mut best_f: usize = 0;
        let mut best_t: usize = 0;
        let mut best_edge: u64 = 0;
        let mut found: bool = false;
        let mut f: usize = 0;
        while f < self.stats.len()
            invariant
                self.wf(),
                f <= self.stats@.len(),
                found ==> {
                    &&& best_f < self.stats@.len()
                    &&& best_t < self.stats@[best_f as int]@.len()
                    &&& self.spec_active(best_f as int, best_t as int)
                    &&& best_edge == self.spec_edge(best_f as int, best_t as int)
                    &&& best_edge <= SCALE / 2
                },
                forall|g: int, t: int| 0 <= g < f && 0 <= t < self.stats@[g]@.len()
                    && self.spec_active(g, t)
                    ==> #[trigger] self.spec_edge(g, t) <= (if found { best_edge as int } else { -1 }),
            decreases self.stats@.len() - f,
        {
            let row_len = self.stats[f].len();
            let mut t: usize = 0;
            while t < row_len
                invariant
                    self.wf(),
                    f < self.stats@.len(),
                    row_len == self.stats@[f as int]@.len(),
                    t <= row_len,
                    found ==> {
                        &&& best_f < self.stats@.len()
                        &&& best_t < self.stats@[best_f as int]@.len()
                        &&& self.spec_active(best_f as int, best_t as int)
                        &&& best_edge == self.spec_edge(best_f as int, best_t as int)
                        &&& best_edge <= SCALE / 2
                    },
                    forall|g: int, tt: int| 0 <= g < f && 0 <= tt < self.stats@[g]@.len()
                        && self.spec_active(g, tt)
                        ==> #[trigger] self.spec_edge(g, tt) <= (if found { best_edge as int } else { -1 }),
                    forall|tt: int| 0 <= tt < t && self.spec_active(f as int, tt)
                        ==> #[trigger] self.spec_edge(f as int, tt) <= (if found { best_edge as int } else { -1 }),
                decreases row_len - t,
            {
                let s = self.stats[f][t];
                let pos_gt = self.total_pos - s.w_pos_le;
                let neg_gt = self.total_neg - s.w_neg_le;
                if pos_gt + neg_gt > 0 {
                    let e = self.edge_at(f, t);
                    if !found || e > best_edge {
                        best_f = f;
                        best_t = t;
                        best_edge = e;
                        found = true;
                    }
                }
                t = t + 1;
            }
            f = f + 1;
        }
        if found && best_edge >= self.gamma && self.num_scanned >= self.min_examples {
            let s = self.stats[best_f][best_t];
            let pos_gt = self.total_pos - s.w_pos_le;
            let neg_gt = self.total_neg - s.w_neg_le;
            let pred_left = half_ln_ratio(s.w_pos_le + 1, s.w_neg_le + 1);
            let pred_right = half_ln_ratio(pos_gt + 1, neg_gt + 1);
            let threshold = self.bins.thresholds[best_f][best_t];
            let candidate = Candidate {
                feature: best_f,
                threshold,
                edge: best_edge,
                pred_left,
                pred_right,
            };
            proof {
                // witness: the tracked best pair carries the candidate
                let f = best_f as int;
                let t = best_t as int;
                assert(candidate.pred_left == spec_half_ln_ratio(
                    self.stats@[f]@[t].w_pos_le + 1,
                    self.stats@[f]@[t].w_neg_le + 1,
                ));
                assert(self.spec_valid_candidate(candidate));
            }
            return LearnerOutcome::Found(candidate);
        }
        LearnerOutcome::Scanning
    }
}

/// The absolute value of an integer.
pub open spec fn abs_int(v: int) -> int {
    if v >= 0 {
        v
    } else {
        -v
    }
}

/// Zeroed statistics rows parallel to the bins.
fn zero_stats(bins: &Bins) -> (r: Vec<Vec<CandidateStats>>)
    ensures
        r@.len() == bins.thresholds@.len(),
        forall|f: int| 0 <= f < r@.len()
            ==> (#[trigger] r@[f])@.len() == bins.thresholds@[f]@.len(),
        forall|f: int, t: int| 0 <= f < r@.len() && 0 <= t < r@[f]@.len()
            ==> (#[trigger] r@[f]@[t]).w_pos_le == 0 && r@[f]@[t].w_neg_le == 0,
{
    let mut r: Vec<Vec<CandidateStats>> = Vec::new();
    let mut f: usize = 0;
    while f < bins.thresholds.len()
        invariant
            f <= bins.thresholds@.len(),
            r@.len() == f,
            forall|g: int| 0 <= g < r@.len()
                ==> (#[trigger] r@[g])@.len() == bins.thresholds@[g]@.len(),
            forall|g: int, t: int| 0 <= g < r@.len() && 0 <= t < r@[g]@.len()
                ==> (#[trigger] r@[g]@[t]).w_pos_le == 0 && r@[g]@[t].w_neg_le == 0,
        decreases bins.thresholds@.len() - f,
    {
        let row_len = bins.thresholds[f].len();
        let mut row: Vec<CandidateStats> = Vec::new();
        let mut t: usize = 0;
        while t < row_len
            invariant
                t <= row_len,
                row@.len() == t,
                forall|tt: int| 0 <= tt < row@.len()
                    ==> (#[trigger] row@[tt]).w_pos_le == 0 && row@[tt].w_neg_le == 0,
            decreases row_len - t,
        {
            row.push(CandidateStats { w_pos_le: 0, w_neg_le: 0 });
            t = t + 1;
        }
        r.push(row);
        f = f + 1;
    }
    r
}

} // verus!
