//! Double-buffered sample loader.
//!
//! One buffer feeds batches to the weak learner while the sampler assembles
//! the next sample set; `try_switch` adopts a finished set. The loader keeps
//! the effective sample size (ESS) of the live buffer up to date: it is
//! recomputed on every full scan of the buffer and after every score update.

use vstd::prelude::*;
use vstd::pervasive::VecAdditionalExecFns;
use vstd::slice::slice_subrange;
use crate::channel;
use crate::data::BASE_SCORE_LIMIT;
use crate::data::ExampleInSampleSet;
use crate::data::ExampleWithScore;
use crate::data::Signal;
use crate::fixed::MAX_WEIGHT;
use crate::fixed::SCALE;
use crate::fixed::ess_spec;
use crate::fixed::lemma_ess_bounds;
use crate::fixed::sum_weights;
use crate::fixed::sum_weight_squares;
use crate::fixed::spec_weight_of_margin;
use crate::fixed::weight_of_margin;
use crate::tree::MAX_MODEL_SIZE;
use crate::tree::Model;
use crate::tree::PRED_LIMIT;
use crate::tree::lemma_predict_range_additive;
use crate::tree::lemma_prefix_predicts_alike;
use crate::tree::spec_predict_range;

verus! {

/// Where the scan pointer lands after reading one batch: it advances by the
/// batch size and wraps to the start when it crosses the buffer size.
pub open spec fn spec_advance(cur: int, batch: int, size: int) -> int {
    if cur + batch >= size {
        0
    } else {
        cur + batch
    }
}

/// How many channel messages one switch attempt will take before giving up.
pub const GATHER_FUEL: u64 = 2_000_000;

/// How many switch attempts a construction with `init_block` makes before
/// handing back a loader without a live buffer.
pub const INIT_RETRY_LIMIT: u64 = 1_000;

/// An example as it enters a freshly adopted buffer: its current score and
/// model length still equal its base score and length.
pub open spec fn fresh_from_sampler(e: ExampleInSampleSet) -> bool {
    &&& e.curr_score == e.base_score
    &&& e.curr_len == e.base_len
    &&& e.wf()
}

/// A sampler score clamped into the range the buffer admits.
pub open spec fn spec_clamped_score(s: int) -> int {
    if s > BASE_SCORE_LIMIT {
        BASE_SCORE_LIMIT as int
    } else if s < -BASE_SCORE_LIMIT {
        -(BASE_SCORE_LIMIT as int)
    } else {
        s
    }
}

/// A sampler model length capped at the model-size ceiling.
pub open spec fn spec_capped_len(l: int) -> int {
    if l > MAX_MODEL_SIZE {
        MAX_MODEL_SIZE as int
    } else {
        l
    }
}

/// The buffered example `e` is the delivered example `src`, adopted: same
/// features and label, base and current score both at the (clamped)
/// delivered score, base and current model length both at the (capped)
/// delivered length.
pub open spec fn adopted_from(src: ExampleWithScore, e: ExampleInSampleSet) -> bool {
    &&& e.example.features@ == src.example.features@
    &&& e.example.label == src.example.label
    &&& e.base_score == spec_clamped_score(src.score as int)
    &&& e.base_len == spec_capped_len(src.model_len as int)
    &&& e.curr_score == e.base_score
    &&& e.curr_len == e.base_len
}

/// Double-buffered sample set with ESS tracking.
pub struct BufferLoader {
    /// Number of examples in a full live buffer.
    pub size: usize,
    /// Number of examples handed out per batch.
    pub batch_size: usize,
    /// Number of batches per full scan of the buffer.
    pub num_batch: usize,
    /// The live buffer; empty until the first sample set is adopted.
    pub examples: Vec<ExampleInSampleSet>,
    /// The partially gathered next sample set.
    pub pending: Vec<ExampleWithScore>,
    /// Incoming examples from the sampler, each with a repeat count.
    pub gather_new_sample: crossbeam_channel::Receiver<(ExampleWithScore, u32)>,
    /// Start/stop signals to the sampler.
    pub sampling_signal_channel: crossbeam_channel::Sender<Signal>,
    /// Blocking mode gathers a whole sample set on each switch attempt;
    /// non-blocking mode polls and keeps the current buffer when none is ready.
    pub blocking: bool,
    /// Effective sample size of the live buffer, fixed point in `[0, SCALE]`.
    pub ess: u64,
    /// Scan pointer into the live buffer.
    pub curr_example: usize,
    /// Optional ESS floor carried to packets; the loader only stores it.
    pub min_ess: Option<u64>,
    /// The example weights behind the last ESS computation.
    pub weights_snapshot: Ghost<Seq<u64>>,
    /// The gathered sample set behind the last adopted buffer.
    pub adopted_snapshot: Ghost<Seq<ExampleWithScore>>,
}

impl BufferLoader {
    /// Structural invariant of the loader.
    pub open spec fn wf(self) -> bool {
        &&& 1 <= self.batch_size <= self.size <= SCALE
        &&& self.num_batch == ((self.size + self.batch_size - 1) as int) / (self.batch_size as int)
        &&& (self.examples@.len() == 0 || self.examples@.len() == self.size)
        &&& self.curr_example < self.size
        &&& forall|i: int| 0 <= i < self.examples@.len() ==> (#[trigger] self.examples@[i]).wf()
        &&& self.pending@.len() <= self.size
        &&& forall|i: int| 0 <= i < self.pending@.len() ==> {
            &&& -BASE_SCORE_LIMIT <= (#[trigger] self.pending@[i]).score <= BASE_SCORE_LIMIT
            &&& self.pending@[i].model_len <= MAX_MODEL_SIZE
        }
        &&& self.ess <= SCALE
    }

    /// The configuration fields never change after construction.
    pub open spec fn same_config(self, other: BufferLoader) -> bool {
        &&& self.size == other.size
        &&& self.batch_size == other.batch_size
        &&& self.num_batch == other.num_batch
        &&& self.blocking == other.blocking
        &&& self.min_ess == other.min_ess
    }

    /// Create a loader. In non-blocking mode the sampler is started at once;
    /// with `init_block` set, the call waits until a first sample set has
    /// been gathered and adopted.
    pub fn new(
        size: usize,
        batch_size: usize,
        gather_new_sample: crossbeam_channel::Receiver<(ExampleWithScore, u32)>,
        sampling_signal_channel: crossbeam_channel::Sender<Signal>,
        blocking: bool,
        init_block: bool,
        min_ess: Option<u64>,
    ) -> (r: BufferLoader)
        requires
            1 <= batch_size <= size <= SCALE,
        ensures
            r.wf(),
            r.size == size,
            r.batch_size == batch_size,
            r.blocking == blocking,
            r.min_ess == min_ess,
            r.ess == SCALE,
            r.curr_example == 0,
            !init_block ==> (r.examples@.len() == 0 && r.pending@.len() == 0),
    {
        let num_batch = (size + batch_size - 1) / batch_size;
        let mut loader = BufferLoader {
            size,
            batch_size,
            num_batch,
            examples: Vec::new(),
            pending: Vec::new(),
            gather_new_sample,
            sampling_signal_channel,
            blocking,
            ess: SCALE,
            curr_example: 0,
            min_ess,
            weights_snapshot: Ghost(Seq::empty()),
            adopted_snapshot: Ghost(Seq::empty()),
        };
        if !loader.blocking {
            channel::send(&loader.sampling_signal_channel, Signal::START);
        }
        if init_block {
            let mut attempts: u64 = 0;
            while attempts < INIT_RETRY_LIMIT
                invariant
                    loader.wf(),
                    loader.size == size,
                    loader.batch_size == batch_size,
                    loader.blocking == blocking,
                    loader.min_ess == min_ess,
                    loader.ess == SCALE,
                    loader.curr_example == 0,
                decreases INIT_RETRY_LIMIT - attempts,
            {
                if loader.try_switch() {
                    break;
                }
                attempts = attempts + 1;
            }
        }
        loader
    }

    /// Number of `get_next_batch` calls per full scan of the live buffer.
    pub fn get_num_batches(&self) -> (r: usize)
        ensures
            r == self.num_batch,
    {
        self.num_batch
    }

    /// Append up to `count` copies of one incoming example to the pending
    /// buffer, stopping when the pending buffer is full. Scores outside the
    /// admissible range are clamped; model lengths are capped.
    fn push_copies(&mut self, ex: ExampleWithScore, count: u32)
        requires
            old(self).wf(),
        ensures
            final(self).wf(),
            old(self).same_config(*final(self)),
            final(self).examples@ == old(self).examples@,
            final(self).curr_example == old(self).curr_example,
            final(self).ess == old(self).ess,
            final(self).weights_snapshot == old(self).weights_snapshot,
            final(self).adopted_snapshot == old(self).adopted_snapshot,
            final(self).pending@.len() == old(self).pending@.len()
                + (if count as int <= old(self).size - old(self).pending@.len() {
                    count as int
                } else {
                    old(self).size - old(self).pending@.len()
                }),
            forall|j: int| 0 <= j < old(self).pending@.len()
                ==> #[trigger] final(self).pending@[j] == old(self).pending@[j],
            forall|j: int| old(self).pending@.len() <= j < final(self).pending@.len() ==> {
                let p = #[trigger] final(self).pending@[j];
                &&& p.example.features@ == ex.example.features@
                &&& p.example.label == ex.example.label
                &&& p.score == spec_clamped_score(ex.score as int)
                &&& p.model_len == spec_capped_len(ex.model_len as int)
            },
    {
        let score: i64 = if ex.score > BASE_SCORE_LIMIT {
            BASE_SCORE_LIMIT
        } else if ex.score < -BASE_SCORE_LIMIT {
            -BASE_SCORE_LIMIT
        } else {
            ex.score
        };
        let model_len: usize = if ex.model_len > MAX_MODEL_SIZE {
            MAX_MODEL_SIZE
        } else {
            ex.model_len
        };
        let mut n: u32 = 0;
        while n < count && self.pending.len() < self.size
            invariant
                self.wf(),
                old(self).same_config(*self),
                self.examples@ == old(self).examples@,
                self.curr_example == old(self).curr_example,
                self.ess == old(self).ess,
                self.weights_snapshot == old(self).weights_snapshot,
                self.adopted_snapshot == old(self).adopted_snapshot,
                n <= count,
                self.pending@.len() == old(self).pending@.len() + n,
                n < count ==> self.pending@.len() <= self.size,
                score == spec_clamped_score(ex.score as int),
                model_len == spec_capped_len(ex.model_len as int),
                -BASE_SCORE_LIMIT <= score <= BASE_SCORE_LIMIT,
                model_len <= MAX_MODEL_SIZE,
                forall|j: int| 0 <= j < old(self).pending@.len()
                    ==> #[trigger] self.pending@[j] == old(self).pending@[j],
                forall|j: int| old(self).pending@.len() <= j < self.pending@.len() ==> {
                    let p = #[trigger] self.pending@[j];
                    &&& p.example.features@ == ex.example.features@
                    &&& p.example.label == ex.example.label
                    &&& p.score == spec_clamped_score(ex.score as int)
                    &&& p.model_len == spec_capped_len(ex.model_len as int)
                },
            decreases count - n,
        {
            self.pending.push(ExampleWithScore {
                example: ex.example.duplicate(),
                score,
                model_len,
            });
            n = n + 1;
        }
    }

    /// Adopt the pending sample set if one is complete.
    ///
    /// In blocking mode this first asks the sampler for a set and gathers it
    /// whole; in non-blocking mode it only drains what the sampler already
    /// delivered. On success the live buffer is replaced by the new set —
    /// every adopted example starts with its current score equal to its base
    /// score — and the scan pointer returns to the start.
    pub fn try_switch(&mut self) -> (r: bool)
        requires
            old(self).wf(),
        ensures
            final(self).wf(),
            old(self).same_config(*final(self)),
            final(self).ess == old(self).ess,
            old(self).pending@.len() >= old(self).size ==> r,
            r ==> {
                &&& final(self).examples@.len() == final(self).size
                &&& forall|i: int| 0 <= i < final(self).examples@.len()
                    ==> fresh_from_sampler(#[trigger] final(self).examples@[i])
                &&& final(self).curr_example == 0
                // the live buffer is exactly the gathered sample set, adopted
                &&& final(self).adopted_snapshot@.len() == final(self).size
                &&& forall|i: int| 0 <= i < final(self).examples@.len()
                    ==> adopted_from(
                        final(self).adopted_snapshot@[i],
                        #[trigger] final(self).examples@[i],
                    )
                // what had been gathered before the call leads the set
                &&& forall|j: int| 0 <= j < old(self).pending@.len()
                    ==> #[trigger] final(self).adopted_snapshot@[j] == old(self).pending@[j]
                &&& final(self).pending@.len() == 0
            },
            !r ==> {
                &&& final(self).examples@ == old(self).examples@
                &&& final(self).curr_example == old(self).curr_example
                &&& final(self).adopted_snapshot == old(self).adopted_snapshot
                // gathering only appends to the pending set
                &&& final(self).pending@.len() >= old(self).pending@.len()
                &&& forall|j: int| 0 <= j < old(self).pending@.len()
                    ==> #[trigger] final(self).pending@[j] == old(self).pending@[j]
            },
    {
        let mut fuel: u64 = GATHER_FUEL;
        if self.blocking {
            channel::send(&self.sampling_signal_channel, Signal::START);
            while fuel > 0 && self.pending.len() < self.size
                invariant
                    self.wf(),
                    old(self).same_config(*self),
                    self.examples@ == old(self).examples@,
                    self.curr_example == old(self).curr_example,
                    self.ess == old(self).ess,
                    self.adopted_snapshot == old(self).adopted_snapshot,
                    self.pending@.len() >= old(self).pending@.len(),
                    forall|j: int| 0 <= j < old(self).pending@.len()
                        ==> #[trigger] self.pending@[j] == old(self).pending@[j],
                decreases fuel,
            {
                match channel::recv(&self.gather_new_sample) {
                    Some((ex, count)) => {
                        self.push_copies(ex, count);
                    },
                    None => {
                        // the sampler is gone; give up on this switch
                        break;
                    },
                }
                fuel = fuel - 1;
            }
            channel::send(&self.sampling_signal_channel, Signal::STOP);
        } else {
            while fuel > 0 && self.pending.len() < self.size
                invariant
                    self.wf(),
                    old(self).same_config(*self),
                    self.examples@ == old(self).examples@,
                    self.curr_example == old(self).curr_example,
                    self.ess == old(self).ess,
                    self.adopted_snapshot == old(self).adopted_snapshot,
                    self.pending@.len() >= old(self).pending@.len(),
                    forall|j: int| 0 <= j < old(self).pending@.len()
                        ==> #[trigger] self.pending@[j] == old(self).pending@[j],
                decreases fuel,
            {
                match channel::try_recv(&self.gather_new_sample) {
                    Some((ex, count)) => {
                        self.push_copies(ex, count);
                    },
                    None => {
                        break;
                    },
                }
                fuel = fuel - 1;
            }
        }
        if self.pending.len() >= self.size {
            proof {
                assert(self.pending@.len() == self.size);
            }
            self.adopted_snapshot = Ghost(self.pending@);
            let mut adopted: Vec<ExampleInSampleSet> = Vec::new();
            let mut i: usize = 0;
            while i < self.pending.len()
                invariant
                    self.wf(),
                    old(self).same_config(*self),
                    self.examples@ == old(self).examples@,
                    self.curr_example == old(self).curr_example,
                    self.ess == old(self).ess,
                    self.adopted_snapshot@ == self.pending@,
                    forall|j: int| 0 <= j < old(self).pending@.len()
                        ==> #[trigger] self.pending@[j] == old(self).pending@[j],
                    i <= self.pending@.len(),
                    adopted@.len() == i,
                    forall|j: int| 0 <= j < adopted@.len()
                        ==> fresh_from_sampler(#[trigger] adopted@[j]),
                    forall|j: int| 0 <= j < adopted@.len()
                        ==> adopted_from(self.pending@[j], #[trigger] adopted@[j]),
                decreases self.pending@.len() - i,
            {
                let e = &self.pending[i];
                proof {
                    // clamped and capped on the way into the pending set
                    assert(-BASE_SCORE_LIMIT <= self.pending@[i as int].score <= BASE_SCORE_LIMIT);
                    assert(self.pending@[i as int].model_len <= MAX_MODEL_SIZE);
                }
                adopted.push(ExampleInSampleSet {
                    example: e.example.duplicate(),
                    base_score: e.score,
                    base_len: e.model_len,
                    curr_score: e.score,
                    curr_len: e.model_len,
                });
                i = i + 1;
            }
            self.examples = adopted;
            self.pending.clear();
            self.curr_example = 0;
            true
        } else {
            false
        }
    }

    /// Read the next batch of examples.
    ///
    /// With `allow_switch` set, a finished new sample set is adopted first.
    /// The scan pointer advances by one batch; crossing the end of the
    /// buffer recomputes the ESS and restarts the scan. The returned slice
    /// is the window of the live buffer at the new pointer.
    pub fn get_next_batch(&mut self, allow_switch: bool) -> (r: &[ExampleInSampleSet])
        requires
            old(self).wf(),
            old(self).examples@.len() == old(self).size,
        ensures
            final(self).wf(),
            old(self).same_config(*final(self)),
            final(self).examples@.len() == final(self).size,
            ({
                ||| (final(self).examples@ == old(self).examples@
                    // no switch: the pending set was at most appended to
                    && final(self).pending@.len() >= old(self).pending@.len()
                    && (forall|j: int| 0 <= j < old(self).pending@.len()
                        ==> #[trigger] final(self).pending@[j] == old(self).pending@[j])
                    && final(self).curr_example == spec_advance(
                        old(self).curr_example as int,
                        old(self).batch_size as int,
                        old(self).size as int,
                    ))
                ||| (allow_switch
                    && (forall|i: int| 0 <= i < final(self).examples@.len()
                        ==> fresh_from_sampler(#[trigger] final(self).examples@[i]))
                    // the new live buffer is the gathered sample set,
                    // adopted, and the pending set was emptied
                    && final(self).pending@.len() == 0
                    && final(self).adopted_snapshot@.len() == final(self).size
                    && (forall|i: int| 0 <= i < final(self).examples@.len()
                        ==> adopted_from(
                            final(self).adopted_snapshot@[i],
                            #[trigger] final(self).examples@[i],
                        ))
                    && final(self).curr_example == spec_advance(
                        0,
                        old(self).batch_size as int,
                        old(self).size as int,
                    ))
            }),
            final(self).curr_example != 0 ==> final(self).ess == old(self).ess,
            final(self).curr_example == 0 ==> {
                &&& final(self).ess as int == ess_spec(final(self).weights_snapshot@)
                &&& final(self).weights_snapshot@.len() == final(self).examples@.len()
                &&& forall|i: int| 0 <= i < final(self).examples@.len()
                    ==> #[trigger] final(self).weights_snapshot@[i]
                        == spec_weight_of_margin(final(self).examples@[i].spec_margin())
            },
            r@.len() >= 1,
            r@ == final(self).examples@.subrange(
                final(self).curr_example as int,
                if final(self).curr_example + final(self).batch_size <= final(self).size {
                    final(self).curr_example + final(self).batch_size
                } else {
                    final(self).size as int
                },
            ),
    {
        if allow_switch {
            self.try_switch();
        }
        self.curr_example = self.curr_example + self.batch_size;
        if self.curr_example >= self.size {
            self.curr_example = 0;
            self.update_ess();
        }
        let tail = if self.curr_example + self.batch_size <= self.size {
            self.curr_example + self.batch_size
        } else {
            self.size
        };
        slice_subrange(self.examples.as_slice(), self.curr_example, tail)
    }

    /// Advance every buffered example's current score to the given model:
    /// each example gains the predictions of the model nodes between its
    /// current length and the model's length, then the ESS is recomputed.
    pub fn update_scores(&mut self, model: &Model)
        requires
            old(self).wf(),
            model.wf(),
            model.nodes@.len() >= 1,
            old(self).examples@.len() == old(self).size,
        ensures
            final(self).wf(),
            old(self).same_config(*final(self)),
            final(self).curr_example == old(self).curr_example,
            final(self).examples@.len() == old(self).examples@.len(),
            forall|i: int| 0 <= i < old(self).examples@.len() ==> {
                let e0 = #[trigger] old(self).examples@[i];
                let e1 = final(self).examples@[i];
                &&& (e0.curr_len <= model.nodes@.len() ==> {
                    &&& e1.example.features@ == e0.example.features@
                    &&& e1.example.label == e0.example.label
                    &&& e1.base_score == e0.base_score
                    &&& e1.base_len == e0.base_len
                    &&& e1.curr_len == model.nodes@.len()
                    &&& e1.curr_score == e0.curr_score + spec_predict_range(
                        model.nodes@,
                        e0.example.features@,
                        e0.curr_len as int,
                        model.nodes@.len() as int,
                    )
                })
                &&& (e0.curr_len > model.nodes@.len() ==> e1 == e0)
            },
            final(self).ess as int == ess_spec(final(self).weights_snapshot@),
            final(self).weights_snapshot@.len() == final(self).examples@.len(),
            forall|i: int| 0 <= i < final(self).examples@.len()
                ==> #[trigger] final(self).weights_snapshot@[i]
                    == spec_weight_of_margin(final(self).examples@[i].spec_margin()),
    {
        let model_size = model.size();
        let mut i: usize = 0;
        while i < self.examples.len()
            invariant
                self.wf(),
                model.wf(),
                model.nodes@.len() >= 1,
                old(self).same_config(*self),
                self.curr_example == old(self).curr_example,
                self.pending@ == old(self).pending@,
                self.ess == old(self).ess,
                model_size == model.nodes@.len(),
                i <= self.examples@.len(),
                self.examples@.len() == old(self).examples@.len(),
                self.examples@.len() == self.size,
                forall|j: int| i <= j < self.examples@.len()
                    ==> #[trigger] self.examples@[j] == old(self).examples@[j],
                forall|j: int| 0 <= j < i ==> {
                    let e0 = #[trigger] old(self).examples@[j];
                    let e1 = self.examples@[j];
                    &&& (e0.curr_len <= model.nodes@.len() ==> {
                        &&& e1.example.features@ == e0.example.features@
                        &&& e1.example.label == e0.example.label
                        &&& e1.base_score == e0.base_score
                        &&& e1.base_len == e0.base_len
                        &&& e1.curr_len == model.nodes@.len()
                        &&& e1.curr_score == e0.curr_score + spec_predict_range(
                            model.nodes@,
                            e0.example.features@,
                            e0.curr_len as int,
                            model.nodes@.len() as int,
                        )
                    })
                    &&& (e0.curr_len > model.nodes@.len() ==> e1 == e0)
                },
            decreases self.examples@.len() - i,
        {
            let e = &self.examples[i];
            assert(e.wf());
            if e.curr_len > model_size {
                i = i + 1;
                continue;
            }
            let delta = model.predict_range(&e.example.features, e.curr_len, model_size);
            let e = &self.examples[i];
            proof {
                let e0 = self.examples@[i as int];
                assert(-((MAX_MODEL_SIZE - e0.base_len) as int) * PRED_LIMIT
                    <= e0.curr_score - e0.base_score + delta
                    <= ((MAX_MODEL_SIZE - e0.base_len) as int) * PRED_LIMIT) by (nonlinear_arith)
                    requires
                        -((e0.curr_len - e0.base_len) as int) * PRED_LIMIT
                            <= e0.curr_score - e0.base_score
                            <= ((e0.curr_len - e0.base_len) as int) * PRED_LIMIT,
                        -((model.nodes@.len() - e0.curr_len) as int) * PRED_LIMIT
                            <= delta
                            <= ((model.nodes@.len() - e0.curr_len) as int) * PRED_LIMIT,
                        e0.base_len <= e0.curr_len <= model.nodes@.len() <= MAX_MODEL_SIZE;
                assert((MAX_MODEL_SIZE as int) * PRED_LIMIT == 100_000_000_000_000int * 1_000_000int / 1_000_000int);
                assert(((MAX_MODEL_SIZE - e0.base_len) as int) * PRED_LIMIT
                    <= (MAX_MODEL_SIZE as int) * PRED_LIMIT) by (nonlinear_arith)
                    requires 0 <= (MAX_MODEL_SIZE - e0.base_len) as int <= MAX_MODEL_SIZE as int;
            }
            let updated = ExampleInSampleSet {
                example: e.example.duplicate(),
                base_score: e.base_score,
                base_len: e.base_len,
                curr_score: e.curr_score + delta,
                curr_len: model_size,
            };
            self.examples.set(i, updated);
            proof {
                let e0 = old(self).examples@[i as int];
                let e1 = self.examples@[i as int];
                assert(e1.wf()) by (nonlinear_arith)
                    requires
                        -BASE_SCORE_LIMIT <= e1.base_score <= BASE_SCORE_LIMIT,
                        e1.base_len <= e1.curr_len <= MAX_MODEL_SIZE,
                        -((e1.curr_len - e1.base_len) as int) * PRED_LIMIT
                            <= e1.curr_score - e1.base_score
                            <= ((e1.curr_len - e1.base_len) as int) * PRED_LIMIT;
                assert(e1.example.features@ == e0.example.features@);
                assert(e1.example.label == e0.example.label);
                assert(e1.base_score == e0.base_score);
                assert(e1.base_len == e0.base_len);
                assert(e1.curr_len == model.nodes@.len());
                assert(e1.curr_score == e0.curr_score + spec_predict_range(
                    model.nodes@,
                    e0.example.features@,
                    e0.curr_len as int,
                    model.nodes@.len() as int,
                ));
            }
            i = i + 1;
        }
        self.update_ess();
    }

    /// Recompute the effective sample size of the live buffer from the
    /// weights of its examples.
    fn update_ess(&mut self)
        requires
            old(self).wf(),
            1 <= old(self).examples@.len(),
        ensures
            final(self).wf(),
            old(self).same_config(*final(self)),
            final(self).examples@ == old(self).examples@,
            final(self).pending@ == old(self).pending@,
            final(self).curr_example == old(self).curr_example,
            final(self).adopted_snapshot == old(self).adopted_snapshot,
            final(self).ess as int == ess_spec(final(self).weights_snapshot@),
            final(self).weights_snapshot@.len() == final(self).examples@.len(),
            forall|i: int| 0 <= i < final(self).examples@.len()
                ==> #[trigger] final(self).weights_snapshot@[i]
                    == spec_weight_of_margin(final(self).examples@[i].spec_margin()),
    {
        let n = self.examples.len();
        let mut ws: Vec<u64> = Vec::new();
        let mut i: usize = 0;
        while i < n
            invariant
                self.wf(),
                n == self.examples@.len(),
                1 <= n,
                i <= n,
                ws@.len() == i,
                forall|j: int| 0 <= j < ws@.len() ==> #[trigger] ws@[j] <= MAX_WEIGHT,
                forall|j: int| 0 <= j < ws@.len() ==> #[trigger] ws@[j]
                    == spec_weight_of_margin(self.examples@[j].spec_margin()),
            decreases n - i,
        {
            let e = &self.examples[i];
            assert(e.wf());
            let m = e.margin();
            ws.push(weight_of_margin(m));
            i = i + 1;
        }
        let mut sum: u128 = 0;
        let mut sumsq: u128 = 0;
        let mut j: usize = 0;
        while j < n
            invariant
                n == ws@.len(),
                j <= n,
                n <= SCALE,
                forall|t: int| 0 <= t < ws@.len() ==> #[trigger] ws@[t] <= MAX_WEIGHT,
                sum == sum_weights(ws@.subrange(0, j as int)),
                sumsq == sum_weight_squares(ws@.subrange(0, j as int)),
                sum <= (j as int) * (MAX_WEIGHT as int),
                sumsq <= (j as int) * (MAX_WEIGHT as int) * (MAX_WEIGHT as int),
            decreases n - j,
        {
            let w = ws[j];
            proof {
                let pre = ws@.subrange(0, j as int);
                let post = ws@.subrange(0, j + 1 as int);
                assert(post.drop_last() =~= pre);
                assert(post.last() == ws@[j as int]);
                assert(sum + w <= (j + 1 as int) * (MAX_WEIGHT as int)) by (nonlinear_arith)
                    requires
                        sum <= (j as int) * (MAX_WEIGHT as int),
                        w <= MAX_WEIGHT;
                assert(sumsq + (w as int) * (w as int)
                    <= (j + 1 as int) * (MAX_WEIGHT as int) * (MAX_WEIGHT as int)) by (nonlinear_arith)
                    requires
                        sumsq <= (j as int) * (MAX_WEIGHT as int) * (MAX_WEIGHT as int),
                        w <= MAX_WEIGHT;
                assert((SCALE as int) * (MAX_WEIGHT as int) * (MAX_WEIGHT as int)
                    < 0x1_0000_0000_0000_0000_0000_0000_0000_0000int) by (nonlinear_arith);
                assert((j + 1 as int) * (MAX_WEIGHT as int) * (MAX_WEIGHT as int)
                    <= (SCALE as int) * (MAX_WEIGHT as int) * (MAX_WEIGHT as int)) by (nonlinear_arith)
                    requires 0 <= j + 1 as int <= SCALE as int;
            }
            sum = sum + (w as u128);
            sumsq = sumsq + (w as u128) * (w as u128);
            j = j + 1;
        }
        proof {
            assert(ws@.subrange(0, n as int) =~= ws@);
        }
        if sum == 0 {
            self.ess = 0;
            self.weights_snapshot = Ghost(ws@);
            assert(ess_spec(ws@) == 0) by {
                crate::fixed::lemma_sum_weights_nonneg(ws@);
            };
        } else {
            proof {
                lemma_ess_bounds(ws@);
                assert((sum as int) * (sum as int) * (SCALE as int)
                    <= ((SCALE as int) * (MAX_WEIGHT as int)) * ((SCALE as int) * (MAX_WEIGHT as int)) * (SCALE as int))
                    by (nonlinear_arith)
                    requires 0 <= sum as int <= (SCALE as int) * (MAX_WEIGHT as int);
                assert(((SCALE as int) * (MAX_WEIGHT as int)) * ((SCALE as int) * (MAX_WEIGHT as int)) * (SCALE as int)
                    < 0x1_0000_0000_0000_0000_0000_0000_0000_0000int) by (nonlinear_arith);
                assert(sum <= (n as int) * (MAX_WEIGHT as int)) by (nonlinear_arith)
                    requires
                        sum <= (n as int) * (MAX_WEIGHT as int);
                assert((n as u128) * sumsq
                    <= (SCALE as int) * ((SCALE as int) * (MAX_WEIGHT as int) * (MAX_WEIGHT as int)))
                    by (nonlinear_arith)
                    requires
                        0 <= sumsq <= (SCALE as int) * (MAX_WEIGHT as int) * (MAX_WEIGHT as int),
                        1 <= n <= SCALE;
                crate::fixed::lemma_cauchy_schwarz(ws@);
                crate::fixed::lemma_sum_weights_nonneg(ws@);
                let s = sum_weights(ws@);
                let q = sum_weight_squares(ws@);
                assert(q > 0) by (nonlinear_arith)
                    requires
                        s * s <= ws@.len() * q,
                        s > 0,
                        q >= 0;
                assert((n as int) * (sumsq as int) > 0) by (nonlinear_arith)
                    requires n >= 1, sumsq as int > 0;
            }
            let num: u128 = sum * sum * (SCALE as u128);
            let den: u128 = (n as u128) * sumsq;
            let ess128: u128 = num / den;
            proof {
                assert(num as int == sum_weights(ws@) * sum_weights(ws@) * SCALE);
                assert(den as int == ws@.len() * sum_weight_squares(ws@));
                assert(ess128 as int == ess_spec(ws@));
                assert(0 < ess_spec(ws@) <= SCALE);
            }
            self.ess = ess128 as u64;
            self.weights_snapshot = Ghost(ws@);
        }
    }
}

/// Score consistency across a model update: if an example's score gap was
/// exactly the predictions of the model slice `[base_len, curr_len)`, and
/// the score is advanced by the slice `[curr_len, len(m2))` of a model that
/// extends the old one, the gap is exactly the predictions of
/// `[base_len, len(m2))` under the new model. Applied inductively over a
/// worker's run, every buffered example's score gap equals the prediction
/// sum of its model slice after any interleaving of `get_next_batch` (which
/// never changes scores) and `update_scores`.
pub proof fn lemma_score_consistency(
    e0: ExampleInSampleSet,
    e1: ExampleInSampleSet,
    m1: Model,
    m2: Model,
)
    requires
        m1.prefix_of(m2),
        e0.base_len <= e0.curr_len,
        e0.curr_len <= m1.nodes@.len(),
        e0.curr_score - e0.base_score == spec_predict_range(
            m1.nodes@,
            e0.example.features@,
            e0.base_len as int,
            e0.curr_len as int,
        ),
        e1.example.features@ == e0.example.features@,
        e1.base_score == e0.base_score,
        e1.base_len == e0.base_len,
        e1.curr_len == m2.nodes@.len(),
        e1.curr_score == e0.curr_score + spec_predict_range(
            m2.nodes@,
            e0.example.features@,
            e0.curr_len as int,
            m2.nodes@.len() as int,
        ),
    ensures
        e1.curr_score - e1.base_score == spec_predict_range(
            m2.nodes@,
            e1.example.features@,
            e1.base_len as int,
            e1.curr_len as int,
        ),
{
    let feats = e0.example.features@;
    lemma_prefix_predicts_alike(m1, m2, feats, e0.base_len as int, e0.curr_len as int);
    lemma_predict_range_additive(
        m2.nodes@,
        feats,
        e0.base_len as int,
        e0.curr_len as int,
        m2.nodes@.len() as int,
    );
}

} // verus!
