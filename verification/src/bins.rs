//! Per-feature histogram bins.
//!
//! For every feature dimension in the scanned range, a sorted list of
//! threshold codes is derived from a sample of the training stream so that
//! the bins between consecutive thresholds hold roughly equal counts.
//! The bins are immutable after construction and shared by all learners.

use vstd::prelude::*;
use vstd::pervasive::VecAdditionalExecFns;
use crate::buffer_loader::BufferLoader;

verus! {

/// Sum of the first `upto` counts, skipping an addend that would overflow
/// (as the scan's total does).
pub open spec fn spec_total_counts(counts: Seq<u64>, upto: int) -> int
    decreases upto,
{
    if upto <= 0 {
        0
    } else {
        let p = spec_total_counts(counts, upto - 1);
        if p + counts[upto - 1] <= u64::MAX {
            p + counts[upto - 1]
        } else {
            p
        }
    }
}

/// Sum of the first `upto` counts, clamped at the numeric ceiling (as the
/// threshold walk's running sum is).
pub open spec fn spec_cum_counts(counts: Seq<u64>, upto: int) -> int
    decreases upto,
{
    if upto <= 0 {
        0
    } else {
        let p = spec_cum_counts(counts, upto - 1);
        if p + counts[upto - 1] <= u64::MAX {
            p + counts[upto - 1]
        } else {
            u64::MAX as int
        }
    }
}

/// The clamped running sum dominates the skipping total.
proof fn lemma_cum_ge_total(counts: Seq<u64>, upto: int)
    ensures
        0 <= spec_total_counts(counts, upto) <= u64::MAX,
        0 <= spec_cum_counts(counts, upto) <= u64::MAX,
        spec_cum_counts(counts, upto) >= spec_total_counts(counts, upto),
    decreases upto,
{
    if upto > 0 {
        lemma_cum_ge_total(counts, upto - 1);
    }
}

/// Any positive count makes the total positive.
proof fn lemma_total_pos(counts: Seq<u64>, upto: int)
    requires
        exists|j: int| 0 <= j < upto && counts[j] >= 1,
    ensures
        spec_total_counts(counts, upto) >= 1,
    decreases upto,
{
    let j = choose|j: int| 0 <= j < upto && counts[j] >= 1;
    if j < upto - 1 {
        lemma_total_pos(counts, upto - 1);
    } else {
        lemma_cum_ge_total(counts, upto - 1);
    }
}

/// The equi-frequency property of a threshold list over one feature's
/// counts row: up to the `i`-th threshold the scan accumulated at least
/// `i + 1` strides' worth of counts, a stride being
/// `max(total / max_bin_size, 1)` — unless the running sum saturated.
pub open spec fn spec_equi_frequency(row: Seq<u64>, thresholds: Seq<u8>, max_bin_size: int) -> bool {
    let total = spec_total_counts(row, 256);
    let stride = if total / max_bin_size >= 1 {
        total / max_bin_size
    } else {
        1
    };
    forall|i: int| 0 <= i < thresholds.len()
        ==> spec_cum_counts(row, #[trigger] thresholds[i] as int + 1) >= (i + 1) * stride
            || spec_cum_counts(row, thresholds[i] as int + 1) == u64::MAX as int
}

/// Strictly ascending threshold codes.
pub open spec fn strictly_sorted(s: Seq<u8>) -> bool {
    forall|i: int, j: int| 0 <= i < j < s.len() ==> s[i] < s[j]
}

/// Immutable per-feature split thresholds.
pub struct Bins {
    /// For each feature index, the sorted candidate thresholds; empty for
    /// features outside the scanned range.
    pub thresholds: Vec<Vec<u8>>,
}

impl Bins {
    /// Every feature's thresholds are strictly ascending.
    pub open spec fn wf(self) -> bool {
        forall|f: int| 0 <= f < self.thresholds@.len()
            ==> strictly_sorted((#[trigger] self.thresholds@[f])@)
    }

    /// Number of feature dimensions covered.
    pub fn num_features(&self) -> (r: usize)
        ensures
            r == self.thresholds@.len(),
    {
        self.thresholds.len()
    }
}

/// Derive equi-frequency thresholds from one feature's value counts.
///
/// `counts[v]` is how often code `v` was seen; at most `max_bin_size`
/// thresholds come back, strictly ascending.
fn thresholds_of_counts(counts: &[u64], max_bin_size: usize) -> (r: Vec<u8>)
    requires
        counts@.len() == 256,
        max_bin_size >= 1,
    ensures
        strictly_sorted(r@),
        r@.len() <= max_bin_size,
        forall|i: int| 0 <= i < r@.len() ==> counts@[#[trigger] r@[i] as int] >= 1,
        (exists|j: int| 0 <= j < 256 && counts@[j] >= 1) ==> r@.len() >= 1,
        spec_equi_frequency(counts@, r@, max_bin_size as int),
{
    let mut total: u64 = 0;
    let mut v: usize = 0;
    while v < 256
        invariant
            v <= 256,
            counts@.len() == 256,
            total == spec_total_counts(counts@, v as int),
        decreases 256 - v,
    {
        proof {
            lemma_cum_ge_total(counts@, v as int);
        }
        if total <= u64::MAX - counts[v] {
            total = total + counts[v];
        }
        v = v + 1;
    }
    let mut r: Vec<u8> = Vec::new();
    if total == 0 {
        proof {
            if exists|j: int| 0 <= j < 256 && counts@[j] >= 1 {
                lemma_total_pos(counts@, 256);
            }
        }
        return r;
    }
    let stride: u64 = if total / (max_bin_size as u64) >= 1 {
        total / (max_bin_size as u64)
    } else {
        1
    };
    proof {
        vstd::arithmetic::div_mod::lemma_div_is_ordered_by_denominator(total as int, 1, max_bin_size as int);
        assert(stride <= total);
    }
    let mut cum: u64 = 0;
    let mut next: u64 = stride;
    proof {
        assert((0int + 1) * (stride as int) == stride as int) by (nonlinear_arith);
    }
    let mut v: usize = 0;
    while v < 256
        invariant
            v <= 256,
            counts@.len() == 256,
            1 <= stride <= total,
            total == spec_total_counts(counts@, 256),
            strictly_sorted(r@),
            r@.len() <= max_bin_size,
            max_bin_size >= 1,
            forall|i: int| 0 <= i < r@.len() ==> #[trigger] r@[i] < v,
            forall|i: int| 0 <= i < r@.len() ==> counts@[#[trigger] r@[i] as int] >= 1,
            cum == spec_cum_counts(counts@, v as int),
            r@.len() == 0 ==> (next == stride && cum < next),
            next as int >= (r@.len() + 1) * stride || next == u64::MAX,
            forall|i: int| 0 <= i < r@.len()
                ==> spec_cum_counts(counts@, #[trigger] r@[i] as int + 1) >= (i + 1) * stride
                    || spec_cum_counts(counts@, r@[i] as int + 1) == u64::MAX as int,
        decreases 256 - v,
    {
        if cum <= u64::MAX - counts[v] {
            cum = cum + counts[v];
        } else {
            cum = u64::MAX;
        }
        if cum >= next && r.len() < max_bin_size && counts[v] >= 1 {
            proof {
                // the new threshold's prefix sum covers one more stride
                assert(cum as int == spec_cum_counts(counts@, v as int + 1));
                if next != u64::MAX {
                    assert(cum as int >= (r@.len() + 1) * stride);
                } else {
                    assert(cum == u64::MAX);
                }
                assert((r@.len() + 2) * stride == (r@.len() + 1) * stride + stride)
                    by (nonlinear_arith);
            }
            r.push(v as u8);
            next = if cum <= u64::MAX - stride {
                cum + stride
            } else {
                u64::MAX
            };
        }
        v = v + 1;
    }
    proof {
        lemma_cum_ge_total(counts@, 256);
        if r@.len() == 0 {
            // the running sum covered the whole table and reached the first
            // stride, so a threshold was pushed
            assert(cum >= total);
            assert(cum >= stride);
            assert(false);
        }
    }
    r
}

/// Scan batches from the loader until `max_sample_size` examples were seen,
/// count per-feature value frequencies, and derive at most `max_bin_size`
/// equi-frequency thresholds for every feature in
/// `[feature_begin, feature_end)`. Besides the bins, the scanned count
/// table comes back as a ghost value (`feature * 256 + value`): every
/// threshold is a value that was actually seen in the scan, and a feature
/// whose scanned values are not all absent gets at least one threshold.
pub fn create_bins(
    max_sample_size: usize,
    max_bin_size: usize,
    feature_begin: usize,
    feature_end: usize,
    loader: &mut BufferLoader,
) -> (r: (Bins, Ghost<Seq<u64>>))
    requires
        old(loader).wf(),
        old(loader).examples@.len() == old(loader).size,
        max_bin_size >= 1,
        feature_begin <= feature_end,
        feature_end <= 100_000,
    ensures
        final(loader).wf(),
        old(loader).same_config(*final(loader)),
        final(loader).examples@.len() == final(loader).size,
        r.0.wf(),
        r.0.thresholds@.len() == feature_end,
        forall|f: int| 0 <= f < r.0.thresholds@.len()
            ==> (#[trigger] r.0.thresholds@[f])@.len() <= max_bin_size,
        r.1@.len() == feature_end * 256,
        forall|f: int| 0 <= f < feature_begin
            ==> (#[trigger] r.0.thresholds@[f])@.len() == 0,
        forall|f: int, t: int| feature_begin <= f < feature_end
            && 0 <= t < r.0.thresholds@[f]@.len()
            ==> r.1@[f * 256 + (#[trigger] r.0.thresholds@[f]@[t]) as int] >= 1,
        forall|f: int| feature_begin <= f < feature_end
            && (exists|j: int| f * 256 <= j < f * 256 + 256 && r.1@[j] >= 1)
            ==> (#[trigger] r.0.thresholds@[f])@.len() >= 1,
        forall|f: int| feature_begin <= f < feature_end
            ==> spec_equi_frequency(
                r.1@.subrange(f * 256, f * 256 + 256),
                (#[trigger] r.0.thresholds@[f])@,
                max_bin_size as int,
            ),
{
    // flat count table: feature * 256 + value
    let mut counts: Vec<u64> = Vec::new();
    let table_len = feature_end * 256;
    while counts.len() < table_len
        invariant
            counts@.len() <= table_len,
            table_len == feature_end * 256,
        decreases table_len - counts@.len(),
    {
        counts.push(0);
    }
    let mut seen: usize = 0;
    while seen < max_sample_size
        invariant
            loader.wf(),
            old(loader).same_config(*loader),
            loader.examples@.len() == loader.size,
            counts@.len() == table_len,
            table_len == feature_end * 256,
            feature_begin <= feature_end,
        decreases max_sample_size - seen,
    {
        let batch = loader.get_next_batch(true);
        let mut b: usize = 0;
        while b < batch.len()
            invariant
                counts@.len() == table_len,
                table_len == feature_end * 256,
                b <= batch@.len(),
                feature_begin <= feature_end,
            decreases batch@.len() - b,
        {
            let feats = &batch[b].example.features;
            let mut f: usize = feature_begin;
            while f < feature_end
                invariant
                    counts@.len() == table_len,
                    table_len == feature_end * 256,
                    feature_begin <= f <= feature_end,
                decreases feature_end - f,
            {
                if f < feats.len() {
                    let v = feats[f];
                    let idx = f * 256 + (v as usize);
                    proof {
                        assert(f * 256 + 256 <= feature_end * 256) by (nonlinear_arith)
                            requires f < feature_end;
                    }
                    let c = counts[idx];
                    if c < u64::MAX {
                        counts.set(idx, c + 1);
                    }
                }
                f = f + 1;
            }
            b = b + 1;
        }
        if batch.len() >= max_sample_size - seen {
            seen = max_sample_size;
        } else {
            seen = seen + batch.len();
        }
    }
    let mut thresholds: Vec<Vec<u8>> = Vec::new();
    let mut f: usize = 0;
    while f < feature_end
        invariant
            counts@.len() == table_len,
            table_len == feature_end * 256,
            feature_begin <= feature_end,
            f <= feature_end,
            max_bin_size >= 1,
            thresholds@.len() == f,
            forall|g: int| 0 <= g < thresholds@.len() ==> {
                &&& strictly_sorted((#[trigger] thresholds@[g])@)
                &&& thresholds@[g]@.len() <= max_bin_size
            },
            forall|g: int| 0 <= g < f && g < feature_begin
                ==> (#[trigger] thresholds@[g])@.len() == 0,
            forall|g: int, t: int| feature_begin <= g < f
                && 0 <= t < thresholds@[g]@.len()
                ==> counts@[g * 256 + (#[trigger] thresholds@[g]@[t]) as int] >= 1,
            forall|g: int| feature_begin <= g < f
                && (exists|j: int| g * 256 <= j < g * 256 + 256 && counts@[j] >= 1)
                ==> (#[trigger] thresholds@[g])@.len() >= 1,
            forall|g: int| feature_begin <= g < f
                ==> spec_equi_frequency(
                    counts@.subrange(g * 256, g * 256 + 256),
                    (#[trigger] thresholds@[g])@,
                    max_bin_size as int,
                ),
        decreases feature_end - f,
    {
        if f < feature_begin {
            thresholds.push(Vec::new());
        } else {
            proof {
                assert(f * 256 + 256 <= feature_end * 256) by (nonlinear_arith)
                    requires f < feature_end;
            }
            let row = vstd::slice::slice_subrange(counts.as_slice(), f * 256, f * 256 + 256);
            let ghost row_view: Seq<u64> = counts@.subrange(f as int * 256, f as int * 256 + 256);
            let picked = thresholds_of_counts(row, max_bin_size);
            proof {
                assert forall|t: int| 0 <= t < picked@.len() implies
                    counts@[f as int * 256 + (#[trigger] picked@[t]) as int] >= 1 by {
                    assert(row_view[picked@[t] as int] >= 1);
                }
                if exists|j: int| f as int * 256 <= j < f as int * 256 + 256 && counts@[j] >= 1 {
                    let j = choose|j: int| f as int * 256 <= j < f as int * 256 + 256 && counts@[j] >= 1;
                    assert(row_view[j - f as int * 256] >= 1);
                    assert(picked@.len() >= 1);
                }
            }
            thresholds.push(picked);
        }
        f = f + 1;
    }
    (Bins { thresholds }, Ghost(counts@))
}

} // verus!
