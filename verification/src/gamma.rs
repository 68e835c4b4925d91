//! The global target edge gamma and the head's packet statistics.
//!
//! Two independent edges are tracked: `gamma` for extending existing nodes
//! and `root_gamma` for starting new trees. Both only ever shrink: `adjust`
//! shrinks `gamma` when the windowed failure statistics demand it, and every
//! root fallback shrinks `root_gamma` unconditionally. Each shrink bumps the
//! version counter so that broadcasts can be deduplicated.

use vstd::prelude::*;
use crate::fixed::SCALE;
use crate::packet::Packet;
use crate::packet::PacketType;

verus! {

/// Add one, staying put at the numeric ceiling.
pub open spec fn sat_inc(x: u64) -> u64 {
    if x < u64::MAX { (x + 1) as u64 } else { x }
}

/// Add one to a version counter, staying put at the numeric ceiling.
pub open spec fn sat_inc_usize(x: usize) -> usize {
    if x < usize::MAX { (x + 1) as usize } else { x }
}

/// Numerator of the shrink factor `4/5`.
pub const SHRINK_NUM: u64 = 4;

/// Denominator of the shrink factor `4/5`.
pub const SHRINK_DEN: u64 = 5;

/// Windowed counts of the packets the head has classified.
pub struct PacketStats {
    /// Number of worker machines packets can come from.
    pub num_machines: usize,
    /// Accepted packets in the current window.
    pub num_accept: u64,
    /// Fallback (empty) packets in the current window.
    pub num_empty: u64,
    /// Rejected packets (stale sample or stale model) in the current window.
    pub num_reject: u64,
    /// Packets ignored for assignment mismatch or thin samples.
    pub num_ignored: u64,
}

impl PacketStats {
    /// Fresh statistics for a cluster of `num_machines` workers.
    pub fn new(num_machines: usize) -> (r: PacketStats)
        ensures
            r.num_machines == num_machines,
            r.num_accept == 0,
            r.num_empty == 0,
            r.num_reject == 0,
            r.num_ignored == 0,
    {
        PacketStats {
            num_machines,
            num_accept: 0,
            num_empty: 0,
            num_reject: 0,
            num_ignored: 0,
        }
    }

    /// Count one classified packet toward the window.
    pub fn handle_new_packet(&mut self, _packet: &Packet, packet_type: &PacketType)
        ensures
            final(self).num_machines == old(self).num_machines,
            final(self).num_accept == (if packet_type is AcceptRoot || packet_type is AcceptNonroot
                { sat_inc(old(self).num_accept) } else { old(self).num_accept }),
            final(self).num_empty == (if packet_type is EmptyRoot || packet_type is EmptyNonroot
                { sat_inc(old(self).num_empty) } else { old(self).num_empty }),
            final(self).num_reject == (if packet_type is RejectSample || packet_type is RejectBaseModel
                { sat_inc(old(self).num_reject) } else { old(self).num_reject }),
            final(self).num_ignored == (if packet_type is AssignMismatch || packet_type is SmallEffSize
                { sat_inc(old(self).num_ignored) } else { old(self).num_ignored }),
    {
        match packet_type {
            PacketType::AcceptRoot | PacketType::AcceptNonroot => {
                if self.num_accept < u64::MAX {
                    self.num_accept = self.num_accept + 1;
                }
            },
            PacketType::EmptyRoot | PacketType::EmptyNonroot => {
                if self.num_empty < u64::MAX {
                    self.num_empty = self.num_empty + 1;
                }
            },
            PacketType::RejectSample | PacketType::RejectBaseModel => {
                if self.num_reject < u64::MAX {
                    self.num_reject = self.num_reject + 1;
                }
            },
            PacketType::AssignMismatch | PacketType::SmallEffSize => {
                if self.num_ignored < u64::MAX {
                    self.num_ignored = self.num_ignored + 1;
                }
            },
        }
    }

    /// Zero the window.
    pub fn reset(&mut self)
        ensures
            final(self).num_machines == old(self).num_machines,
            final(self).num_accept == 0,
            final(self).num_empty == 0,
            final(self).num_reject == 0,
            final(self).num_ignored == 0,
    {
        self.num_accept = 0;
        self.num_empty = 0;
        self.num_reject = 0;
        self.num_ignored = 0;
    }
}

/// The two target edges with their version counter.
pub struct Gamma {
    /// Target edge (fixed point) for extending existing nodes.
    pub gamma: u64,
    /// Target edge (fixed point) for starting a new tree.
    pub root_gamma: u64,
    /// Bumped on every change, so receivers can deduplicate broadcasts.
    pub gamma_version: usize,
    /// Training halts once `gamma` falls below this floor.
    pub min_gamma: u64,
    /// Number of decided packets required before `adjust` may shrink.
    pub window: u64,
}

impl Gamma {
    /// Both edges are positive and at most one.
    pub open spec fn wf(self) -> bool {
        &&& 0 < self.gamma <= SCALE
        &&& 0 < self.root_gamma <= SCALE
        &&& self.window >= 1
    }

    /// A fresh controller with both edges at `default_gamma`.
    pub fn new(default_gamma: u64, min_gamma: u64, window: u64) -> (r: Gamma)
        requires
            0 < default_gamma <= SCALE,
            window >= 1,
        ensures
            r.wf(),
            r.gamma == default_gamma,
            r.root_gamma == default_gamma,
            r.gamma_version == 0,
            r.min_gamma == min_gamma,
            r.window == window,
    {
        Gamma {
            gamma: default_gamma,
            root_gamma: default_gamma,
            gamma_version: 0,
            min_gamma,
            window,
        }
    }

    /// The trainer keeps going while gamma is at or above the floor.
    pub fn is_valid(&self) -> (r: bool)
        ensures
            r == (self.gamma >= self.min_gamma),
    {
        self.gamma >= self.min_gamma
    }

    /// Shrink `gamma` when a full window of decided packets shows more
    /// failures than successes. Returns whether gamma changed, so the caller
    /// can broadcast. Gamma never grows.
    pub fn adjust(&mut self, stats: &PacketStats) -> (r: bool)
        requires
            old(self).wf(),
        ensures
            final(self).wf(),
            final(self).gamma <= old(self).gamma,
            final(self).root_gamma == old(self).root_gamma,
            final(self).min_gamma == old(self).min_gamma,
            final(self).window == old(self).window,
            r == (stats.num_accept + stats.num_empty >= old(self).window
                && stats.num_empty > stats.num_accept),
            r ==> {
                &&& final(self).gamma == shrunk(old(self).gamma)
                &&& final(self).gamma_version == sat_inc_usize(old(self).gamma_version)
            },
            !r ==> *final(self) == *old(self),
    {
        let decided = if stats.num_accept <= u64::MAX - stats.num_empty {
            stats.num_accept + stats.num_empty
        } else {
            u64::MAX
        };
        if decided >= self.window && stats.num_empty > stats.num_accept {
            self.gamma = shrink(self.gamma);
            if self.gamma_version < usize::MAX {
                self.gamma_version = self.gamma_version + 1;
            }
            true
        } else {
            false
        }
    }

    /// Every root fallback shrinks `root_gamma` unconditionally; it never
    /// grows.
    pub fn decrease_root_gamma(&mut self)
        requires
            old(self).wf(),
        ensures
            final(self).wf(),
            final(self).root_gamma == shrunk(old(self).root_gamma),
            final(self).root_gamma <= old(self).root_gamma,
            final(self).gamma == old(self).gamma,
            final(self).gamma_version == sat_inc_usize(old(self).gamma_version),
            final(self).min_gamma == old(self).min_gamma,
            final(self).window == old(self).window,
    {
        self.root_gamma = shrink(self.root_gamma);
        if self.gamma_version < usize::MAX {
            self.gamma_version = self.gamma_version + 1;
        }
    }
}

/// One shrink step: `4/5` of the edge, never below one fixed-point unit.
pub open spec fn shrunk(g: u64) -> u64 {
    let s = (g as int) * (SHRINK_NUM as int) / (SHRINK_DEN as int);
    if s >= 1 {
        s as u64
    } else {
        1u64
    }
}

/// Executable shrink step.
pub fn shrink(g: u64) -> (r: u64)
    requires
        1 <= g <= SCALE,
    ensures
        r == shrunk(g),
        r <= g,
        0 < r <= SCALE,
{
    let s = g * SHRINK_NUM / SHRINK_DEN;
    proof {
        assert(g * SHRINK_NUM <= g * SHRINK_DEN) by (nonlinear_arith)
            requires SHRINK_NUM <= SHRINK_DEN;
        vstd::arithmetic::div_mod::lemma_div_is_ordered((g * SHRINK_NUM) as int, (g * SHRINK_DEN) as int, SHRINK_DEN as int);
        assert((g * SHRINK_DEN) as int == (g as int) * (SHRINK_DEN as int));
        vstd::arithmetic::div_mod::lemma_div_multiples_vanish(g as int, SHRINK_DEN as int);
    }
    if s >= 1 {
        s
    } else {
        1
    }
}

} // verus!
