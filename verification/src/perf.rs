//! Accumulation of the compiler's per-phase timing counters.
//!
//! The compiler engine times its phases itself; this tally folds those
//! readings into running totals and zeroes the source counters on every
//! read, so that tallying twice after one compile counts the work once.

use crate::notes::{sat_add_u64, spec_sat_add_u64};
use vstd::prelude::*;

verus! {

/// One reading of the compiler's per-phase timers, in nanoseconds: parsing
/// and AST building, vague and resolved type resolution, trivial-code
/// optimization, and native code generation.
#[derive(Clone, Copy, Debug, PartialEq, Eq, Structural)]
pub struct CompilerSectionTimes {
    pub ast: u64,
    pub vague: u64,
    pub resolved: u64,
    pub trivial: u64,
    pub llvmir: u64,
}

impl CompilerSectionTimes {
    pub fn new() -> (r: CompilerSectionTimes)
        ensures
            r == (CompilerSectionTimes { ast: 0, vague: 0, resolved: 0, trivial: 0, llvmir: 0 }),
    {
        CompilerSectionTimes { ast: 0, vague: 0, resolved: 0, trivial: 0, llvmir: 0 }
    }

    /// Zeroes every phase counter.
    pub fn reset_performance_counters(&mut self)
        ensures
            *final(self) == (CompilerSectionTimes {
                ast: 0,
                vague: 0,
                resolved: 0,
                trivial: 0,
                llvmir: 0,
            }),
    {
        self.ast = 0;
        self.vague = 0;
        self.resolved = 0;
        self.trivial = 0;
        self.llvmir = 0;
    }
}

/// Running totals of externally timed compiler work.
#[derive(Clone, Copy, Debug, PartialEq, Eq, Structural)]
pub struct PerfTally {
    pub ast: u64,
    pub vague: u64,
    pub resolved: u64,
    pub trivial: u64,
    pub llvmir: u64,
}

impl PerfTally {
    pub fn new() -> (r: PerfTally)
        ensures
            r == (PerfTally { ast: 0, vague: 0, resolved: 0, trivial: 0, llvmir: 0 }),
    {
        PerfTally { ast: 0, vague: 0, resolved: 0, trivial: 0, llvmir: 0 }
    }

    /// Folds one reading into the totals and zeroes the reading, so that no
    /// phase is ever counted twice across calls.
    pub fn tally_performance_counters(&mut self, counters: &mut CompilerSectionTimes)
        ensures
            final(self).ast == spec_sat_add_u64(old(self).ast, old(counters).ast),
            final(self).vague == spec_sat_add_u64(old(self).vague, old(counters).vague),
            final(self).resolved == spec_sat_add_u64(old(self).resolved, old(counters).resolved),
            final(self).trivial == spec_sat_add_u64(old(self).trivial, old(counters).trivial),
            final(self).llvmir == spec_sat_add_u64(old(self).llvmir, old(counters).llvmir),
            *final(counters) == (CompilerSectionTimes {
                ast: 0,
                vague: 0,
                resolved: 0,
                trivial: 0,
                llvmir: 0,
            }),
    {
        self.ast = sat_add_u64(self.ast, counters.ast);
        self.vague = sat_add_u64(self.vague, counters.vague);
        self.resolved = sat_add_u64(self.resolved, counters.resolved);
        self.trivial = sat_add_u64(self.trivial, counters.trivial);
        self.llvmir = sat_add_u64(self.llvmir, counters.llvmir);
        counters.reset_performance_counters();
    }
}

} // verus!
