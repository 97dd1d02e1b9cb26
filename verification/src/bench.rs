//! The analytic benchmark problems: their search spaces.
//!
//! The objective formulas of these functions need real arithmetic and are
//! computed outside; their search spaces are plain data and live here, so a
//! runner can check parameters against them.

use crate::domain::{Range, SCALE};
use vstd::prelude::*;

verus! {

/// A search space: one range per dimension, in ticks.
#[derive(Debug)]
pub struct ProblemSpace(pub Vec<Range>);

impl ProblemSpace {
    /// The per-dimension ranges.
    pub fn distributions(&self) -> (r: &Vec<Range>)
        ensures
            r == &self.0,
    {
        &self.0
    }
}

/// The Ackley function's benchmark setup: `dim` parameters, each uniform
/// over `[-10, 30)` units.
#[derive(Debug, Clone, Copy, PartialEq, Eq, Structural)]
pub struct AckleyProblem {
    pub dim: usize,
}

impl AckleyProblem {
    /// The name of this problem.
    pub fn name(&self) -> (r: &'static str)
        ensures
            r@ == "ackley"@,
    {
        "ackley"
    }

    /// The search space: every dimension ranges uniformly over `[-10, 30)`
    /// units.
    #[verifier::loop_isolation(false)]
    pub fn problem_space(&self) -> (r: ProblemSpace)
        ensures
            r.0@.len() == self.dim,
            forall|i: int|
                0 <= i < self.dim ==> (#[trigger] r.0@[i])@ == (crate::domain::RangeView::Continuous {
                    low: -10 * SCALE as int,
                    high: 30 * SCALE as int,
                }),
    {
        let mut v: Vec<Range> = Vec::new();
        let mut i: usize = 0;
        while i < self.dim
            invariant
                0 <= i <= self.dim,
                v@.len() == i,
                forall|k: int|
                    0 <= k < i ==> (#[trigger] v@[k])@ == (crate::domain::RangeView::Continuous {
                        low: -10 * SCALE as int,
                        high: 30 * SCALE as int,
                    }),
            decreases self.dim - i,
        {
            v.push(Range::Continuous { low: -10 * SCALE, high: 30 * SCALE });
            i += 1;
        }
        ProblemSpace(v)
    }
}

} // verus!
