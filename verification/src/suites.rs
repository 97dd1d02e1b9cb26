//! Suites: named collections of solver recipes to benchmark together.

use crate::random::RandomSolverRecipe;
use crate::solver::KurobakoSolverRecipe;
use vstd::prelude::*;

verus! {

/// A suite hands out the recipes it wants benchmarked.
pub trait OptimizerSuite {
    /// The recipes of this suite.
    fn suite(&self) -> Vec<KurobakoSolverRecipe>;
}

/// The suite of the built-in solvers.
#[derive(Debug, Clone, Copy, PartialEq, Eq, Structural)]
pub struct BuiltinOptimizerSuite {}

impl OptimizerSuite for BuiltinOptimizerSuite {
    /// One entry per built-in solver, the random solver in both of its
    /// stepping modes.
    fn suite(&self) -> (r: Vec<KurobakoSolverRecipe>)
        ensures
            r@.len() == 2,
            r@[0] == KurobakoSolverRecipe::Random(RandomSolverRecipe { ask_all_steps: false }),
            r@[1] == KurobakoSolverRecipe::Random(RandomSolverRecipe { ask_all_steps: true }),
    {
        let mut suite: Vec<KurobakoSolverRecipe> = Vec::new();
        suite.push(KurobakoSolverRecipe::Random(RandomSolverRecipe { ask_all_steps: false }));
        suite.push(KurobakoSolverRecipe::Random(RandomSolverRecipe { ask_all_steps: true }));
        suite
    }
}

} // verus!
