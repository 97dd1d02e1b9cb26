//! The built-in solvers behind one value type.

use crate::capability::SolverSpec;
use crate::problem::{spec_problem_wf, ProblemSpec};
use crate::random::{RandomSolver, RandomSolverRecipe};
use crate::rng::StudyRng;
use crate::trial::{spec_params_match, EvaluatedTrial, IdGen, NextTrial};
use crate::ErrorKind;
use vstd::prelude::*;

verus! {

/// The JSON text of a solver recipe, as the command line carries it.
#[derive(Debug, PartialEq, Eq)]
pub struct SolverRecipeJson {
    pub text: String,
}

/// A recipe for any of the built-in solvers.
#[derive(Debug, Clone, Copy, PartialEq, Eq, Structural)]
pub enum KurobakoSolverRecipe {
    Random(RandomSolverRecipe),
}

impl KurobakoSolverRecipe {
    /// Creates the solver this recipe describes, seeded from the study's
    /// generator.
    pub fn create_solver(&self, rng: StudyRng, problem: &ProblemSpec) -> (r: KurobakoSolver)
        ensures
            self matches KurobakoSolverRecipe::Random(rr) ==> (r matches KurobakoSolver::Random(s)
                && s.problem@ == problem@),
    {
        match self {
            KurobakoSolverRecipe::Random(rr) => KurobakoSolver::Random(
                rr.create_factory().create_solver(rng, problem),
            ),
        }
    }
}

/// Any of the built-in solvers, held by value.
#[derive(Debug)]
pub enum KurobakoSolver {
    Random(RandomSolver),
}

impl KurobakoSolver {
    /// The specification of the underlying solver.
    pub fn specification(&self) -> (r: SolverSpec)
        ensures
            self is Random ==> forall|c: crate::capability::Capability| r.capabilities.has(c),
    {
        match self {
            KurobakoSolver::Random(s) => {
                let f = crate::random::RandomSolverFactory { ask_all_steps: false };
                f.specification()
            },
        }
    }

    /// Asks the underlying solver for the next trial. The only failure is
    /// the random solver's exhausted step ladder.
    pub fn ask(&mut self, idg: &mut IdGen) -> (r: Result<NextTrial, ErrorKind>)
        requires
            (*old(self)) matches KurobakoSolver::Random(s) ==> spec_problem_wf(s.problem@),
            old(idg).next < u64::MAX,
        ensures
            r.is_err() == ((*old(self)) matches KurobakoSolver::Random(s) && (s.current_step
                matches Some(c) && c >= s.problem@.evaluation_steps)),
            (*old(self)) matches KurobakoSolver::Random(s) ==> (r matches Ok(t) ==> (
            spec_params_match(t.params@, s.problem@.params_domain) && t.id == old(idg).next)),
    {
        match self {
            KurobakoSolver::Random(s) => s.ask(idg),
        }
    }

    /// Hands the outcome of a trial to the underlying solver.
    pub fn tell(&mut self, trial: &EvaluatedTrial) -> (r: Result<(), ErrorKind>)
        ensures
            r.is_ok(),
    {
        match self {
            KurobakoSolver::Random(s) => s.tell(trial),
        }
    }
}

} // verus!
