//! Study runner bookkeeping: budget accounting, step progression, and trial
//! tracking.
//!
//! The runner drives one study: it asks the solver for a trial, advances the
//! matching evaluator, charges the step difference against the study budget,
//! and tells the solver the outcome. The blocking work — asking a solver,
//! evaluating, telling — happens outside; this state machine makes every
//! decision and keeps every account, so the whole accounting is verified for
//! any behavior of the solver and the problem.

use crate::capability::{Capabilities, Capability};
use crate::problem::{spec_requires_capability, ProblemSpec};
use crate::trial::NextTrial;
use std::collections::HashMap;
use vstd::prelude::*;

verus! {

broadcast use vstd::std_specs::hash::group_hash_axioms;

/// Options of a study run.
#[derive(Debug, Clone, Copy, PartialEq, Eq, Structural)]
pub struct StudyRunnerOptions {
    /// Total number of evaluation steps the study may consume.
    pub budget: u64,
}

/// A failure that stops a study.
#[derive(Debug, Clone, Copy, PartialEq, Eq, Structural)]
pub enum RunnerError {
    /// The solver does not offer every capability the problem requires.
    CapabilityMismatch,
    /// A reply violated the evaluator contract: its step went backwards or
    /// beyond the problem's evaluation steps.
    ProtocolViolation,
}

/// What one completed evaluation meant for the study.
#[derive(Debug, Clone, Copy, PartialEq, Eq, Structural)]
pub enum StepOutcome {
    /// The evaluator advanced; `delta` steps were charged to the budget.
    Advanced { delta: u64 },
    /// The evaluator made no progress, so the trial was recorded as
    /// unevaluable and dropped.
    NoProgress,
}

/// Bookkeeping state of one running study.
#[derive(Debug)]
pub struct StudyState {
    /// Total number of steps the study may consume.
    pub budget: u64,
    /// Fidelity of a full evaluation, from the problem specification.
    pub evaluation_steps: u64,
    /// Sum of every charged step difference.
    pub consumed_steps: u64,
    /// Last reported step of each live trial, by trial id.
    pub trials: HashMap<u64, u64>,
    /// Number of trials that were dropped as unevaluable.
    pub unevaluable_trials: u64,
}

impl StudyState {
    /// Invariants of the accounting: every recorded step fits the problem's
    /// fidelity, and the consumed total overshoots the budget by at most one
    /// full evaluation — the bound a single final `evaluate` call may add.
    pub open spec fn wf(&self) -> bool {
        &&& self.evaluation_steps >= 1
        &&& self.budget + self.evaluation_steps <= u64::MAX
        &&& self.consumed_steps <= self.budget + self.evaluation_steps
        &&& forall|id: u64|
            self.trials@.contains_key(id) ==> #[trigger] self.trials@[id]
                <= self.evaluation_steps
    }

    /// Starts a study: checks that the solver's capabilities cover the
    /// problem's requirements, and returns fresh accounting otherwise.
    /// Acceptance is exactly the containment of the requirements — a study is
    /// never run by a solver that lacks a required capability.
    pub fn start(
        solver_capabilities: &Capabilities,
        problem: &ProblemSpec,
        options: &StudyRunnerOptions,
    ) -> (r: Result<StudyState, RunnerError>)
        requires
            problem@.evaluation_steps >= 1,
            options.budget + problem@.evaluation_steps <= u64::MAX,
        ensures
            r.is_ok() == forall|c: Capability|
                spec_requires_capability(problem@, c) ==> solver_capabilities.has(c),
            r matches Ok(s) ==> s.budget == options.budget && s.evaluation_steps
                == problem.evaluation_steps && s.consumed_steps == 0 && s.trials@
                == Map::<u64, u64>::empty() && s.unevaluable_trials == 0 && s.wf(),
            r.is_err() ==> r == Result::<StudyState, RunnerError>::Err(
                RunnerError::CapabilityMismatch,
            ),
    {
        let required = problem.requirements();
        if !solver_capabilities.is_superset(&required) {
            return Err(RunnerError::CapabilityMismatch);
        }
        Ok(StudyState {
            budget: options.budget,
            evaluation_steps: problem.evaluation_steps,
            consumed_steps: 0,
            trials: HashMap::new(),
            unevaluable_trials: 0,
        })
    }

    /// Whether the ask/tell loop continues: the study runs until the budget
    /// is exhausted.
    pub fn should_continue(&self) -> (r: bool)
        ensures
            r == (self.consumed_steps < self.budget),
    {
        self.consumed_steps < self.budget
    }

    /// The step the evaluator of `trial` is advanced to: the step the solver
    /// asked for, or the full fidelity when the solver left it open.
    pub fn target_step(&self, trial: &NextTrial) -> (r: u64)
        ensures
            r == match trial.next_step {
                Some(s) => s,
                None => self.evaluation_steps,
            },
    {
        match trial.next_step {
            Some(s) => s,
            None => self.evaluation_steps,
        }
    }

    /// The last step recorded for a trial, or `None` for a fresh trial.
    pub fn last_step_of(&self, id: u64) -> (r: Option<u64>)
        ensures
            r == if self.trials@.contains_key(id) {
                Some(self.trials@[id])
            } else {
                None::<u64>
            },
    {
        match self.trials.get(&id) {
            Some(s) => Some(*s),
            None => None,
        }
    }

    /// Books the outcome of one evaluation of trial `id` that reported
    /// `current_step`.
    ///
    /// The step of a trial never moves backwards: a reply below the recorded
    /// step, or beyond the problem's fidelity, is rejected as a protocol
    /// violation and charges nothing. A reply equal to the recorded step made
    /// no progress: the trial is dropped and counted as unevaluable. An
    /// advancing reply is charged by the step difference.
    pub fn on_evaluated(&mut self, id: u64, current_step: u64) -> (r: Result<
        StepOutcome,
        RunnerError,
    >)
        requires
            old(self).wf(),
            old(self).consumed_steps < old(self).budget,
        ensures
            final(self).wf(),
            final(self).budget == old(self).budget,
            final(self).evaluation_steps == old(self).evaluation_steps,
            r matches Ok(o) ==> match o {
                StepOutcome::Advanced { delta } => {
                    let prev = if old(self).trials@.contains_key(id) {
                        old(self).trials@[id] as int
                    } else {
                        0
                    };
                    &&& current_step > prev
                    &&& delta == current_step - prev
                    &&& final(self).trials@ == old(self).trials@.insert(id, current_step)
                    &&& final(self).consumed_steps == old(self).consumed_steps + delta
                    &&& final(self).unevaluable_trials == old(self).unevaluable_trials
                },
                StepOutcome::NoProgress => {
                    &&& old(self).trials@.contains_key(id) ==> current_step == old(
                        self,
                    ).trials@[id]
                    &&& !old(self).trials@.contains_key(id) ==> current_step == 0
                    &&& final(self).trials@ == old(self).trials@.remove(id)
                    &&& final(self).consumed_steps == old(self).consumed_steps
                    &&& final(self).unevaluable_trials == if old(self).unevaluable_trials
                        < u64::MAX {
                        old(self).unevaluable_trials + 1
                    } else {
                        u64::MAX as int
                    }
                },
            },
            r is Err ==> final(self).trials@ == old(self).trials@ && final(self).consumed_steps
                == old(self).consumed_steps && final(self).unevaluable_trials == old(
                self,
            ).unevaluable_trials,
            r.is_err() == (current_step > old(self).evaluation_steps || current_step < (
            if old(self).trials@.contains_key(id) {
                old(self).trials@[id] as int
            } else {
                0
            })),
            r.is_err() ==> r == Result::<StepOutcome, RunnerError>::Err(
                RunnerError::ProtocolViolation,
            ),
    {
        if current_step > self.evaluation_steps {
            return Err(RunnerError::ProtocolViolation);
        }
        let prev: u64 = match self.last_step_of(id) {
            Some(s) => s,
            None => 0,
        };
        if current_step < prev {
            return Err(RunnerError::ProtocolViolation);
        }
        if current_step == prev {
            if self.unevaluable_trials == u64::MAX {
                // The counter saturates; a study can never observe this many
                // unevaluable trials, but the accounting stays total.
            } else {
                self.unevaluable_trials = self.unevaluable_trials + 1;
            }
            self.trials.remove(&id);
            return Ok(StepOutcome::NoProgress);
        }
        let delta = current_step - prev;
        self.trials.insert(id, current_step);
        self.consumed_steps = self.consumed_steps + delta;
        Ok(StepOutcome::Advanced { delta })
    }
}

/// Step monotonicity: across the successive evaluations a study books for
/// one trial, the recorded step never decreases.
pub proof fn lemma_step_monotone(pre: StudyState, post: StudyState, id: u64, current_step: u64)
    requires
        pre.trials@.contains_key(id),
        post.trials@ == pre.trials@.insert(id, current_step),
        current_step >= pre.trials@[id],
    ensures
        post.trials@[id] >= pre.trials@[id],
{
}

/// Budget overshoot bound: however long a study runs, the steps it consumes
/// stay within the budget plus at most one full evaluation, because a step is
/// only charged while the budget is not yet exhausted and no single charge
/// exceeds a full evaluation.
pub proof fn lemma_budget_overshoot(s: StudyState)
    requires
        s.wf(),
    ensures
        s.consumed_steps <= s.budget + s.evaluation_steps,
{
}

} // verus!
