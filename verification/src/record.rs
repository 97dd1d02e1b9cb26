//! Study records: the trace a study leaves behind.
//!
//! One record per study holds the solver and problem specifications with the
//! recipes they came from, the runner options, wall-clock bounds, and one
//! entry per trial round. Times are milliseconds of the wall clock; recipes
//! are carried as their rendered JSON text.

use crate::capability::SolverSpec;
use crate::problem::ProblemSpec;
use crate::runner::StudyRunnerOptions;
use crate::trial::Params;
use std::collections::HashMap;
use vstd::prelude::*;

verus! {

broadcast use vstd::std_specs::hash::group_hash_axioms;

/// The wall clock now, in milliseconds since the epoch.
/// Relies on `chrono::Local::now`: the current local date and time;
/// `timestamp_millis` converts it to a plain number. Nothing further can be
/// promised of a clock reading.
#[verifier::external_body]
pub fn now_millis() -> i64 {
    chrono::Local::now().timestamp_millis()
}

/// One evaluation round of a trial: the objective value in ticks, the steps
/// charged, and its wall-clock bounds.
#[derive(Debug, Clone, Copy, PartialEq, Eq, Structural)]
pub struct EvalRecord {
    pub value: i64,
    pub cost: u64,
    pub start_time: i64,
    pub end_time: i64,
}

impl EvalRecord {
    /// Makes a new record.
    pub fn new(value: i64, cost: u64, start_time: i64, end_time: i64) -> (r: Self)
        ensures
            r == (EvalRecord { value, cost, start_time, end_time }),
    {
        EvalRecord { value, cost, start_time, end_time }
    }
}

/// The ask that opened a trial: the proposed parameters and the wall-clock
/// bounds of the solver call.
#[derive(Debug)]
pub struct AskRecord {
    pub params: Params,
    pub start_time: i64,
    pub end_time: i64,
}

impl AskRecord {
    /// Makes a new record.
    pub fn new(params: Params, start_time: i64, end_time: i64) -> (r: Self)
        ensures
            r.params == params,
            r.start_time == start_time,
            r.end_time == end_time,
    {
        AskRecord { params, start_time, end_time }
    }

    /// How long the ask took.
    pub fn latency(&self) -> (r: i64)
        requires
            self.start_time <= self.end_time,
            self.end_time - self.start_time <= i64::MAX,
        ensures
            r == self.end_time - self.start_time,
    {
        self.end_time - self.start_time
    }
}

/// Everything one trial round left behind. Several rounds may share a
/// `trial_id` when a solver re-asks a trial for more fidelity.
#[derive(Debug)]
pub struct TrialRecord {
    pub trial_id: u64,
    pub ask: AskRecord,
    pub evals: Vec<EvalRecord>,
    pub complete: bool,
}

impl TrialRecord {
    /// The last reported value, if the trial was evaluated at all.
    pub fn value(&self) -> (r: Option<i64>)
        ensures
            r == if self.evals@.len() > 0 {
                Some(self.evals@.last().value)
            } else {
                None::<i64>
            },
    {
        if self.evals.len() > 0 {
            Some(self.evals[self.evals.len() - 1].value)
        } else {
            None
        }
    }

    /// When the trial's last evaluation finished, or zero for a trial that
    /// was never evaluated.
    pub fn end_time(&self) -> (r: i64)
        ensures
            r == if self.evals@.len() > 0 {
                self.evals@.last().end_time
            } else {
                0
            },
    {
        if self.evals.len() > 0 {
            self.evals[self.evals.len() - 1].end_time
        } else {
            0
        }
    }
}

/// A specification together with the version it reported and the JSON text
/// of the recipe it came from.
#[derive(Debug)]
pub struct RecipeAndSpec<T> {
    pub spec: T,
    pub version: Option<String>,
    pub recipe: String,
}

impl RecipeAndSpec<SolverSpec> {
    /// What identifies this solver across studies: its name, its version,
    /// and its recipe.
    pub fn id(&self) -> (r: (&String, Option<&String>, &String))
        ensures
            r.0 == &self.spec.name,
            r.1 matches Some(v) ==> (self.version matches Some(w) && v == &w),
            r.1 is None <==> self.version is None,
            r.2 == &self.recipe,
    {
        (&self.spec.name, self.version.as_ref(), &self.recipe)
    }
}

impl RecipeAndSpec<ProblemSpec> {
    /// What identifies this problem across studies: its name, its version,
    /// and its recipe.
    pub fn id(&self) -> (r: (&String, Option<&String>, &String))
        ensures
            r.0 == &self.spec.name,
            r.1 matches Some(v) ==> (self.version matches Some(w) && v == &w),
            r.1 is None <==> self.version is None,
            r.2 == &self.recipe,
    {
        (&self.spec.name, self.version.as_ref(), &self.recipe)
    }
}

/// The record of one study.
#[derive(Debug)]
pub struct StudyRecord {
    pub solver: RecipeAndSpec<SolverSpec>,
    pub problem: RecipeAndSpec<ProblemSpec>,
    pub runner: StudyRunnerOptions,
    pub start_time: i64,
    pub end_time: i64,
    pub unevaluable_trials: u64,
    pub trials: Vec<TrialRecord>,
}

impl StudyRecord {
    /// Opens the record of a study that starts now: no trials yet, and the
    /// end time provisionally equal to the start time.
    pub fn new(
        solver_recipe: String,
        solver_spec: SolverSpec,
        problem_recipe: String,
        problem_spec: ProblemSpec,
        runner: StudyRunnerOptions,
    ) -> (r: StudyRecord)
        ensures
            r.solver.spec == solver_spec,
            r.solver.version is None,
            r.solver.recipe == solver_recipe,
            r.problem.spec == problem_spec,
            r.problem.version is None,
            r.problem.recipe == problem_recipe,
            r.runner == runner,
            r.end_time == r.start_time,
            r.unevaluable_trials == 0,
            r.trials@.len() == 0,
    {
        let start_time = now_millis();
        StudyRecord {
            solver: RecipeAndSpec { spec: solver_spec, version: None, recipe: solver_recipe },
            problem: RecipeAndSpec { spec: problem_spec, version: None, recipe: problem_recipe },
            runner,
            start_time,
            end_time: start_time,
            unevaluable_trials: 0,
            trials: Vec::new(),
        }
    }

    /// Closes the record: the end time becomes now; everything else stays.
    pub fn finish(&mut self)
        ensures
            final(self).solver == old(self).solver,
            final(self).problem == old(self).problem,
            final(self).runner == old(self).runner,
            final(self).start_time == old(self).start_time,
            final(self).unevaluable_trials == old(self).unevaluable_trials,
            final(self).trials == old(self).trials,
    {
        self.end_time = now_millis();
    }

    /// The study's total step budget: the per-trial fidelity times the
    /// runner's budget.
    pub fn study_budget(&self) -> (r: u64)
        requires
            self.runner.budget * self.problem.spec.evaluation_steps <= u64::MAX,
        ensures
            r == self.runner.budget * self.problem.spec.evaluation_steps,
    {
        self.runner.budget * self.problem.spec.evaluation_steps
    }

    /// The fidelity of one full evaluation.
    pub fn trial_budget(&self) -> (r: u64)
        ensures
            r == self.problem.spec.evaluation_steps,
    {
        self.problem.spec.evaluation_steps
    }

    /// Builds the scorer of this study.
    pub fn scorer(&self) -> (r: Scorer)
        ensures
            spec_bests_wf(r.bests@),
    {
        Scorer::new(self)
    }
}

/// The running-best entries are sorted by consumption and their values never
/// increase: each later best is at least as good; the first best is booked
/// at consumption zero.
pub open spec fn spec_bests_wf(bests: Seq<(u64, i64)>) -> bool {
    &&& forall|i: int, j: int| 0 <= i < j < bests.len() ==> bests[i].0 <= bests[j].0
    &&& forall|i: int, j: int| 0 <= i < j < bests.len() ==> bests[i].1 >= bests[j].1
    &&& bests.len() > 0 ==> bests[0].0 == 0
}

/// The last value one trial round reported, if any.
pub open spec fn spec_round_value(t: TrialRecord) -> Option<i64> {
    if t.evals@.len() > 0 {
        Some(t.evals@.last().value)
    } else {
        None
    }
}

/// The best value a study had reached by each level of budget consumption.
#[derive(Debug)]
pub struct Scorer {
    pub bests: Vec<(u64, i64)>,
}

impl Scorer {
    /// Walks the study's trials in order, charging each round's evaluation
    /// costs against the running consumption and accumulating them per trial
    /// id. Whenever a trial's accumulated cost reaches the per-trial budget
    /// — a full evaluation — its value competes: matching or improving the
    /// best so far books a new running best at the current consumption, the
    /// very first one at consumption zero. Every booked value is the last
    /// reported value of one of the study's rounds.
    #[verifier::loop_isolation(false)]
    pub fn new(study: &StudyRecord) -> (r: Scorer)
        ensures
            spec_bests_wf(r.bests@),
            forall|i: int|
                0 <= i < r.bests@.len() ==> exists|t: int|
                    0 <= t < study.trials@.len() && spec_round_value(#[trigger] study.trials@[t])
                        == Some((#[trigger] r.bests@[i]).1),
    {
        let trial_budget = study.problem.spec.evaluation_steps;
        let mut acc: HashMap<u64, u64> = HashMap::new();
        let mut consumption: u64 = 0;
        let mut bests: Vec<(u64, i64)> = Vec::new();
        let mut t: usize = 0;
        while t < study.trials.len()
            invariant
                spec_bests_wf(bests@),
                forall|i: int| 0 <= i < bests@.len() ==> (#[trigger] bests@[i]).0 <= consumption,
                forall|i: int|
                    0 <= i < bests@.len() ==> exists|w: int|
                        0 <= w < study.trials@.len() && spec_round_value(
                            #[trigger] study.trials@[w],
                        ) == Some((#[trigger] bests@[i]).1),
            decreases study.trials@.len() - t,
        {
            let trial = &study.trials[t];
            let mut expense: u64 = 0;
            let mut e: usize = 0;
            while e < trial.evals.len()
                decreases trial.evals@.len() - e,
            {
                let cost = trial.evals[e].cost;
                expense = if expense > u64::MAX - cost {
                    u64::MAX
                } else {
                    expense + cost
                };
                e += 1;
            }
            let prev: u64 = match acc.get(&trial.trial_id) {
                Some(p) => *p,
                None => 0,
            };
            let total: u64 = if prev > u64::MAX - expense {
                u64::MAX
            } else {
                prev + expense
            };
            acc.insert(trial.trial_id, total);
            consumption = if consumption > u64::MAX - expense {
                u64::MAX
            } else {
                consumption + expense
            };
            if total >= trial_budget {
                match trial.value() {
                    Some(v) => {
                        let better = bests.len() == 0 || v <= bests[bests.len() - 1].1;
                        if better {
                            let at = if bests.len() == 0 {
                                0
                            } else {
                                consumption
                            };
                            bests.push((at, v));
                            proof {
                                assert(spec_round_value(study.trials@[t as int]) == Some(v));
                            }
                        }
                    },
                    None => {},
                }
            }
            t += 1;
        }
        Scorer { bests }
    }

    /// The best value the study had reached within the given budget: the
    /// last running best whose consumption does not exceed it.
    #[verifier::loop_isolation(false)]
    pub fn best_value(&self, budget: u64) -> (r: Option<i64>)
        requires
            spec_bests_wf(self.bests@),
        ensures
            match r {
                Some(v) => exists|i: int|
                    0 <= i < self.bests@.len() && (#[trigger] self.bests@[i]).0 <= budget
                        && self.bests@[i].1 == v && forall|j: int|
                        i < j < self.bests@.len() ==> self.bests@[j].0 > budget,
                None => forall|i: int|
                    0 <= i < self.bests@.len() ==> (#[trigger] self.bests@[i]).0 > budget,
            },
    {
        let mut r: Option<i64> = None;
        let mut i: usize = 0;
        let ghost mut last: int = -1;
        while i < self.bests.len()
            invariant
                0 <= i <= self.bests@.len(),
                match r {
                    Some(v) => 0 <= last < i && self.bests@[last].0 <= budget
                        && self.bests@[last].1 == v && forall|j: int|
                        last < j < i ==> self.bests@[j].0 > budget,
                    None => last == -1 && forall|j: int|
                        0 <= j < i ==> (#[trigger] self.bests@[j]).0 > budget,
                },
            decreases self.bests@.len() - i,
        {
            if self.bests[i].0 <= budget {
                r = Some(self.bests[i].1);
                proof {
                    last = i as int;
                }
            }
            i += 1;
        }
        r
    }
}

} // verus!
