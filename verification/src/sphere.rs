//! A deterministic in-process problem: the sphere function on ticks.
//!
//! The objective is the sum of the squared parameter values, in units. It
//! needs no randomness and no process, so it exercises the whole study loop
//! in-process, and its determinism carries the reproducibility guarantee:
//! evaluators created from equal parameters produce equal traces.

use crate::domain::{VariableBuilder, SCALE};
use crate::problem::{ProblemSpec, ProblemSpecBuilder};
use crate::trial::{Params, Values};
use crate::ErrorKind;
use vstd::prelude::*;

verus! {

/// The sphere objective of an assignment, in ticks, saturated at the `i64`
/// range: the sum over the active entries of `v * v / SCALE`.
pub open spec fn spec_sphere(p: Seq<Option<int>>) -> int
    decreases p.len(),
{
    if p.len() == 0 {
        0
    } else {
        let rest = spec_sphere(p.drop_last());
        let here = match p.last() {
            Some(v) => v * v / (SCALE as int),
            None => 0,
        };
        if rest + here > i64::MAX {
            i64::MAX as int
        } else {
            rest + here
        }
    }
}

/// The sphere objective never goes negative and always fits an `i64`.
pub proof fn lemma_sphere_bounds(p: Seq<Option<int>>)
    requires
        forall|i: int|
            0 <= i < p.len() ==> match #[trigger] p[i] {
                Some(v) => i64::MIN <= v <= i64::MAX,
                None => true,
            },
    ensures
        0 <= spec_sphere(p) <= i64::MAX,
    decreases p.len(),
{
    if p.len() > 0 {
        assert(forall|i: int|
            0 <= i < p.drop_last().len() ==> p.drop_last()[i] == p[i]);
        lemma_sphere_bounds(p.drop_last());
        match p.last() {
            Some(v) => {
                assert(v * v >= 0) by (nonlinear_arith);
                vstd::arithmetic::div_mod::lemma_div_pos_is_pos(v * v, SCALE as int);
            },
            None => {},
        }
    }
}

/// Recipe of the sphere problem: the dimension of the search space and the
/// number of fidelity steps of a full evaluation.
#[derive(Debug, Clone, Copy, PartialEq, Eq, Structural)]
pub struct SphereProblemRecipe {
    pub dim: usize,
    pub evaluation_steps: u64,
}

impl SphereProblemRecipe {
    /// The specification: `dim` uniform continuous parameters over
    /// `[-10, 30)` units and one objective.
    pub fn specification(&self) -> (r: Result<ProblemSpec, ErrorKind>)
        requires
            self.evaluation_steps >= 1,
        ensures
            r matches Ok(s) ==> s@.params_domain.len() == self.dim && s@.evaluation_steps
                == self.evaluation_steps && crate::problem::spec_problem_wf(s@),
    {
        let mut b = ProblemSpecBuilder::new("sphere");
        let mut i: usize = 0;
        while i < self.dim
            invariant
                0 <= i <= self.dim,
                b.name@ == "sphere"@,
                b.attrs@.len() == 0,
                b.values@.len() == 0,
                b.evaluation_steps == 1u64,
                b.params@.len() == i,
            decreases self.dim - i,
        {
            let mut name: Vec<char> = Vec::new();
            name.push('p');
            crate::text::fmt_u64(i as u64, &mut name);
            let var = VariableBuilder::new(crate::codec::chars_to_string(&name).as_str())
                .continuous(-10 * SCALE, 30 * SCALE);
            b = b.param(var);
            i += 1;
        }
        let b = b.value(VariableBuilder::new("value"));
        let b = b.evaluation_steps(self.evaluation_steps);
        b.finish()
    }

    /// Creates the problem. The seed is accepted for uniformity and ignored:
    /// the sphere is deterministic.
    pub fn create_problem(&self, _random_seed: u64) -> (r: SphereProblem)
        ensures
            r.evaluation_steps == self.evaluation_steps,
    {
        SphereProblem { evaluation_steps: self.evaluation_steps }
    }
}

/// The sphere problem instance.
#[derive(Debug, Clone, Copy, PartialEq, Eq, Structural)]
pub struct SphereProblem {
    pub evaluation_steps: u64,
}

impl SphereProblem {
    /// Binds an evaluator to a parameter assignment.
    pub fn create_evaluator(&self, params: Params) -> (r: SphereEvaluator)
        ensures
            r.params == params,
            r.current_step == 0,
            r.evaluation_steps == self.evaluation_steps,
    {
        SphereEvaluator { params, current_step: 0, evaluation_steps: self.evaluation_steps }
    }
}


/// The step an evaluator reports for a request: the requested step clamped
/// into `1..=evaluation_steps`, never behind the current cursor.
pub open spec fn spec_next_cursor(current_step: int, evaluation_steps: int, next_step: int) -> int {
    let target = if next_step > evaluation_steps {
        evaluation_steps
    } else if next_step < 1 {
        1
    } else {
        next_step
    };
    if target < current_step {
        current_step
    } else {
        target
    }
}

/// An evaluator of the sphere problem: it carries the fidelity cursor; the
/// value is a pure function of the parameters.
#[derive(Debug)]
pub struct SphereEvaluator {
    pub params: Params,
    pub current_step: u64,
    pub evaluation_steps: u64,
}

impl SphereEvaluator {
    /// Advances the evaluation to `next_step`, clamped to the problem's
    /// fidelity and never backwards, and reports the objective value — the
    /// same value on every call, because it depends on the parameters alone.
    pub fn evaluate(&mut self, next_step: u64) -> (r: (u64, Values))
        requires
            old(self).evaluation_steps >= 1,
            old(self).current_step <= old(self).evaluation_steps,
        ensures
            final(self).params == old(self).params,
            final(self).evaluation_steps == old(self).evaluation_steps,
            final(self).current_step == r.0,
            r.0 as int == spec_next_cursor(
                old(self).current_step as int,
                old(self).evaluation_steps as int,
                next_step as int,
            ),
            1 <= r.0 <= old(self).evaluation_steps,
            r.0 >= old(self).current_step,
            r.1@ =~= seq![spec_sphere(old(self).params@)],
    {
        let target = if next_step > self.evaluation_steps {
            self.evaluation_steps
        } else if next_step < 1 {
            1
        } else {
            next_step
        };
        let cur = if target < self.current_step {
            self.current_step
        } else {
            target
        };
        self.current_step = cur;
        let mut acc: i64 = 0;
        let mut i: usize = 0;
        proof {
            assert(self.params@.take(0) =~= Seq::<Option<int>>::empty());
        }
        while i < self.params.0.len()
            invariant
                0 <= i <= self.params@.len(),
                self.params@.len() == self.params.0@.len(),
                acc as int == spec_sphere(self.params@.take(i as int)),
                0 <= acc,
            decreases self.params.0@.len() - i,
        {
            let ghost hr: int = match self.params@[i as int] {
                Some(v) => v * v / (SCALE as int),
                None => 0,
            };
            let here: i64 = match self.params.0[i] {
                Some(v) => {
                    proof {
                        assert(0 <= (v as i128) * (v as i128)
                            <= 85070591730234615865843651857942052864i128) by (nonlinear_arith)
                            requires
                                -9223372036854775808i128 <= v as i128 <= 9223372036854775807i128,
                        ;
                    }
                    let sq: i128 = (v as i128) * (v as i128);
                    let h = sq / (SCALE as i128);
                    proof {
                        vstd::arithmetic::div_mod::lemma_div_pos_is_pos(sq as int, SCALE as int);
                        assert(self.params@[i as int] == (match self.params.0@[i as int] {
                            Some(v2) => Some(v2 as int),
                            None => None::<int>,
                        }));
                        assert(hr == h as int);
                    }
                    if h > (i64::MAX as i128) {
                        i64::MAX
                    } else {
                        h as i64
                    }
                },
                None => {
                    proof {
                        assert(self.params@[i as int] == (match self.params.0@[i as int] {
                            Some(v2) => Some(v2 as int),
                            None => None::<int>,
                        }));
                    }
                    0
                },
            };
            proof {
                assert(hr >= 0);
                assert(here as int == if hr > i64::MAX as int {
                    i64::MAX as int
                } else {
                    hr
                });
            }
            let next: i64 = if acc > i64::MAX - here {
                i64::MAX
            } else {
                acc + here
            };
            proof {
                assert(self.params@.take(i as int + 1).drop_last() =~= self.params@.take(i as int));
                assert(self.params@.take(i as int + 1).last() == self.params@[i as int]);
                assert(next as int == spec_sphere(self.params@.take(i as int + 1)));
            }
            acc = next;
            i += 1;
        }
        proof {
            assert(self.params@.take(self.params@.len() as int) =~= self.params@);
        }
        let mut out: Vec<i64> = Vec::new();
        out.push(acc);
        (cur, Values(out))
    }
}

/// Reproducibility: evaluators over equal parameters report equal values —
/// dropping a problem and re-creating it with the same seed replays the same
/// trace on the same asks, because the outcome is a function of the
/// parameters and the requested step alone.
pub proof fn lemma_sphere_deterministic(p1: Seq<Option<int>>, p2: Seq<Option<int>>)
    requires
        p1 == p2,
    ensures
        spec_sphere(p1) == spec_sphere(p2),
{
}

/// Any in-process problem, held by value.
#[derive(Debug, Clone, Copy, PartialEq, Eq, Structural)]
pub enum BoxProblem {
    Sphere(SphereProblem),
}

impl BoxProblem {
    /// Binds an evaluator to a parameter assignment.
    pub fn create_evaluator(&self, params: Params) -> (r: BoxEvaluator)
        ensures
            self matches BoxProblem::Sphere(p) ==> (r matches BoxEvaluator::Sphere(e) && e.params
                == params && e.current_step == 0 && e.evaluation_steps == p.evaluation_steps),
    {
        match self {
            BoxProblem::Sphere(p) => BoxEvaluator::Sphere(p.create_evaluator(params)),
        }
    }
}

/// Any in-process evaluator, held by value.
#[derive(Debug)]
pub enum BoxEvaluator {
    Sphere(SphereEvaluator),
}

impl BoxEvaluator {
    /// Wraps an evaluator.
    pub fn new(evaluator: SphereEvaluator) -> (r: Self)
        ensures
            r matches BoxEvaluator::Sphere(e) && e == evaluator,
    {
        BoxEvaluator::Sphere(evaluator)
    }

    /// Advances the underlying evaluator; the reported step is exactly the
    /// requested one clamped into the problem's fidelity, never backwards.
    pub fn evaluate(&mut self, next_step: u64) -> (r: (u64, Values))
        requires
            (*old(self)) matches BoxEvaluator::Sphere(e) ==> e.evaluation_steps >= 1
                && e.current_step <= e.evaluation_steps,
        ensures
            (*old(self)) matches BoxEvaluator::Sphere(e) ==> {
                &&& r.0 as int == spec_next_cursor(
                    e.current_step as int,
                    e.evaluation_steps as int,
                    next_step as int,
                )
                &&& r.0 >= e.current_step
                &&& 1 <= r.0 <= e.evaluation_steps
                &&& r.1@ =~= seq![spec_sphere(e.params@)]
                &&& (*final(self)) matches BoxEvaluator::Sphere(e2) && e2.current_step == r.0
                    && e2.params == e.params && e2.evaluation_steps == e.evaluation_steps
            },
    {
        match self {
            BoxEvaluator::Sphere(e) => e.evaluate(next_step),
        }
    }
}

} // verus!
