//! A solver based on random search.

use crate::capability::{Capabilities, SolverSpec, SolverSpecBuilder};
use crate::domain::{
    spec_domain_wf, spec_range_contains, views_of, Distribution, Range, Variable, VariableView,
    MAX_UNITS, SCALE,
};
use crate::problem::{spec_problem_wf, ProblemSpec};
use crate::rng::StudyRng;
use crate::trial::{
    opt_views, spec_cond_sat, spec_params_match, spec_var_active, EvaluatedTrial, IdGen,
    NextTrial, Params,
};
use crate::ErrorKind;
use vstd::prelude::*;

verus! {

/// Whether a flag is unset.
pub fn is_false(b: &bool) -> (r: bool)
    ensures
        r == !*b,
{
    !*b
}

/// Recipe of `RandomSolver`. With `ask_all_steps` the solver advances one
/// fidelity step per ask instead of asking for a full evaluation.
#[derive(Debug, Clone, Copy, PartialEq, Eq, Structural)]
pub struct RandomSolverRecipe {
    pub ask_all_steps: bool,
}

impl RandomSolverRecipe {
    /// Makes the factory of this recipe.
    pub fn create_factory(&self) -> (r: RandomSolverFactory)
        ensures
            r.ask_all_steps == self.ask_all_steps,
    {
        RandomSolverFactory { ask_all_steps: self.ask_all_steps }
    }
}

/// Factory of `RandomSolver`.
#[derive(Debug, Clone, Copy, PartialEq, Eq, Structural)]
pub struct RandomSolverFactory {
    pub ask_all_steps: bool,
}

impl RandomSolverFactory {
    /// The specification of the random solver: it services every capability.
    pub fn specification(&self) -> (r: SolverSpec)
        ensures
            r@.name == "Random"@,
            forall|c: crate::capability::Capability| r.capabilities.has(c),
    {
        let spec = SolverSpecBuilder::new("Random").capabilities(Capabilities::all());
        spec.finish()
    }

    /// Creates a solver for the given problem.
    pub fn create_solver(&self, rng: StudyRng, problem: &ProblemSpec) -> (r: RandomSolver)
        ensures
            r.rng == rng,
            r.problem@ == problem@,
            r.current_step == if self.ask_all_steps {
                Some(0u64)
            } else {
                None::<u64>
            },
    {
        RandomSolver {
            rng,
            problem: problem.clone(),
            current_step: if self.ask_all_steps {
                Some(0)
            } else {
                None
            },
        }
    }
}

/// Whether the parameter entry for variable `i` is active under the partial
/// assignment built so far.
#[verifier::loop_isolation(false)]
fn check_active(vars: &Vec<Variable>, params: &Vec<Option<i64>>, i: usize) -> (r: bool)
    requires
        i < vars@.len(),
        params@.len() == i,
        forall|a: int, b: int| 0 <= a < b < i ==> vars@[a]@.name != vars@[b]@.name,
    ensures
        r == spec_var_active(
            opt_views(params@),
            views_of(vars@),
            i as int,
        ),
{
    let ghost dview = views_of(vars@);
    let ghost pview = opt_views(params@);
    proof {
        assert(dview[i as int] == vars@[i as int]@);
        assert(pview.len() == i);
    }
    let conds = &vars[i].conditions;
    let mut k: usize = 0;
    while k < conds.len()
        invariant
            0 <= k <= conds@.len(),
            conds == &vars@[i as int].conditions,
            forall|c: int| 0 <= c < k ==> #[trigger] spec_cond_sat(pview, dview, i as int, c),
        decreases conds@.len() - k,
    {
        let crate::domain::Condition::Eq { target, value } = &conds[k];
        proof {
            assert(dview[i as int].conditions[k as int] == conds@[k as int]@);
        }
        let mut j: usize = 0;
        let mut found = false;
        while j < i && !found
            invariant
                0 <= j <= i,
                found ==> spec_cond_sat(pview, dview, i as int, k as int),
                !found ==> forall|a: int| 0 <= a < j ==> dview[a].name != target@,
            decreases i - j, (if found { 0int } else { 1int }),
        {
            proof {
                assert(dview[j as int] == vars@[j as int]@);
            }
            if vars[j].name == *target {
                let sat = match params[j] {
                    Some(x) => x == *value,
                    None => false,
                };
                proof {
                    assert(pview[j as int] == (match params@[j as int] {
                        Some(v) => Some(v as int),
                        None => None::<int>,
                    }));
                }
                if sat {
                    proof {
                        assert(spec_cond_sat(pview, dview, i as int, k as int)) by {
                            assert(0 <= j < i && dview[j as int].name == dview[j as int].name
                                && dview[j as int].name == dview[i as int].conditions[
                                k as int
                            ].target && pview[j as int] == Some(
                                dview[i as int].conditions[k as int].value,
                            ));
                        }
                    }
                    found = true;
                } else {
                    proof {
                        assert forall|j2: int|
                            0 <= j2 < i && dview[j2].name == target@ implies j2 == j by {
                            assert(dview[j2] == vars@[j2]@ && dview[j as int] == vars@[j as int]@);
                        }
                        assert(!spec_cond_sat(pview, dview, i as int, k as int)) by {
                            if spec_cond_sat(pview, dview, i as int, k as int) {
                                let w = choose|j2: int|
                                    0 <= j2 < i && dview[j2].name == dview[j2].name && dview[
                                        j2
                                    ].name == dview[i as int].conditions[k as int].target && pview[
                                        j2
                                    ] == Some(dview[i as int].conditions[k as int].value);
                                assert(w == j);
                            }
                        }
                        assert(!spec_var_active(pview, dview, i as int));
                    }
                    return false;
                }
            } else {
                j += 1;
            }
        }
        if !found {
            proof {
                assert(!spec_cond_sat(pview, dview, i as int, k as int)) by {
                    if spec_cond_sat(pview, dview, i as int, k as int) {
                        let w = choose|j2: int|
                            0 <= j2 < i && dview[j2].name == dview[j2].name && dview[j2].name
                                == dview[i as int].conditions[k as int].target && pview[j2]
                                == Some(dview[i as int].conditions[k as int].value);
                        assert(false);
                    }
                }
                assert(!spec_var_active(pview, dview, i as int));
            }
            return false;
        }
        k += 1;
    }
    proof {
        assert(dview[i as int].conditions.len() == conds@.len());
        assert(spec_var_active(pview, dview, i as int));
    }
    true
}

/// Solver based on random search: every ask proposes a fresh trial whose
/// parameters are drawn inside the problem's domain, with the conditional
/// structure respected.
#[derive(Debug)]
pub struct RandomSolver {
    pub rng: StudyRng,
    pub problem: ProblemSpec,
    pub current_step: Option<u64>,
}

impl RandomSolver {
    /// Proposes a fresh trial: a new identifier, one parameter per variable
    /// of the params domain, every active parameter inside its range, and a
    /// parameter active exactly when its conditions hold. Without step
    /// tracking the trial asks for a full evaluation; with it, for the next
    /// step after the last one told — and once that last step has reached
    /// the problem's fidelity there is no further step to ask for, which is
    /// an internal error.
    ///
    /// A log-uniform variable is drawn in two stages — a power-of-two
    /// bucket of its range chosen uniformly, then a value uniformly inside
    /// the bucket — an integer stand-in for log-space sampling, since real
    /// logarithms stay outside the verified core. Only range membership is
    /// promised of any draw.
    #[verifier::loop_isolation(false)]
    #[verifier::rlimit(100)]
    pub fn ask(&mut self, idg: &mut IdGen) -> (r: Result<NextTrial, ErrorKind>)
        requires
            spec_problem_wf(old(self).problem@),
            old(idg).next < u64::MAX,
        ensures
            final(self).problem@ == old(self).problem@,
            final(self).current_step == old(self).current_step,
            r.is_err() == (old(self).current_step matches Some(c) && c >= old(
                self,
            ).problem@.evaluation_steps),
            r is Err ==> r == Result::<NextTrial, ErrorKind>::Err(ErrorKind::Bug) && *final(idg)
                == *old(idg),
            r matches Ok(t) ==> {
                &&& t.id == old(idg).next
                &&& final(idg).next == old(idg).next + 1
                &&& spec_params_match(t.params@, old(self).problem@.params_domain)
                &&& t@.next_step == match old(self).current_step {
                    Some(c) => Some(c as int + 1),
                    None => None::<int>,
                }
            },
    {
        let ghost dview = self.problem@.params_domain;
        let vars = &self.problem.params_domain.0;
        let mut params: Vec<Option<i64>> = Vec::new();
        let mut i: usize = 0;
        proof {
            assert(views_of(vars@) == dview);
            assert(opt_views(params@) =~= Seq::<Option<int>>::empty());
        }
        while i < vars.len()
            invariant
                0 <= i <= vars@.len(),
                vars == &self.problem.params_domain.0,
                self.problem@ == old(self).problem@,
                self.current_step == old(self).current_step,
                dview == views_of(vars@),
                spec_domain_wf(dview),
                params@.len() == i,
                forall|k: int|
                    0 <= k < i ==> match #[trigger] opt_views(params@)[k] {
                        Some(v) => spec_range_contains(dview[k].range, v),
                        None => true,
                    },
                forall|k: int|
                    0 <= k < i ==> (opt_views(params@)[k] is Some <==> spec_var_active(
                        opt_views(params@),
                        dview,
                        k,
                    )),
            decreases vars@.len() - i,
        {
            let ghost pview0 = opt_views(params@);
            proof {
                assert(dview[i as int] == vars@[i as int]@);
                assert forall|a: int, b: int|
                    0 <= a < b < i implies vars@[a]@.name != vars@[b]@.name by {
                    assert(dview[a] == vars@[a]@ && dview[b] == vars@[b]@);
                }
            }
            let active = check_active(vars, &params, i);
            let entry: Option<i64> = if !active {
                None
            } else {
                let v: i64 = match &vars[i].range {
                    Range::Continuous { low, high } => {
                        match vars[i].distribution {
                            Distribution::Uniform => self.rng.gen_range_ticks(*low, *high),
                            Distribution::LogUniform => {
                                // a log-uniform range is strictly positive
                                let t = self.rng.gen_range_log(*low as u64, *high as u64);
                                t as i64
                            },
                        }
                    },
                    Range::Discrete { low, high } => {
                        let unit: i64 = match vars[i].distribution {
                            Distribution::Uniform => {
                                let span: u64 = (((*high as i128) - (*low as i128))) as u64;
                                let draw = self.rng.gen_range_u64(0, span);
                                (((*low as i128) + (draw as i128))) as i64
                            },
                            Distribution::LogUniform => {
                                // a log-uniform range is strictly positive
                                self.rng.gen_range_log(*low as u64, *high as u64) as i64
                            },
                        };
                        let ticks: i64 = (((unit as i128) * (SCALE as i128))) as i64;
                        proof {
                            assert(*low <= unit < *high);
                            assert(-MAX_UNITS <= unit <= MAX_UNITS);
                            assert((unit as i128) * (SCALE as i128) >= (*low as i128) * (
                            SCALE as i128)) by (nonlinear_arith)
                                requires
                                    unit >= *low,
                                    SCALE > 0,
                            ;
                            assert((unit as i128) * (SCALE as i128) < (*high as i128) * (
                            SCALE as i128)) by (nonlinear_arith)
                                requires
                                    unit < *high,
                                    SCALE > 0,
                            ;
                            assert((unit as i128) * (SCALE as i128) <= (MAX_UNITS as i128) * (
                            SCALE as i128) && (unit as i128) * (SCALE as i128) >= (-MAX_UNITS
                                as i128) * (SCALE as i128)) by (nonlinear_arith)
                                requires
                                    -MAX_UNITS <= unit <= MAX_UNITS,
                                    SCALE > 0,
                            ;
                        }
                        ticks
                    },
                    Range::Categorical { choices } => {
                        let len: u64 = choices.len() as u64;
                        let draw = self.rng.gen_range_u64(0, len);
                        let ticks: i64 = (((draw as i128) * (SCALE as i128))) as i64;
                        proof {
                            assert(0 <= draw < len);
                            assert((draw as i128) * (SCALE as i128) < (len as i128) * (
                            SCALE as i128)) by (nonlinear_arith)
                                requires
                                    draw < len,
                                    SCALE > 0,
                            ;
                            assert((draw as i128) * (SCALE as i128) >= 0 && (draw as i128) * (
                            SCALE as i128) <= (MAX_UNITS as i128) * (SCALE as i128))
                                by (nonlinear_arith)
                                requires
                                    0 <= draw,
                                    draw < len,
                                    len <= MAX_UNITS,
                                    SCALE > 0,
                            ;
                        }
                        ticks
                    },
                };
                Some(v)
            };
            params.push(entry);
            i += 1;
            proof {
                let pview = opt_views(params@);
                assert(pview =~= pview0.push(
                    match entry {
                        Some(v) => Some(v as int),
                        None => None::<int>,
                    },
                ));
                assert forall|k: int|
                    0 <= k < i implies (pview[k] is Some <==> spec_var_active(
                    pview,
                    dview,
                    k,
                )) by {
                    assert(forall|j: int| 0 <= j < k ==> pview[j] == pview0[j]);
                    crate::trial::lemma_var_active_prefix(pview, pview0, dview, k);
                    if k < i - 1 {
                        assert(pview[k] == pview0[k]);
                    } else {
                        assert(pview[k] == (match entry {
                            Some(v) => Some(v as int),
                            None => None::<int>,
                        }));
                    }
                }
            }
        }
        let next_step: Option<u64> = match self.current_step {
            None => None,
            Some(cur) => {
                if cur >= self.problem.evaluation_steps {
                    // the step ladder is exhausted: nothing beyond the last
                    // told step remains to ask for
                    return Err(ErrorKind::Bug);
                }
                Some(cur + 1)
            },
        };
        let id = idg.generate();
        let t = NextTrial { id, params: Params(params), next_step };
        proof {
            assert(t.params@ =~= opt_views(params@));
        }
        Ok(t)
    }

    /// Records the outcome of a trial: with step tracking on, the last step
    /// becomes the floor for the next ask.
    pub fn tell(&mut self, trial: &EvaluatedTrial) -> (r: Result<(), ErrorKind>)
        ensures
            r.is_ok(),
            final(self).rng == old(self).rng,
            final(self).problem == old(self).problem,
            final(self).current_step == if old(self).current_step is Some {
                Some(trial.current_step)
            } else {
                None::<u64>
            },
    {
        if self.current_step.is_some() {
            self.current_step = Some(trial.current_step);
        }
        Ok(())
    }
}

} // verus!
