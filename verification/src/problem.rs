//! Problem specifications and the capabilities they require of a solver.

use crate::attr_views;
use crate::capability::{Capabilities, Capability};
use crate::domain::{
    builder_views, spec_domain_ok, spec_domain_wf, Distribution, Domain, RangeView, Variable,
    VariableBuilder, VariableView,
};
use crate::ErrorKind;
use vstd::prelude::*;

verus! {

/// Problem specification: a name, free-form attributes, the domain of the
/// parameters, the domain of the objective values (one variable per
/// objective), and the number of steps of a full evaluation.
#[derive(Debug)]
pub struct ProblemSpec {
    pub name: String,
    pub attrs: Vec<(String, String)>,
    pub params_domain: Domain,
    pub values_domain: Domain,
    pub evaluation_steps: u64,
}

/// Mathematical model of a `ProblemSpec`.
pub struct ProblemSpecView {
    pub name: Seq<char>,
    pub attrs: Seq<(Seq<char>, Seq<char>)>,
    pub params_domain: Seq<VariableView>,
    pub values_domain: Seq<VariableView>,
    pub evaluation_steps: int,
}

impl View for ProblemSpec {
    type V = ProblemSpecView;

    open spec fn view(&self) -> ProblemSpecView {
        ProblemSpecView {
            name: self.name@,
            attrs: attr_views(self.attrs@),
            params_domain: self.params_domain@,
            values_domain: self.values_domain@,
            evaluation_steps: self.evaluation_steps as int,
        }
    }
}

/// Well-formedness of a problem specification: both domains are well formed
/// and at least one evaluation step exists.
pub open spec fn spec_problem_wf(s: ProblemSpecView) -> bool {
    &&& spec_domain_wf(s.params_domain)
    &&& spec_domain_wf(s.values_domain)
    &&& s.evaluation_steps >= 1
}

impl Clone for ProblemSpec {
    fn clone(&self) -> (r: Self)
        ensures
            r@ == self@,
    {
        ProblemSpec {
            name: self.name.clone(),
            attrs: crate::clone_attrs(&self.attrs),
            params_domain: Domain(crate::domain::clone_variables(&self.params_domain.0)),
            values_domain: Domain(crate::domain::clone_variables(&self.values_domain.0)),
            evaluation_steps: self.evaluation_steps,
        }
    }
}

/// Whether the problem described by `s` demands the capability `c` of a
/// solver.
pub open spec fn spec_requires_capability(s: ProblemSpecView, c: Capability) -> bool {
    match c {
        Capability::MultiObjective => s.values_domain.len() > 1,
        Capability::Conditional => exists|i: int|
            0 <= i < s.params_domain.len() && #[trigger] s.params_domain[i].conditions.len() > 0,
        Capability::UniformContinuous => exists|i: int|
            0 <= i < s.params_domain.len() && (#[trigger] s.params_domain[i].range)
                is Continuous && s.params_domain[i].distribution == Distribution::Uniform,
        Capability::LogUniformContinuous => exists|i: int|
            0 <= i < s.params_domain.len() && (#[trigger] s.params_domain[i].range)
                is Continuous && s.params_domain[i].distribution == Distribution::LogUniform,
        Capability::UniformDiscrete => exists|i: int|
            0 <= i < s.params_domain.len() && (#[trigger] s.params_domain[i].range)
                is Discrete && s.params_domain[i].distribution == Distribution::Uniform,
        Capability::LogUniformDiscrete => exists|i: int|
            0 <= i < s.params_domain.len() && (#[trigger] s.params_domain[i].range)
                is Discrete && s.params_domain[i].distribution == Distribution::LogUniform,
        Capability::Categorical => exists|i: int|
            0 <= i < s.params_domain.len() && (#[trigger] s.params_domain[i].range)
                is Categorical,
    }
}

impl ProblemSpec {
    /// Returns exactly the capabilities a solver needs to handle this
    /// problem: multi-objective when there is more than one objective,
    /// conditional when any parameter carries conditions, and one
    /// distribution/range tag per kind of parameter that occurs.
    #[verifier::loop_isolation(false)]
    pub fn requirements(&self) -> (r: Capabilities)
        ensures
            forall|c: Capability| r.has(c) == spec_requires_capability(self@, c),
    {
        let mut c = Capabilities::empty();
        proof {
            assert(!c.has(Capability::UniformContinuous) && !c.has(Capability::UniformDiscrete)
                && !c.has(Capability::LogUniformContinuous) && !c.has(
                Capability::LogUniformDiscrete,
            ) && !c.has(Capability::Categorical) && !c.has(Capability::Conditional) && !c.has(
                Capability::MultiObjective,
            ));
        }

        if self.values_domain.variables().len() > 1 {
            c = c.multi_objective();
        }

        let vars = self.params_domain.variables();
        let ghost dview = self.params_domain@;
        let mut i: usize = 0;
        while i < vars.len()
            invariant
                0 <= i <= dview.len(),
                vars == &self.params_domain.0,
                dview == self.params_domain@,
                c.has(Capability::MultiObjective) == (self@.values_domain.len() > 1),
                c.has(Capability::Conditional) == exists|k: int|
                    0 <= k < i && #[trigger] dview[k].conditions.len() > 0,
                c.has(Capability::UniformContinuous) == exists|k: int|
                    0 <= k < i && (#[trigger] dview[k].range) is Continuous && dview[k].distribution
                        == Distribution::Uniform,
                c.has(Capability::LogUniformContinuous) == exists|k: int|
                    0 <= k < i && (#[trigger] dview[k].range) is Continuous && dview[k].distribution
                        == Distribution::LogUniform,
                c.has(Capability::UniformDiscrete) == exists|k: int|
                    0 <= k < i && (#[trigger] dview[k].range) is Discrete && dview[k].distribution
                        == Distribution::Uniform,
                c.has(Capability::LogUniformDiscrete) == exists|k: int|
                    0 <= k < i && (#[trigger] dview[k].range) is Discrete && dview[k].distribution
                        == Distribution::LogUniform,
                c.has(Capability::Categorical) == exists|k: int|
                    0 <= k < i && (#[trigger] dview[k].range) is Categorical,
            decreases dview.len() - i,
        {
            proof {
                assert(dview[i as int] == vars@[i as int]@);
                assert(dview[i as int].conditions.len() == vars@[i as int].conditions@.len());
                assert(dview[i as int].range == vars@[i as int].range@);
                assert(dview[i as int].distribution == vars@[i as int].distribution);
            }
            let v = &vars[i];
            if v.conditions.len() > 0 {
                c = c.conditional();
            }
            match (&v.range, v.distribution) {
                (crate::domain::Range::Continuous { .. }, Distribution::Uniform) => {
                    c = c.uniform_continuous();
                },
                (crate::domain::Range::Continuous { .. }, Distribution::LogUniform) => {
                    c = c.log_uniform_continuous();
                },
                (crate::domain::Range::Discrete { .. }, Distribution::Uniform) => {
                    c = c.uniform_discrete();
                },
                (crate::domain::Range::Discrete { .. }, Distribution::LogUniform) => {
                    c = c.log_uniform_discrete();
                },
                (crate::domain::Range::Categorical { .. }, _) => {
                    c = c.categorical();
                },
            }
            i += 1;
        }
        c
    }
}

/// Capability derivation on a problem with exactly one continuous log-uniform
/// unconditioned parameter and two objective variables: such a problem
/// requires log-uniform-continuous and multi-objective support, and nothing
/// else.
pub proof fn lemma_requirements_single_log_uniform(s: ProblemSpecView)
    requires
        s.params_domain.len() == 1,
        s.params_domain[0].range is Continuous,
        s.params_domain[0].distribution == Distribution::LogUniform,
        s.params_domain[0].conditions.len() == 0,
        s.values_domain.len() == 2,
    ensures
        forall|c: Capability|
            spec_requires_capability(s, c) == (c == Capability::LogUniformContinuous || c
                == Capability::MultiObjective),
{
    assert forall|c: Capability|
        spec_requires_capability(s, c) == (c == Capability::LogUniformContinuous || c
            == Capability::MultiObjective) by {
        match c {
            Capability::LogUniformContinuous => {
                assert(spec_requires_capability(s, c)) by {
                    assert(0 <= 0 < s.params_domain.len() && (s.params_domain[0].range)
                        is Continuous && s.params_domain[0].distribution
                        == Distribution::LogUniform);
                }
            },
            Capability::MultiObjective => {
                assert(spec_requires_capability(s, c));
            },
            _ => {
                assert(!spec_requires_capability(s, c)) by {
                    assert(forall|i: int|
                        0 <= i < s.params_domain.len() ==> #[trigger] s.params_domain[i]
                            == s.params_domain[0]);
                }
            },
        }
    }
}

/// `ProblemSpec` builder.
#[derive(Debug)]
pub struct ProblemSpecBuilder {
    pub name: String,
    pub attrs: Vec<(String, String)>,
    pub params: Vec<VariableBuilder>,
    pub values: Vec<VariableBuilder>,
    pub evaluation_steps: u64,
}

impl ProblemSpecBuilder {
    /// Makes a new builder for a problem of the given name, with one
    /// evaluation step and empty domains.
    pub fn new(problem_name: &str) -> (r: Self)
        ensures
            r.name@ == problem_name@,
            r.attrs@.len() == 0,
            r.params@.len() == 0,
            r.values@.len() == 0,
            r.evaluation_steps == 1u64,
    {
        ProblemSpecBuilder {
            name: problem_name.to_owned(),
            attrs: Vec::new(),
            params: Vec::new(),
            values: Vec::new(),
            evaluation_steps: 1,
        }
    }

    /// Records an attribute of this problem.
    pub fn attr(self, key: &str, value: &str) -> (r: Self)
        ensures
            r.name == self.name,
            r.params == self.params,
            r.values == self.values,
            r.evaluation_steps == self.evaluation_steps,
            attr_views(r.attrs@) =~= attr_views(self.attrs@).push((key@, value@)),
    {
        let mut b = self;
        b.attrs.push((key.to_owned(), value.to_owned()));
        b
    }

    /// Adds a variable to the parameter domain of this problem.
    pub fn param(self, v: VariableBuilder) -> (r: Self)
        ensures
            r.name == self.name,
            r.attrs == self.attrs,
            r.values == self.values,
            r.evaluation_steps == self.evaluation_steps,
            r.params@ == self.params@.push(v),
    {
        let mut b = self;
        b.params.push(v);
        b
    }

    /// Adds a variable to the value domain of this problem.
    pub fn value(self, v: VariableBuilder) -> (r: Self)
        ensures
            r.name == self.name,
            r.attrs == self.attrs,
            r.params == self.params,
            r.evaluation_steps == self.evaluation_steps,
            r.values@ == self.values@.push(v),
    {
        let mut b = self;
        b.values.push(v);
        b
    }

    /// Sets the number of steps of a full evaluation.
    pub fn evaluation_steps(self, steps: u64) -> (r: Self)
        ensures
            r.name == self.name,
            r.attrs == self.attrs,
            r.params == self.params,
            r.values == self.values,
            r.evaluation_steps == steps,
    {
        ProblemSpecBuilder { evaluation_steps: steps, ..self }
    }

    /// Builds the `ProblemSpec`, validating both domains and rejecting zero
    /// evaluation steps.
    pub fn finish(self) -> (r: Result<ProblemSpec, ErrorKind>)
        ensures
            r.is_ok() == (spec_domain_ok(builder_views(self.params@)) && spec_domain_ok(
                builder_views(self.values@),
            ) && self.evaluation_steps >= 1),
            r matches Ok(s) ==> s@.name == self.name@ && s@.attrs == attr_views(self.attrs@)
                && s@.params_domain == builder_views(self.params@) && s@.values_domain
                == builder_views(self.values@) && s@.evaluation_steps == self.evaluation_steps
                && spec_problem_wf(s@),
            r.is_err() ==> r == Result::<ProblemSpec, ErrorKind>::Err(ErrorKind::InvalidInput),
    {
        let params_domain = match Domain::new(self.params) {
            Ok(d) => d,
            Err(_) => {
                return Err(ErrorKind::InvalidInput);
            },
        };
        let values_domain = match Domain::new(self.values) {
            Ok(d) => d,
            Err(_) => {
                return Err(ErrorKind::InvalidInput);
            },
        };
        if self.evaluation_steps == 0 {
            return Err(ErrorKind::InvalidInput);
        }
        Ok(ProblemSpec {
            name: self.name,
            attrs: self.attrs,
            params_domain,
            values_domain,
            evaluation_steps: self.evaluation_steps,
        })
    }
}

} // verus!
