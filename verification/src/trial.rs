//! Trials: proposed parameter assignments and their evaluations.

use crate::domain::{spec_range_contains, VariableView};
use vstd::prelude::*;

verus! {

/// A parameter vector, one entry per variable of the params domain, in ticks.
/// `None` is the sentinel of a conditional parameter that is inactive in the
/// current assignment; the evaluator ignores such entries.
#[derive(Debug, PartialEq, Eq)]
pub struct Params(pub Vec<Option<i64>>);

/// The views of a sequence of optional tick values.
pub open spec fn opt_views(s: Seq<Option<i64>>) -> Seq<Option<int>> {
    s.map_values(
        |p: Option<i64>|
            match p {
                Some(v) => Some(v as int),
                None => None,
            },
    )
}

impl View for Params {
    type V = Seq<Option<int>>;

    open spec fn view(&self) -> Seq<Option<int>> {
        opt_views(self.0@)
    }
}

impl Clone for Params {
    fn clone(&self) -> (r: Self)
        ensures
            r@ == self@,
    {
        let mut v: Vec<Option<i64>> = Vec::new();
        let mut i: usize = 0;
        while i < self.0.len()
            invariant
                0 <= i <= self.0@.len(),
                v@ =~= self.0@.take(i as int),
            decreases self.0@.len() - i,
        {
            v.push(self.0[i]);
            i += 1;
        }
        proof {
            assert(v@ =~= self.0@);
        }
        Params(v)
    }
}

impl Params {
    /// Makes a new `Params` instance.
    pub fn new(params: Vec<Option<i64>>) -> (r: Self)
        ensures
            r.0 == params,
    {
        Params(params)
    }

    /// Returns the parameter values.
    pub fn get(&self) -> (r: &Vec<Option<i64>>)
        ensures
            r == &self.0,
    {
        &self.0
    }

    pub fn len(&self) -> (r: usize)
        ensures
            r == self@.len(),
    {
        self.0.len()
    }
}

/// An objective vector, one entry per variable of the values domain, in ticks.
#[derive(Debug, PartialEq, Eq)]
pub struct Values(pub Vec<i64>);

impl View for Values {
    type V = Seq<int>;

    open spec fn view(&self) -> Seq<int> {
        self.0@.map_values(|v: i64| v as int)
    }
}

impl Clone for Values {
    fn clone(&self) -> (r: Self)
        ensures
            r@ == self@,
    {
        let mut v: Vec<i64> = Vec::new();
        let mut i: usize = 0;
        while i < self.0.len()
            invariant
                0 <= i <= self.0@.len(),
                v@ =~= self.0@.take(i as int),
            decreases self.0@.len() - i,
        {
            v.push(self.0[i]);
            i += 1;
        }
        proof {
            assert(v@ =~= self.0@);
        }
        Values(v)
    }
}

impl Values {
    /// Makes a new `Values` instance.
    pub fn new(values: Vec<i64>) -> (r: Self)
        ensures
            r.0 == values,
    {
        Values(values)
    }

    pub fn len(&self) -> (r: usize)
        ensures
            r == self@.len(),
    {
        self.0.len()
    }
}

/// Whether condition `k` of variable `i` is satisfied: some earlier variable
/// carries the condition's target name and the assignment gives it exactly
/// the condition's value.
pub open spec fn spec_cond_sat(p: Seq<Option<int>>, d: Seq<VariableView>, i: int, k: int) -> bool {
    exists|j: int|
        0 <= j < i && d[j].name == #[trigger] d[j].name && d[j].name == d[i].conditions[k].target
            && p[j] == Some(d[i].conditions[k].value)
}

/// Whether a parameter entry is active under the conditions of variable `i`:
/// every condition names an earlier variable whose assigned value equals the
/// condition's value.
pub open spec fn spec_var_active(p: Seq<Option<int>>, d: Seq<VariableView>, i: int) -> bool {
    forall|k: int| 0 <= k < d[i].conditions.len() ==> #[trigger] spec_cond_sat(p, d, i, k)
}

/// Activity of a variable depends only on the entries before it: two
/// assignments that agree on those agree on the variable's activity.
pub proof fn lemma_var_active_prefix(
    p1: Seq<Option<int>>,
    p2: Seq<Option<int>>,
    d: Seq<VariableView>,
    i: int,
)
    requires
        0 <= i,
        forall|j: int| 0 <= j < i ==> p1[j] == p2[j],
    ensures
        spec_var_active(p1, d, i) == spec_var_active(p2, d, i),
{
    assert forall|k: int|
        0 <= k < d[i].conditions.len() implies (spec_cond_sat(p1, d, i, k) == spec_cond_sat(
        p2,
        d,
        i,
        k,
    )) by {
        if spec_cond_sat(p1, d, i, k) {
            let w = choose|j: int|
                0 <= j < i && d[j].name == d[j].name && d[j].name == d[i].conditions[k].target
                    && p1[j] == Some(d[i].conditions[k].value);
            assert(p2[w] == p1[w]);
            assert(spec_cond_sat(p2, d, i, k)) by {
                assert(0 <= w < i && d[w].name == d[w].name && d[w].name == d[
                    i
                ].conditions[k].target && p2[w] == Some(d[i].conditions[k].value));
            }
        }
        if spec_cond_sat(p2, d, i, k) {
            let w = choose|j: int|
                0 <= j < i && d[j].name == d[j].name && d[j].name == d[i].conditions[k].target
                    && p2[j] == Some(d[i].conditions[k].value);
            assert(p1[w] == p2[w]);
            assert(spec_cond_sat(p1, d, i, k)) by {
                assert(0 <= w < i && d[w].name == d[w].name && d[w].name == d[
                    i
                ].conditions[k].target && p1[w] == Some(d[i].conditions[k].value));
            }
        }
    }
}

/// Whether a parameter vector fits a params domain: one entry per variable,
/// every active entry inside its range, and an entry active exactly when its
/// conditions hold under this assignment.
pub open spec fn spec_params_match(p: Seq<Option<int>>, d: Seq<VariableView>) -> bool {
    &&& p.len() == d.len()
    &&& forall|i: int|
        0 <= i < p.len() ==> match #[trigger] p[i] {
            Some(v) => spec_range_contains(d[i].range, v),
            None => true,
        }
    &&& forall|i: int| 0 <= i < p.len() ==> (p[i] is Some <==> spec_var_active(p, d, i))
}

/// A trial proposed by a solver. `next_step` is the fidelity the solver wants
/// the evaluator advanced to; `None` means "evaluate to completion".
#[derive(Debug, PartialEq, Eq)]
pub struct NextTrial {
    pub id: u64,
    pub params: Params,
    pub next_step: Option<u64>,
}

impl Clone for NextTrial {
    fn clone(&self) -> (r: Self)
        ensures
            r@ == self@,
    {
        NextTrial { id: self.id, params: self.params.clone(), next_step: self.next_step }
    }
}

/// Mathematical model of a `NextTrial`.
pub struct NextTrialView {
    pub id: int,
    pub params: Seq<Option<int>>,
    pub next_step: Option<int>,
}

impl View for NextTrial {
    type V = NextTrialView;

    open spec fn view(&self) -> NextTrialView {
        NextTrialView {
            id: self.id as int,
            params: self.params@,
            next_step: match self.next_step {
                Some(s) => Some(s as int),
                None => None,
            },
        }
    }
}

/// The outcome of evaluating a trial. `values` is `None` when the point was
/// unevaluable (for example an infeasible conditional branch).
#[derive(Debug, PartialEq, Eq)]
pub struct EvaluatedTrial {
    pub id: u64,
    pub values: Option<Values>,
    pub current_step: u64,
}

/// Mathematical model of an `EvaluatedTrial`.
pub struct EvaluatedTrialView {
    pub id: int,
    pub values: Option<Seq<int>>,
    pub current_step: int,
}

impl View for EvaluatedTrial {
    type V = EvaluatedTrialView;

    open spec fn view(&self) -> EvaluatedTrialView {
        EvaluatedTrialView {
            id: self.id as int,
            values: match &self.values {
                Some(v) => Some(v@),
                None => None,
            },
            current_step: self.current_step as int,
        }
    }
}

impl Clone for EvaluatedTrial {
    fn clone(&self) -> (r: Self)
        ensures
            r@ == self@,
    {
        EvaluatedTrial {
            id: self.id,
            values: match &self.values {
                Some(v) => Some(v.clone()),
                None => None,
            },
            current_step: self.current_step,
        }
    }
}

/// Issues trial identifiers as monotonically increasing integers, so that
/// identifiers are unique within a study.
#[derive(Debug, Clone, Copy, PartialEq, Eq, Structural)]
pub struct IdGen {
    pub next: u64,
}

impl IdGen {
    /// A generator whose first identifier is `0`.
    pub fn new() -> (r: Self)
        ensures
            r.next == 0,
    {
        IdGen { next: 0 }
    }

    /// Issues the next identifier. Every identifier issued later is strictly
    /// greater, so no identifier is ever issued twice.
    pub fn generate(&mut self) -> (r: u64)
        requires
            old(self).next < u64::MAX,
        ensures
            r == old(self).next,
            final(self).next == old(self).next + 1,
    {
        let r = self.next;
        self.next = self.next + 1;
        r
    }

    /// Pre-advances the generator so that every identifier issued later is at
    /// least `lower_bound`; used when a remote solver mints its own ids.
    pub fn advance_to(&mut self, lower_bound: u64)
        ensures
            final(self).next == if old(self).next >= lower_bound {
                old(self).next as int
            } else {
                lower_bound as int
            },
    {
        if self.next < lower_bound {
            self.next = lower_bound;
        }
    }
}

} // verus!
