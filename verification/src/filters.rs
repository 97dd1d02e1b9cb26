//! Value filters: hooks that rewrite trials on the wire between solver and
//! problem.
//!
//! A filter pairs a `filter_ask` hook, applied to a proposed trial before it
//! reaches the evaluator, with a `filter_tell` hook, applied to the outcome
//! before it reaches the solver. Filters are pure with respect to the trial
//! id: what a filter remembers about a trial, keyed by its id, it forgets on
//! tell.

use crate::domain::{
    spec_range_contains, views_of, Condition, Distribution, Domain, Range, RangeView, Variable,
    VariableView, SCALE,
};
use crate::problem::ProblemSpec;
use crate::rng::StudyRng;
use crate::trial::{opt_views, EvaluatedTrial, NextTrial, Params, Values};
use crate::ErrorKind;
use std::collections::HashMap;
use vstd::prelude::*;

verus! {

broadcast use vstd::std_specs::hash::group_hash_axioms;

/// Recipe of `DiscreteToContinuousFilter`.
#[derive(Debug, Clone, Copy, PartialEq, Eq, Structural)]
pub struct DiscreteToContinuousFilterRecipe {}

impl DiscreteToContinuousFilterRecipe {
    /// Makes the filter.
    pub fn create_filter(&self) -> (r: DiscreteToContinuousFilter)
        ensures
            r.indices@.len() == 0,
            r.originals@ == Map::<u64, Params>::empty(),
    {
        DiscreteToContinuousFilter { indices: Vec::new(), originals: HashMap::new() }
    }
}

/// A tick value rounded toward zero to its whole-unit grid, as a discrete
/// parameter is read back from a continuous relaxation.
pub open spec fn spec_trunc_unit(v: int) -> int {
    if v >= 0 {
        v / (SCALE as int) * (SCALE as int)
    } else {
        -((-v) / (SCALE as int) * (SCALE as int))
    }
}

/// Rounds a tick value toward zero to its whole-unit grid.
pub fn round_to_unit(v: i64) -> (r: i64)
    ensures
        r as int == spec_trunc_unit(v as int),
{
    if v >= 0 {
        let vu = v as u64;
        let q = vu / (SCALE as u64);
        proof {
            assert(q * (SCALE as u64) <= vu) by {
                vstd::arithmetic::div_mod::lemma_fundamental_div_mod(vu as int, SCALE as int);
                vstd::arithmetic::div_mod::lemma_mod_bound(vu as int, SCALE as int);
            }
        }
        (q * (SCALE as u64)) as i64
    } else {
        let mag: u64 = (-(v as i128)) as u64;
        let q = mag / (SCALE as u64);
        proof {
            assert(q * (SCALE as u64) <= mag) by {
                vstd::arithmetic::div_mod::lemma_fundamental_div_mod(mag as int, SCALE as int);
                vstd::arithmetic::div_mod::lemma_mod_bound(mag as int, SCALE as int);
            }
        }
        let back: u64 = q * (SCALE as u64);
        (-(back as i128)) as i64
    }
}

/// The continuous relaxation of a discrete range, in ticks.
pub open spec fn spec_relax_var(v: VariableView) -> VariableView {
    match v.range {
        RangeView::Discrete { low, high } => VariableView {
            range: RangeView::Continuous { low: low * SCALE, high: high * SCALE },
            ..v
        },
        _ => v,
    }
}

/// Relaxes discrete parameters to continuous ones for solvers without
/// discrete support, and rounds the relaxed entries back to the unit grid on
/// ask, remembering the trial's original parameters until tell.
#[derive(Debug)]
pub struct DiscreteToContinuousFilter {
    /// The parameter positions that were relaxed.
    pub indices: Vec<usize>,
    /// The original parameters of each in-flight trial, by trial id.
    pub originals: HashMap<u64, Params>,
}

impl DiscreteToContinuousFilter {
    /// Rewrites the params domain: every discrete variable becomes the
    /// continuous range over the same ticks, and its position is recorded.
    #[verifier::loop_isolation(false)]
    pub fn filter_problem_spec(&mut self, spec: ProblemSpec) -> (r: ProblemSpec)
        requires
            crate::problem::spec_problem_wf(spec@),
        ensures
            r@.name == spec@.name,
            r@.attrs == spec@.attrs,
            r@.values_domain == spec@.values_domain,
            r@.evaluation_steps == spec@.evaluation_steps,
            r@.params_domain.len() == spec@.params_domain.len(),
            forall|i: int|
                0 <= i < spec@.params_domain.len() ==> r@.params_domain[i] == spec_relax_var(
                    #[trigger] spec@.params_domain[i],
                ),
            forall|i: int|
                0 <= i < spec@.params_domain.len() ==> (final(self).indices@.contains(i as usize)
                    <==> spec@.params_domain[i].range is Discrete),
            final(self).originals@ == old(self).originals@,
    {
        let ghost dview = spec@.params_domain;
        let mut vars: Vec<Variable> = Vec::new();
        let mut indices: Vec<usize> = Vec::new();
        let src = spec.params_domain.0;
        let mut i: usize = 0;
        while i < src.len()
            invariant
                0 <= i <= src@.len(),
                dview == views_of(src@),
                vars@.len() == i,
                forall|k: int|
                    0 <= k < i ==> views_of(vars@)[k] == spec_relax_var(#[trigger] dview[k]),
                forall|k: int|
                    0 <= k < i ==> (indices@.contains(k as usize) <==> dview[k].range
                        is Discrete),
                forall|k: int|
                    0 <= k < indices@.len() ==> (#[trigger] indices@[k]) < i,
            decreases src@.len() - i,
        {
            proof {
                assert(dview[i as int] == src@[i as int]@);
                assert(crate::domain::spec_variable_wf(dview[i as int]));
            }
            let v = &src[i];
            let ghost iold = indices@;
            let nv = match &v.range {
                Range::Discrete { low, high } => {
                    proof {
                        lemma_units_scale_fits(*low as int);
                        lemma_units_scale_fits(*high as int);
                    }
                    let lowt: i64 = ((*low as i128) * (SCALE as i128)) as i64;
                    let hight: i64 = ((*high as i128) * (SCALE as i128)) as i64;
                    indices.push(i);
                    Variable {
                        name: v.name.clone(),
                        range: Range::Continuous { low: lowt, high: hight },
                        distribution: v.distribution,
                        conditions: crate::domain::clone_conditions(&v.conditions),
                    }
                },
                _ => v.clone(),
            };
            vars.push(nv);
            i += 1;
            proof {
                assert(views_of(vars@)[i - 1] == vars@[i - 1]@);
                assert forall|k: int|
                    0 <= k < i implies (indices@.contains(k as usize) <==> dview[k].range
                    is Discrete) by {
                    if indices@.contains(k as usize) {
                        let w = choose|w: int| 0 <= w < indices@.len() && indices@[w] == k as usize;
                        if w < iold.len() {
                            assert(indices@[w] == iold[w]);
                        }
                        assert(indices@[w] < i);
                    }
                    if k < i - 1 {
                        if iold.contains(k as usize) {
                            let w = choose|w: int| 0 <= w < iold.len() && iold[w] == k as usize;
                            assert(indices@[w] == iold[w]);
                            assert(indices@.contains(k as usize));
                        }
                    } else {
                        if dview[k].range is Discrete {
                            assert(indices@.last() == k as usize);
                        }
                    }
                }
                assert forall|w: int|
                    0 <= w < indices@.len() implies (#[trigger] indices@[w]) < i by {
                    if w < iold.len() {
                        assert(indices@[w] == iold[w]);
                    }
                }
            }
        }
        self.indices = indices;
        proof {
            assert(views_of(vars@) =~= views_of(vars@));
        }
        ProblemSpec {
            name: spec.name,
            attrs: spec.attrs,
            params_domain: Domain(vars),
            values_domain: spec.values_domain,
            evaluation_steps: spec.evaluation_steps,
        }
    }

    /// Rounds every relaxed entry of the proposed trial down to its unit
    /// grid, and remembers the original parameters under the trial's id.
    #[verifier::loop_isolation(false)]
    pub fn filter_ask(&mut self, trial: NextTrial) -> (r: NextTrial)
        requires
            forall|w: int|
                0 <= w < old(self).indices@.len() ==> (#[trigger] old(self).indices@[w])
                    < trial.params@.len(),
        ensures
            r.id == trial.id,
            r.next_step == trial.next_step,
            r.params@.len() == trial.params@.len(),
            forall|k: int|
                0 <= k < trial.params@.len() ==> r.params@[k] == (
                if old(self).indices@.contains(k as usize) {
                    match trial.params@[k] {
                        Some(v) => Some(spec_trunc_unit(v)),
                        None => None,
                    }
                } else {
                    trial.params@[k]
                }),
            final(self).indices == old(self).indices,
            final(self).originals@.dom() == old(self).originals@.dom().insert(trial.id),
            final(self).originals@[trial.id]@ == trial.params@,
            forall|id: u64|
                id != trial.id && old(self).originals@.contains_key(id)
                    ==> #[trigger] final(self).originals@[id] == old(self).originals@[id],
    {
        let original = trial.params.clone();
        let mut params = trial.params.0;
        let ghost pview0 = opt_views(params@);
        let mut j: usize = 0;
        while j < self.indices.len()
            invariant
                0 <= j <= self.indices@.len(),
                self.indices == old(self).indices,
                self.originals == old(self).originals,
                params@.len() == pview0.len(),
                forall|k: int|
                    0 <= k < pview0.len() ==> opt_views(params@)[k] == (
                    if exists|w: int|
                        0 <= w < j && #[trigger] self.indices@[w] == k as usize {
                        match pview0[k] {
                            Some(v) => Some(spec_trunc_unit(v)),
                            None => None::<int>,
                        }
                    } else {
                        pview0[k]
                    }),
            decreases self.indices@.len() - j,
        {
            let idx = self.indices[j];
            {
                let ghost before = opt_views(params@);
                let entry = params[idx];
                let rounded: Option<i64> = match entry {
                    Some(v) => Some(round_to_unit(v)),
                    None => None,
                };
                params.set(idx, rounded);
                proof {
                    let after = opt_views(params@);
                    assert(after =~= before.update(
                        idx as int,
                        match before[idx as int] {
                            Some(v) => Some(spec_trunc_unit(v)),
                            None => None::<int>,
                        },
                    ));
                    assert(before[idx as int] == (if exists|w: int|
                        0 <= w < j && #[trigger] self.indices@[w] == idx {
                        match pview0[idx as int] {
                            Some(v) => Some(spec_trunc_unit(v)),
                            None => None::<int>,
                        }
                    } else {
                        pview0[idx as int]
                    }));
                    assert(match pview0[idx as int] {
                        Some(v) => spec_trunc_unit(spec_trunc_unit(v)) == spec_trunc_unit(v),
                        None => true,
                    }) by {
                        match pview0[idx as int] {
                            Some(v) => {
                                lemma_round_idempotent(v);
                            },
                            None => {},
                        }
                    }
                }
            }
            j += 1;
            proof {
                assert forall|k: int|
                    0 <= k < pview0.len() implies opt_views(params@)[k] == (
                if exists|w: int|
                    0 <= w < j && #[trigger] self.indices@[w] == k as usize {
                    match pview0[k] {
                        Some(v) => Some(spec_trunc_unit(v)),
                        None => None::<int>,
                    }
                } else {
                    pview0[k]
                }) by {
                    assert(self.indices@[j - 1] == idx);
                    if exists|w: int| 0 <= w < j && #[trigger] self.indices@[w] == k as usize {
                        let w = choose|w: int| 0 <= w < j && #[trigger] self.indices@[w]
                            == k as usize;
                        if w < j - 1 {
                            assert(exists|w2: int|
                                0 <= w2 < j - 1 && #[trigger] self.indices@[w2] == k as usize);
                        } else {
                            vstd::std_specs::vec::axiom_spec_len(&params);
                            assert(k as usize == idx);
                            assert(k == idx as int);
                        }
                    } else {
                        vstd::std_specs::vec::axiom_spec_len(&params);
                        assert(self.indices@[j - 1] != k as usize);
                        assert(k != idx as int);
                    }
                }
            }
        }
        proof {
            assert forall|k: int|
                0 <= k < pview0.len() implies (exists|w: int|
                0 <= w < self.indices@.len() && #[trigger] self.indices@[w] == k as usize)
                == #[trigger] self.indices@.contains(k as usize) by {}
        }
        self.originals.insert(trial.id, original);
        NextTrial { id: trial.id, params: Params(params), next_step: trial.next_step }
    }

    /// Forgets the trial's remembered parameters and hands them back, so the
    /// caller can report the outcome against what the solver proposed.
    pub fn filter_tell(&mut self, trial: &EvaluatedTrial) -> (r: Result<Params, ErrorKind>)
        ensures
            final(self).indices == old(self).indices,
            match r {
                Ok(p) => old(self).originals@.contains_key(trial.id) && p == old(
                    self,
                ).originals@[trial.id] && final(self).originals@ == old(self).originals@.remove(
                    trial.id,
                ),
                Err(e) => !old(self).originals@.contains_key(trial.id) && e == ErrorKind::Other
                    && final(self).originals@ == old(self).originals@,
            },
    {
        match self.originals.remove(&trial.id) {
            Some(p) => Ok(p),
            None => Err(ErrorKind::Other),
        }
    }
}

/// A whole-unit magnitude scales into ticks without overflow.
proof fn lemma_units_scale_fits(u: int)
    requires
        -crate::domain::MAX_UNITS <= u <= crate::domain::MAX_UNITS,
    ensures
        i64::MIN <= u * SCALE <= i64::MAX,
{
    assert(u * SCALE <= crate::domain::MAX_UNITS * SCALE) by (nonlinear_arith)
        requires u <= crate::domain::MAX_UNITS, SCALE > 0;
    assert(u * SCALE >= (-crate::domain::MAX_UNITS) * SCALE) by (nonlinear_arith)
        requires u >= -crate::domain::MAX_UNITS, SCALE > 0;
}

/// Rounding to the unit grid is idempotent.
proof fn lemma_round_idempotent(v: int)
    ensures
        spec_trunc_unit(spec_trunc_unit(v)) == spec_trunc_unit(v),
{
    let sc = SCALE as int;
    if v >= 0 {
        let q = v / sc;
        assert(q >= 0) by {
            vstd::arithmetic::div_mod::lemma_div_pos_is_pos(v, sc);
        }
        assert(q * sc / sc == q) by {
            vstd::arithmetic::div_mod::lemma_div_multiples_vanish(q, sc);
        }
        assert(q * sc >= 0) by (nonlinear_arith)
            requires q >= 0, sc > 0;
    } else {
        let q = (-v) / sc;
        assert(q >= 0) by {
            vstd::arithmetic::div_mod::lemma_div_pos_is_pos(-v, sc);
        }
        assert(q * sc / sc == q) by {
            vstd::arithmetic::div_mod::lemma_div_multiples_vanish(q, sc);
        }
        assert(q * sc >= 0) by (nonlinear_arith)
            requires q >= 0, sc > 0;
        if q * sc == 0 {
        } else {
        }
    }
}

/// Recipe of `OneHotEncodingFilter`.
#[derive(Debug, Clone, Copy, PartialEq, Eq, Structural)]
pub struct OneHotEncodingFilterRecipe {}

impl OneHotEncodingFilterRecipe {
    /// Makes the filter.
    pub fn create_filter(&self) -> (r: OneHotEncodingFilter)
        ensures
            r.mappings@ == Map::<u64, u64>::empty(),
            r.originals@ == Map::<u64, Params>::empty(),
    {
        OneHotEncodingFilter { mappings: HashMap::new(), originals: HashMap::new() }
    }
}



/// The index of the largest entry of the block `[start, start + n)`,
/// relative to `start`; among equal entries the last one wins, and an
/// inactive entry loses to every active one.
pub open spec fn spec_argmax(p: Seq<Option<int>>, start: int, n: int) -> int
    decreases n,
{
    if n <= 1 {
        0
    } else {
        let rest = spec_argmax(p, start, n - 1);
        if spec_opt_ge(p[start + n - 1], p[start + rest]) {
            n - 1
        } else {
            rest
        }
    }
}

/// Whether `a` is at least `b`, with inactive entries below every active
/// one.
pub open spec fn spec_opt_ge(a: Option<int>, b: Option<int>) -> bool {
    match (a, b) {
        (Some(x), Some(y)) => x >= y,
        (Some(x), None) => true,
        (None, Some(y)) => false,
        (None, None) => true,
    }
}


/// Whether position `k` lies inside one of the first `upto` blocks.
pub open spec fn spec_in_block_upto(blocks: Seq<(u64, u64)>, upto: int, k: int) -> bool {
    exists|w: int|
        0 <= w < upto && (#[trigger] blocks[w]).0 <= k < blocks[w].0 + blocks[w].1
}

/// A write inside the current block leaves every position outside the
/// processed blocks untouched.
proof fn lemma_onehot_untouched(
    blocks: Seq<(u64, u64)>,
    b: int,
    pview0: Seq<Option<int>>,
    before: Seq<Option<int>>,
    after: Seq<Option<int>>,
    lo: int,
    hi: int,
)
    requires
        0 <= b < blocks.len(),
        before.len() == pview0.len(),
        after.len() == before.len(),
        blocks[b].0 <= lo,
        hi <= blocks[b].0 + blocks[b].1,
        forall|k: int|
            0 <= k < pview0.len() && !spec_in_block_upto(blocks, b, k) ==> before[k] == pview0[k],
        forall|k: int| 0 <= k < before.len() && !(lo <= k < hi) ==> after[k] == before[k],
    ensures
        forall|k: int|
            0 <= k < pview0.len() && !spec_in_block_upto(blocks, b, k) && !(blocks[b].0 <= k
                < blocks[b].0 + blocks[b].1) ==> after[k] == pview0[k],
{
}


/// One indicator variable of a categorical variable: named after the
/// variable and the choice position, continuous over one unit.
pub open spec fn spec_onehot_var(v: VariableView, j: int) -> VariableView {
    VariableView {
        name: v.name + seq!['_'] + crate::text::spec_digits(j),
        range: RangeView::Continuous { low: 0, high: SCALE as int },
        distribution: v.distribution,
        conditions: v.conditions,
    }
}

/// What one variable becomes under one-hot expansion: a categorical
/// variable with `n` choices becomes `n` indicators; anything else stays.
pub open spec fn spec_onehot_expand_var(v: VariableView) -> Seq<VariableView> {
    match v.range {
        RangeView::Categorical { choices } => Seq::new(
            choices.len() as nat,
            |j: int| spec_onehot_var(v, j),
        ),
        _ => seq![v],
    }
}

/// The one-hot expansion of a whole params domain.
pub open spec fn spec_onehot_expand(vars: Seq<VariableView>) -> Seq<VariableView>
    decreases vars.len(),
{
    if vars.len() == 0 {
        Seq::empty()
    } else {
        spec_onehot_expand(vars.drop_last()) + spec_onehot_expand_var(vars.last())
    }
}

/// Builds the name of one indicator: the variable's name, an underscore,
/// and the choice position.
fn onehot_name(base: &str, j: u64) -> (r: String)
    ensures
        r@ == base@ + seq!['_'] + crate::text::spec_digits(j as int),
{
    let mut chars = crate::codec::str_chars(base);
    chars.push('_');
    crate::text::fmt_u64(j, &mut chars);
    proof {
        assert(chars@ =~= base@ + seq!['_'] + crate::text::spec_digits(j as int));
    }
    crate::codec::chars_to_string(&chars)
}

/// Replaces each categorical parameter with one indicator per choice on the
/// way to the solver, and folds the indicators back to the choice with the
/// largest indicator on the way back, remembering the original parameters
/// until tell.
#[derive(Debug)]
pub struct OneHotEncodingFilter {
    /// For each expanded block: its start position mapped to its width.
    pub mappings: HashMap<u64, u64>,
    /// The original parameters of each in-flight trial, by trial id.
    pub originals: HashMap<u64, Params>,
}

impl OneHotEncodingFilter {
    /// Rewrites the params domain: every categorical variable with `n`
    /// choices becomes `n` continuous indicator variables over one unit,
    /// named after the variable and the choice position; everything else
    /// stays. Records each expanded block — its start position and width —
    /// in the filter and returns the blocks, ordered and disjoint, in the
    /// shape `filter_ask` requires.
    #[verifier::loop_isolation(false)]
    #[verifier::rlimit(100)]
    pub fn filter_problem_spec(&mut self, spec: ProblemSpec) -> (r: (ProblemSpec, Vec<(u64, u64)>))
        requires
            crate::problem::spec_problem_wf(spec@),
        ensures
            r.0@.name == spec@.name,
            r.0@.attrs == spec@.attrs,
            r.0@.values_domain == spec@.values_domain,
            r.0@.evaluation_steps == spec@.evaluation_steps,
            r.0@.params_domain == spec_onehot_expand(spec@.params_domain),
            forall|b: int|
                0 <= b < r.1@.len() ==> 1 <= (#[trigger] r.1@[b]).1 <= crate::domain::MAX_UNITS
                    && r.1@[b].0 + r.1@[b].1 <= r.0@.params_domain.len(),
            forall|a: int, b: int|
                0 <= a < b < r.1@.len() ==> (#[trigger] r.1@[a]).0 + r.1@[a].1
                    <= (#[trigger] r.1@[b]).0,
            forall|b: int|
                0 <= b < r.1@.len() ==> final(self).mappings@.contains_key(
                    (#[trigger] r.1@[b]).0,
                ) && final(self).mappings@[r.1@[b].0] == r.1@[b].1,
            final(self).originals@ == old(self).originals@,
    {
        let ghost dview = spec@.params_domain;
        let src = spec.params_domain.0;
        let mut vars: Vec<Variable> = Vec::new();
        let mut blocks: Vec<(u64, u64)> = Vec::new();
        let mut mappings: HashMap<u64, u64> = HashMap::new();
        let mut i: usize = 0;
        proof {
            assert(views_of(vars@) =~= spec_onehot_expand(dview.take(0)));
        }
        while i < src.len()
            invariant
                0 <= i <= src@.len(),
                dview == views_of(src@),
                crate::domain::spec_domain_wf(dview),
                views_of(vars@) == spec_onehot_expand(dview.take(i as int)),
                forall|b: int|
                    0 <= b < blocks@.len() ==> 1 <= (#[trigger] blocks@[b]).1
                        <= crate::domain::MAX_UNITS && blocks@[b].0 + blocks@[b].1
                        <= vars@.len(),
                forall|a: int, b: int|
                    0 <= a < b < blocks@.len() ==> (#[trigger] blocks@[a]).0 + blocks@[a].1
                        <= (#[trigger] blocks@[b]).0,
                forall|b: int|
                    0 <= b < blocks@.len() ==> mappings@.contains_key((#[trigger] blocks@[b]).0)
                        && mappings@[blocks@[b].0] == blocks@[b].1,
            decreases src@.len() - i,
        {
            proof {
                assert(dview[i as int] == src@[i as int]@);
                assert(crate::domain::spec_variable_wf(dview[i as int]));
                assert(dview.take(i as int + 1).drop_last() =~= dview.take(i as int));
                assert(dview.take(i as int + 1).last() == dview[i as int]);
            }
            let v = &src[i];
            let ghost vars_before = vars@;
            match &v.range {
                Range::Categorical { choices } => {
                    let start = vars.len();
                    let n = choices.len();
                    let mut j: usize = 0;
                    while j < n
                        invariant
                            0 <= j <= n,
                            n == choices@.len(),
                            choices == &src@[i as int].range->Categorical_choices,
                            dview[i as int] == src@[i as int]@,
                            vars@.len() == start + j,
                            start == vars_before.len(),
                            views_of(vars@) == spec_onehot_expand(dview.take(i as int))
                                + Seq::new(j as nat, |jj: int| spec_onehot_var(dview[i as int], jj)),
                        decreases n - j,
                    {
                        let name = onehot_name(v.name.as_str(), j as u64);
                        let nv = Variable {
                            name,
                            range: Range::Continuous { low: 0, high: SCALE },
                            distribution: v.distribution,
                            conditions: crate::domain::clone_conditions(&v.conditions),
                        };
                        proof {
                            let target = spec_onehot_var(dview[i as int], j as int);
                            assert(nv@.name =~= target.name);
                            assert(nv@.range == target.range);
                            assert(nv@.conditions == target.conditions);
                            assert(nv@ == target);
                        }
                        let ghost prior = vars@;
                        vars.push(nv);
                        j += 1;
                        proof {
                            let rhs = spec_onehot_expand(dview.take(i as int)) + Seq::new(
                                j as nat,
                                |jj: int| spec_onehot_var(dview[i as int], jj),
                            );
                            assert(vars@ =~= prior.push(nv));
                            assert forall|k: int|
                                0 <= k < vars@.len() implies views_of(vars@)[k] == rhs[k] by {
                                assert(views_of(vars@)[k] == vars@[k]@);
                                if k < prior.len() {
                                    assert(vars@[k] == prior[k]);
                                    assert(views_of(prior)[k] == prior[k]@);
                                } else {
                                    assert(vars@[k] == nv);
                                }
                            }
                            assert(views_of(vars@) =~= rhs);
                        }
                    }
                    blocks.push((start as u64, n as u64));
                    mappings.insert(start as u64, n as u64);
                    proof {
                        assert(spec_onehot_expand_var(dview[i as int]) =~= Seq::new(
                            n as nat,
                            |jj: int| spec_onehot_var(dview[i as int], jj),
                        ));
                        assert(views_of(vars@) =~= spec_onehot_expand(dview.take(i as int + 1)));
                        assert(blocks@.last() == (start as u64, n as u64));
                        assert(1 <= n as int <= crate::domain::MAX_UNITS) by {
                            assert(crate::domain::spec_range_representable(dview[i as int].range));
                        }
                    }
                },
                _ => {
                    let nv = v.clone();
                    proof {
                        assert(nv@ == dview[i as int]);
                        assert(spec_onehot_expand_var(dview[i as int]) =~= seq![dview[i as int]]);
                    }
                    vars.push(nv);
                    proof {
                        assert(views_of(vars@) =~= spec_onehot_expand(dview.take(i as int + 1)));
                    }
                },
            }
            i += 1;
        }
        self.mappings = mappings;
        proof {
            assert(dview.take(src@.len() as int) =~= dview);
        }
        let out = ProblemSpec {
            name: spec.name,
            attrs: spec.attrs,
            params_domain: Domain(vars),
            values_domain: spec.values_domain,
            evaluation_steps: spec.evaluation_steps,
        };
        (out, blocks)
    }

    /// Folds one indicator block back to its categorical choice: the tick
    /// value of the winning indicator's position.
    #[verifier::loop_isolation(false)]
    pub fn fold_block(params: &Params, start: usize, n: usize) -> (r: i64)
        requires
            n >= 1,
            start + n <= params@.len(),
            n <= crate::domain::MAX_UNITS,
        ensures
            r as int == spec_argmax(params@, start as int, n as int) * (SCALE as int),
            0 <= spec_argmax(params@, start as int, n as int) < n,
    {
        let mut best: usize = 0;
        let mut j: usize = 1;
        proof {
            vstd::std_specs::vec::axiom_spec_len(&params.0);
            assert(params@.len() == params.0@.len());
            assert(spec_argmax(params@, start as int, 1) == 0);
        }
        while j < n
            invariant
                1 <= j <= n,
                best < j,
                start + n <= params@.len(),
                best as int == spec_argmax(params@, start as int, j as int),
            decreases n - j,
        {
            let a = params.0[start + j];
            let b = params.0[start + best];
            let ge = match (a, b) {
                (Some(x), Some(y)) => x >= y,
                (Some(_), None) => true,
                (None, Some(_)) => false,
                (None, None) => true,
            };
            proof {
                assert(params@[start as int + j as int] == (match params.0@[start + j] {
                    Some(v) => Some(v as int),
                    None => None::<int>,
                }));
                assert(params@[start as int + best as int] == (match params.0@[start + best] {
                    Some(v) => Some(v as int),
                    None => None::<int>,
                }));
            }
            if ge {
                best = j;
            }
            j += 1;
        }
        proof {
            assert((best as int) * (SCALE as int) <= (crate::domain::MAX_UNITS as int) * (
            SCALE as int) && (best as int) * (SCALE as int) >= 0) by (nonlinear_arith)
                requires 0 <= best as int <= crate::domain::MAX_UNITS as int, SCALE > 0;
        }
        ((best as i128) * (SCALE as i128)) as i64
    }

    /// Remembers the trial's original parameters and folds every recorded
    /// block: the entry at the block's start becomes the winning choice as a
    /// tick value, the other entries of the block become inactive, and every
    /// entry outside the blocks passes through unchanged. Blocks must be
    /// ordered and disjoint. The vector keeps its arity — the indicators of
    /// a block stay as inactive entries rather than being removed — so
    /// positions line up with the expanded domain throughout.
    #[verifier::loop_isolation(false)]
    #[verifier::rlimit(100)]
    pub fn filter_ask(&mut self, trial: NextTrial, blocks: &Vec<(u64, u64)>) -> (r: NextTrial)
        requires
            forall|b: int|
                0 <= b < blocks@.len() ==> 1 <= (#[trigger] blocks@[b]).1
                    <= crate::domain::MAX_UNITS && blocks@[b].0 + blocks@[b].1
                    <= trial.params@.len(),
            forall|a: int, b: int|
                0 <= a < b < blocks@.len() ==> (#[trigger] blocks@[a]).0 + blocks@[a].1
                    <= (#[trigger] blocks@[b]).0,
        ensures
            r.id == trial.id,
            r.next_step == trial.next_step,
            r.params@.len() == trial.params@.len(),
            forall|b: int|
                0 <= b < blocks@.len() ==> r.params@[(#[trigger] blocks@[b]).0 as int] == Some(
                    spec_argmax(trial.params@, blocks@[b].0 as int, blocks@[b].1 as int) * (
                    SCALE as int),
                ),
            forall|b: int, j: int|
                0 <= b < blocks@.len() && 1 <= j < blocks@[b].1 ==> (#[trigger] r.params@[
                    blocks@[b].0 + j
                ]) is None,
            forall|k: int|
                0 <= k < trial.params@.len() && !spec_in_block_upto(blocks@, blocks@.len() as int, k)
                    ==> r.params@[k] == trial.params@[k],
            final(self).originals@.dom() == old(self).originals@.dom().insert(trial.id),
            final(self).originals@[trial.id]@ == trial.params@,
    {
        let original = trial.params.clone();
        let ghost pview0 = trial.params@;
        let mut params = trial.params.clone().0;
        proof {
            vstd::std_specs::vec::axiom_spec_len(&params);
            assert(opt_views(params@) =~= pview0);
        }
        let mut b: usize = 0;
        while b < blocks.len()
            invariant
                0 <= b <= blocks@.len(),
                params@.len() == pview0.len(),
                forall|k: int|
                    0 <= k < b ==> opt_views(params@)[(#[trigger] blocks@[k]).0 as int] == Some(
                        spec_argmax(pview0, blocks@[k].0 as int, blocks@[k].1 as int) * (
                        SCALE as int),
                    ),
                forall|w: int, j: int|
                    0 <= w < b && 1 <= j < blocks@[w].1 ==> (#[trigger] opt_views(params@)[
                        blocks@[w].0 + j
                    ]) is None,
                forall|k: int|
                    0 <= k < pview0.len() && !spec_in_block_upto(blocks@, b as int, k)
                        ==> opt_views(params@)[k] == pview0[k],
            decreases blocks@.len() - b,
        {
            let (start64, n64) = blocks[b];
            let start = start64 as usize;
            let n = n64 as usize;
            proof {
                vstd::std_specs::vec::axiom_spec_len(&params);
                assert(blocks@[b as int].0 + blocks@[b as int].1 <= pview0.len());
                assert(start as int == blocks@[b as int].0 as int);
                assert(n as int == blocks@[b as int].1 as int);
                assert(!spec_in_block_upto(blocks@, b as int, start as int)) by {
                    if spec_in_block_upto(blocks@, b as int, start as int) {
                        let w = choose|w: int|
                            0 <= w < b && (#[trigger] blocks@[w]).0 <= (start as int)
                                && (start as int) < blocks@[w].0 + blocks@[w].1;
                        assert(blocks@[w].0 + blocks@[w].1 <= blocks@[b as int].0);
                    }
                }
            }
            let folded = Self::fold_block(&trial.params, start, n);
            let ghost before = opt_views(params@);
            params.set(start, Some(folded));
            proof {
                assert(opt_views(params@) =~= before.update(start as int, Some(folded as int)));
                lemma_onehot_untouched(blocks@, b as int, pview0, before, opt_views(params@), start as int, start as int + 1);
            }
            let mut j: usize = 1;
            while j < n
                invariant
                    1 <= j <= n,
                    params@.len() == pview0.len(),
                    opt_views(params@)[start as int] == Some(
                        spec_argmax(pview0, blocks@[b as int].0 as int, blocks@[
                            b as int
                        ].1 as int) * (SCALE as int),
                    ),
                    forall|jj: int|
                        1 <= jj < j ==> (#[trigger] opt_views(params@)[start as int + jj])
                            is None,
                    forall|k: int|
                        0 <= k < b ==> opt_views(params@)[(#[trigger] blocks@[k]).0 as int]
                            == Some(
                            spec_argmax(pview0, blocks@[k].0 as int, blocks@[k].1 as int) * (
                            SCALE as int),
                        ),
                    forall|w: int, jj: int|
                        0 <= w < b && 1 <= jj < blocks@[w].1 ==> (#[trigger] opt_views(params@)[
                            blocks@[w].0 + jj
                        ]) is None,
                    forall|k: int|
                        0 <= k < pview0.len() && !spec_in_block_upto(blocks@, b as int, k) && !(
                        start as int <= k < start as int + j) ==> opt_views(params@)[k]
                            == pview0[k],
                decreases n - j,
            {
                let ghost before2 = opt_views(params@);
                params.set(start + j, None);
                proof {
                    assert(opt_views(params@) =~= before2.update(start as int + j, None::<int>));
                    assert forall|k: int|
                        0 <= k < b implies opt_views(params@)[(#[trigger] blocks@[k]).0 as int]
                        == Some(
                        spec_argmax(pview0, blocks@[k].0 as int, blocks@[k].1 as int) * (
                        SCALE as int),
                    ) by {
                        assert(blocks@[k].0 + blocks@[k].1 <= blocks@[b as int].0);
                        assert(blocks@[k].0 as int != start as int + j);
                    }
                    assert forall|w: int, jj: int|
                        0 <= w < b && 1 <= jj < blocks@[w].1 implies (#[trigger] opt_views(
                        params@,
                    )[blocks@[w].0 + jj]) is None by {
                        assert(blocks@[w].0 + blocks@[w].1 <= blocks@[b as int].0);
                        assert(blocks@[w].0 + jj != start as int + j);
                    }
                }
                j += 1;
            }
            b += 1;
            proof {
                assert forall|k: int|
                    0 <= k < b implies opt_views(params@)[(#[trigger] blocks@[k]).0 as int]
                    == Some(
                    spec_argmax(pview0, blocks@[k].0 as int, blocks@[k].1 as int) * (
                    SCALE as int),
                ) by {
                    if k < b - 1 {
                        assert(blocks@[k].0 + blocks@[k].1 <= blocks@[b - 1].0);
                    }
                }
                assert forall|k: int|
                    0 <= k < pview0.len() && !spec_in_block_upto(blocks@, b as int, k) implies
                    opt_views(params@)[k] == pview0[k] by {
                    assert(!spec_in_block_upto(blocks@, b as int - 1, k)) by {
                        if spec_in_block_upto(blocks@, b as int - 1, k) {
                            let w = choose|w: int|
                                0 <= w < b - 1 && (#[trigger] blocks@[w]).0 <= k < blocks@[w].0
                                    + blocks@[w].1;
                            assert(spec_in_block_upto(blocks@, b as int, k));
                        }
                    }
                    assert(!(start as int <= k < start as int + n)) by {
                        if start as int <= k < start as int + n {
                            assert(blocks@[b - 1].0 <= k < blocks@[b - 1].0 + blocks@[b - 1].1);
                            assert(spec_in_block_upto(blocks@, b as int, k));
                        }
                    }
                }
            }
        }
        self.originals.insert(trial.id, original);
        let r = NextTrial { id: trial.id, params: Params(params), next_step: trial.next_step };
        proof {
            assert(r.params@ =~= opt_views(params@));
        }
        r
    }

    /// Forgets the trial's remembered parameters and hands them back.
    pub fn filter_tell(&mut self, trial: &EvaluatedTrial) -> (r: Result<Params, crate::ErrorKind>)
        ensures
            final(self).mappings == old(self).mappings,
            match r {
                Ok(p) => old(self).originals@.contains_key(trial.id) && p == old(
                    self,
                ).originals@[trial.id] && final(self).originals@ == old(self).originals@.remove(
                    trial.id,
                ),
                Err(e) => !old(self).originals@.contains_key(trial.id) && e
                    == crate::ErrorKind::Other && final(self).originals@ == old(self).originals@,
            },
    {
        match self.originals.remove(&trial.id) {
            Some(p) => Ok(p),
            None => Err(crate::ErrorKind::Other),
        }
    }
}

/// Recipe of `GaussianNoiseFilter`: the noise level as a fraction of the
/// observed value range, in ticks per unit.
#[derive(Debug, Clone, Copy, PartialEq, Eq, Structural)]
pub struct GaussianNoiseFilterRecipe {
    pub level: i64,
}

impl GaussianNoiseFilterRecipe {
    /// Makes the filter, with no observations yet.
    pub fn create_filter(&self) -> (r: GaussianNoiseFilter)
        ensures
            r.level == self.level,
            r.values_domain@.len() == 0,
    {
        GaussianNoiseFilter { level: self.level, values_domain: Vec::new() }
    }
}


/// The observation range after widening to cover one more value.
pub open spec fn spec_widen(dom: (i64, i64), v: int) -> (i64, i64) {
    (
        if v < dom.0 {
            v as i64
        } else {
            dom.0
        },
        if v > dom.1 {
            v as i64
        } else {
            dom.1
        },
    )
}

/// The noise scale of one objective: the observed width times the level,
/// scaled back to ticks.
pub open spec fn spec_noise_sd(min: int, max: int, level: int) -> int {
    (max - min) * level / (SCALE as int)
}

/// Perturbs observed values with bounded noise scaled by the observed range
/// of each objective, so a solver cannot overfit exact values.
#[derive(Debug)]
pub struct GaussianNoiseFilter {
    /// Noise level in ticks per unit of observed width.
    pub level: i64,
    /// Observed minimum and maximum of each objective, in ticks.
    pub values_domain: Vec<(i64, i64)>,
}

impl GaussianNoiseFilter {
    /// A rough standard normal draw in ticks: the centered sum of twelve
    /// uniform draws, always within six units either way.
    #[verifier::loop_isolation(false)]
    pub fn standard_normal_ticks(rng: &mut StudyRng) -> (z: i64)
        ensures
            -6 * SCALE <= z <= 6 * SCALE,
    {
        let mut acc: i64 = 0;
        let mut i: usize = 0;
        while i < 12
            invariant
                0 <= i <= 12,
                0 <= acc <= (i as int) * (SCALE as int),
            decreases 12 - i,
        {
            let d = rng.gen_range_ticks(0, SCALE);
            proof {
                assert((i as int + 1) * (SCALE as int) == (i as int) * (SCALE as int) + (
                SCALE as int)) by (nonlinear_arith);
            }
            acc = acc + d;
            i += 1;
        }
        acc - 6 * SCALE
    }

    /// Books one outcome. The first observation fixes one degenerate range
    /// per objective and passes the values through untouched. Afterwards
    /// each per-objective range widens exactly to cover the incoming value,
    /// and each value is perturbed by noise whose magnitude never exceeds
    /// six times the scaled width — and is exactly zero when the level or
    /// the width is zero. Values beyond the tracked objectives pass through.
    #[verifier::loop_isolation(false)]
    #[verifier::rlimit(100)]
    pub fn filter_tell(&mut self, rng: &mut StudyRng, values: &Values) -> (r: Values)
        requires
            0 <= old(self).level <= SCALE,
            forall|k: int|
                0 <= k < old(self).values_domain@.len()
                    ==> (#[trigger] old(self).values_domain@[k]).0
                    <= old(self).values_domain@[k].1,
        ensures
            final(self).level == old(self).level,
            r@.len() == values@.len(),
            old(self).values_domain@.len() == 0 ==> (r@ == values@
                && final(self).values_domain@.len() == values@.len() && forall|k: int|
                0 <= k < values@.len() ==> ((#[trigger] final(self).values_domain@[k]).0 as int
                    == values@[k] && final(self).values_domain@[k].1 as int == values@[k])),
            old(self).values_domain@.len() > 0 ==> {
                &&& final(self).values_domain@.len() == old(self).values_domain@.len()
                &&& forall|k: int|
                    0 <= k < old(self).values_domain@.len() && k < values@.len()
                        ==> (#[trigger] final(self).values_domain@[k]) == spec_widen(
                        old(self).values_domain@[k],
                        values@[k],
                    )
                &&& forall|k: int|
                    values@.len() <= k < old(self).values_domain@.len()
                        ==> (#[trigger] final(self).values_domain@[k]) == old(
                        self,
                    ).values_domain@[k]
                &&& forall|k: int|
                    0 <= k < values@.len() && k < old(self).values_domain@.len() ==> {
                        let dom = spec_widen(old(self).values_domain@[k], values@[k]);
                        let sd = spec_noise_sd(dom.0 as int, dom.1 as int, old(self).level as int);
                        &&& (#[trigger] r@[k]) - values@[k] <= 6 * sd
                        &&& values@[k] - r@[k] <= 6 * sd
                        &&& (sd == 0 ==> r@[k] == values@[k])
                    }
                &&& forall|k: int|
                    old(self).values_domain@.len() <= k < values@.len() ==> (#[trigger] r@[k])
                        == values@[k]
            },
    {
        proof {
            assert(values@.len() == values.0@.len());
        }
        if self.values_domain.len() == 0 {
            let mut dom: Vec<(i64, i64)> = Vec::new();
            let mut i: usize = 0;
            while i < values.0.len()
                invariant
                    0 <= i <= values.0@.len(),
                    dom@.len() == i,
                    forall|k: int|
                        0 <= k < i ==> ((#[trigger] dom@[k]).0 as int == values@[k]
                            && dom@[k].1 as int == values@[k]),
                decreases values.0@.len() - i,
            {
                let v = values.0[i];
                proof {
                    assert(values@[i as int] == values.0@[i as int] as int);
                }
                dom.push((v, v));
                i += 1;
            }
            self.values_domain = dom;
            return values.clone();
        }
        let ghost dom0 = self.values_domain@;
        let mut out: Vec<i64> = Vec::new();
        let mut i: usize = 0;
        while i < values.0.len()
            invariant
                0 <= i <= values.0@.len(),
                out@.len() == i,
                self.level == old(self).level,
                0 <= self.level <= SCALE,
                self.values_domain@.len() == dom0.len(),
                forall|k: int|
                    0 <= k < dom0.len() && k < i ==> (#[trigger] self.values_domain@[k])
                        == spec_widen(dom0[k], values@[k]),
                forall|k: int|
                    0 <= k < dom0.len() && k >= i ==> (#[trigger] self.values_domain@[k])
                        == dom0[k],
                forall|k: int|
                    0 <= k < i && k < dom0.len() ==> {
                        let dom = spec_widen(dom0[k], values@[k]);
                        let sd = spec_noise_sd(dom.0 as int, dom.1 as int, old(self).level as int);
                        &&& (#[trigger] out@[k]) - values@[k] <= 6 * sd
                        &&& values@[k] - out@[k] <= 6 * sd
                        &&& (sd == 0 ==> out@[k] as int == values@[k])
                    },
                forall|k: int|
                    dom0.len() <= k < i ==> (#[trigger] out@[k]) as int == values@[k],
            decreases values.0@.len() - i,
        {
            let v = values.0[i];
            proof {
                assert(values@[i as int] == values.0@[i as int] as int);
            }
            if i < self.values_domain.len() {
                let (mn, mx) = self.values_domain[i];
                proof {
                    assert(self.values_domain@[i as int] == dom0[i as int]);
                    assert(mn <= mx);
                }
                let nmn = if v < mn {
                    v
                } else {
                    mn
                };
                let nmx = if v > mx {
                    v
                } else {
                    mx
                };
                let ghost dold = self.values_domain@;
                self.values_domain.set(i, (nmn, nmx));
                proof {
                    assert(self.values_domain@ =~= dold.update(i as int, (nmn, nmx)));
                    assert((nmn, nmx) == spec_widen(dom0[i as int], values@[i as int]));
                }
                // the noise scale: the widened width times the level, scaled
                // back to ticks; computed in unsigned arithmetic
                let width: u128 = ((nmx as i128) - (nmn as i128)) as u128;
                proof {
                    assert(width <= 36_893_488_147_419_103_230u128);
                    assert(width * (self.level as u128) <= 36_893_488_147_419_103_230u128
                        * 1_000_000u128 && width * (self.level as u128) >= 0)
                        by (nonlinear_arith)
                        requires 0 <= width <= 36_893_488_147_419_103_230u128,
                            0 <= self.level as u128 <= 1_000_000u128;
                }
                let sd: u128 = width * (self.level as u128) / (SCALE as u128);
                let ghost sdg: int = spec_noise_sd(nmn as int, nmx as int, self.level as int);
                proof {
                    assert(sd as int == sdg);
                    vstd::arithmetic::div_mod::lemma_div_pos_is_pos(
                        (width * (self.level as u128)) as int,
                        SCALE as int,
                    );
                }
                let z = Self::standard_normal_ticks(rng);
                let zmag: u128 = if z < 0 {
                    ((-(z as i128)) as u128)
                } else {
                    z as u128
                };
                proof {
                    assert(zmag <= 6_000_000u128);
                    lemma_u128_div_le(
                        (width * (self.level as u128)) as int,
                        36_893_488_147_419_103_230int * 1_000_000int,
                        SCALE as int,
                    );
                    assert((sd as int) * (zmag as int) <= (sd as int) * 6_000_000int)
                        by (nonlinear_arith)
                        requires zmag as int <= 6_000_000int, sd as int >= 0;
                    assert((sd as int) * 6_000_000int == (6 * (sd as int)) * (SCALE as int))
                        by (nonlinear_arith);
                    assert((sd as int) * (zmag as int) <= (36_893_488_147_419_103_230int
                        * 1_000_000int) * 6_000_000int) by (nonlinear_arith)
                        requires
                            sd as int <= 36_893_488_147_419_103_230int * 1_000_000int,
                            0 <= zmag as int <= 6_000_000int,
                            sd as int >= 0,
                    ;
                }
                let nmag: u128 = sd * zmag / (SCALE as u128);
                proof {
                    assert(nmag as int <= 6 * sdg) by {
                        vstd::arithmetic::div_mod::lemma_div_is_ordered(
                            (sd * zmag) as int,
                            (6 * sdg) * (SCALE as int),
                            SCALE as int,
                        );
                        vstd::arithmetic::div_mod::lemma_div_multiples_vanish(
                            6 * sdg,
                            SCALE as int,
                        );
                    }
                    vstd::arithmetic::div_mod::lemma_div_pos_is_pos(
                        (sd * zmag) as int,
                        SCALE as int,
                    );
                    if sdg == 0 {
                        assert(sd * zmag == 0) by (nonlinear_arith)
                            requires sd == 0;
                        assert(nmag == 0) by {
                            vstd::arithmetic::div_mod::lemma_basic_div(0, SCALE as int);
                        }
                    }
                }
                let noised: i128 = if z < 0 {
                    (v as i128) - (nmag as i128)
                } else {
                    (v as i128) + (nmag as i128)
                };
                let clamped: i64 = if noised > (i64::MAX as i128) {
                    i64::MAX
                } else if noised < (i64::MIN as i128) {
                    i64::MIN
                } else {
                    noised as i64
                };
                proof {
                    assert(clamped - v <= nmag && v - clamped <= nmag);
                }
                out.push(clamped);
            } else {
                out.push(v);
            }
            i += 1;
        }
        let r = Values(out);
        proof {
            assert(r@.len() == r.0@.len());
            assert forall|k: int|
                0 <= k < values@.len() && k < dom0.len() implies {
                let dom = spec_widen(dom0[k], values@[k]);
                let sd = spec_noise_sd(dom.0 as int, dom.1 as int, old(self).level as int);
                &&& (#[trigger] r@[k]) - values@[k] <= 6 * sd
                &&& values@[k] - r@[k] <= 6 * sd
                &&& (sd == 0 ==> r@[k] == values@[k])
            } by {
                assert(r@[k] == out@[k] as int);
            }
            assert forall|k: int|
                dom0.len() <= k < values@.len() implies (#[trigger] r@[k]) == values@[k] by {
                assert(r@[k] == out@[k] as int);
            }
        }
        r
    }
}

/// A bounded dividend keeps its quotient bounded.
proof fn lemma_u128_div_le(a: int, bound: int, d: int)
    requires
        0 <= a <= bound,
        d >= 1,
    ensures
        0 <= a / d <= bound,
{
    vstd::arithmetic::div_mod::lemma_div_pos_is_pos(a, d);
    vstd::arithmetic::div_mod::lemma_fundamental_div_mod(a, d);
    vstd::arithmetic::div_mod::lemma_mod_bound(a, d);
    let q = a / d;
    assert(a == d * q + a % d);
    assert(d * q >= q) by (nonlinear_arith)
        requires q >= 0, d >= 1;
}


} // verus!
