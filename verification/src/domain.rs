//! Domain of parameter and objective values.
//!
//! Numeric values are held in fixed point: an `i64` counts millionths, so one
//! unit of a continuous range is `SCALE` ticks. Discrete bounds are plain
//! integers; a discrete value `d` is represented as `d * SCALE` ticks, and a
//! categorical choice `i` as `i * SCALE` ticks, mirroring how the wire format
//! carries every value in one numeric vector.

use crate::ErrorKind;
use vstd::prelude::*;

verus! {

/// Number of fixed-point ticks per unit.
pub const SCALE: i64 = 1_000_000;

/// The largest whole-unit magnitude whose tick count fits an `i64`.
pub const MAX_UNITS: i64 = 9_223_372_036_854;

/// Prior distribution of a variable's value.
#[derive(Debug, Clone, Copy, PartialEq, Eq, Structural, Hash)]
pub enum Distribution {
    Uniform,
    LogUniform,
}

/// Variable range.
#[derive(Debug)]
pub enum Range {
    /// Continuous numerical range `[low..high)`, bounds in ticks.
    Continuous { low: i64, high: i64 },
    /// Discrete numerical range `[low..high)`, bounds in whole units.
    Discrete { low: i64, high: i64 },
    /// Categorical range; a value is the index of a choice.
    Categorical { choices: Vec<String> },
}

/// Mathematical model of a `Range`.
pub enum RangeView {
    Continuous { low: int, high: int },
    Discrete { low: int, high: int },
    Categorical { choices: Seq<Seq<char>> },
}

impl View for Range {
    type V = RangeView;

    open spec fn view(&self) -> RangeView {
        match self {
            Range::Continuous { low, high } => RangeView::Continuous {
                low: *low as int,
                high: *high as int,
            },
            Range::Discrete { low, high } => RangeView::Discrete {
                low: *low as int,
                high: *high as int,
            },
            Range::Categorical { choices } => RangeView::Categorical {
                choices: str_views(choices@),
            },
        }
    }
}

/// Whether the range holds at least one value.
pub open spec fn spec_range_nonempty(r: RangeView) -> bool {
    match r {
        RangeView::Continuous { low, high } => low < high,
        RangeView::Discrete { low, high } => low < high,
        RangeView::Categorical { choices } => choices.len() > 0,
    }
}

/// Whether every value of the range has a tick count that fits an `i64`:
/// discrete units and categorical indexes are scaled by `SCALE` on the wire.
pub open spec fn spec_range_representable(r: RangeView) -> bool {
    match r {
        RangeView::Continuous { low, high } => true,
        RangeView::Discrete { low, high } => -MAX_UNITS <= low && high <= MAX_UNITS,
        RangeView::Categorical { choices } => choices.len() <= MAX_UNITS,
    }
}

/// Whether every value of the range is strictly positive, as a log-uniform
/// distribution demands.
pub open spec fn spec_range_positive(r: RangeView) -> bool {
    match r {
        RangeView::Continuous { low, high } => 0 < low,
        RangeView::Discrete { low, high } => 0 < low,
        RangeView::Categorical { choices } => false,
    }
}

/// Whether the tick value `v` lies inside the range.
pub open spec fn spec_range_contains(r: RangeView, v: int) -> bool {
    match r {
        RangeView::Continuous { low, high } => low <= v < high,
        RangeView::Discrete { low, high } => low * SCALE <= v < high * SCALE,
        RangeView::Categorical { choices } => 0 <= v < choices.len() * SCALE,
    }
}

/// Copies a vector of strings, keeping every element.
#[verifier::loop_isolation(false)]
pub fn clone_strings(v: &Vec<String>) -> (r: Vec<String>)
    ensures
        r@ == v@,
{
    let mut r: Vec<String> = Vec::new();
    let mut i: usize = 0;
    while i < v.len()
        invariant
            0 <= i <= v@.len(),
            r@ =~= v@.take(i as int),
        decreases v@.len() - i,
    {
        r.push(v[i].clone());
        i += 1;
    }
    proof {
        assert(r@ =~= v@);
    }
    r
}

impl Clone for Range {
    fn clone(&self) -> (r: Self)
        ensures
            r@ == self@,
    {
        match self {
            Range::Continuous { low, high } => Range::Continuous { low: *low, high: *high },
            Range::Discrete { low, high } => Range::Discrete { low: *low, high: *high },
            Range::Categorical { choices } => Range::Categorical {
                choices: clone_strings(choices),
            },
        }
    }
}

impl Range {
    /// Whether the tick value `v` lies inside this range.
    pub fn contains(&self, v: i64) -> (b: bool)
        ensures
            b == spec_range_contains(self@, v as int),
    {
        match self {
            Range::Continuous { low, high } => *low <= v && v < *high,
            Range::Discrete { low, high } => {
                (*low as i128) * (SCALE as i128) <= (v as i128) && (v as i128) < (*high as i128) * (
                SCALE as i128)
            },
            Range::Categorical { choices } => {
                0 <= v && (v as i128) < (choices.len() as i128) * (SCALE as i128)
            },
        }
    }
}

/// Evaluation condition: holds if the variable named `target` has the tick
/// value `value`.
#[derive(Debug)]
pub enum Condition {
    Eq { target: String, value: i64 },
}

/// Mathematical model of a `Condition`.
pub struct ConditionView {
    pub target: Seq<char>,
    pub value: int,
}

impl View for Condition {
    type V = ConditionView;

    open spec fn view(&self) -> ConditionView {
        match self {
            Condition::Eq { target, value } => ConditionView {
                target: target@,
                value: *value as int,
            },
        }
    }
}

impl Clone for Condition {
    fn clone(&self) -> (r: Self)
        ensures
            r@ == self@,
    {
        match self {
            Condition::Eq { target, value } => Condition::Eq {
                target: target.clone(),
                value: *value,
            },
        }
    }
}


/// The views of a sequence of conditions.
pub open spec fn cond_views(s: Seq<Condition>) -> Seq<ConditionView> {
    s.map_values(|c: Condition| c@)
}

/// The views of a sequence of strings.
pub open spec fn str_views(s: Seq<String>) -> Seq<Seq<char>> {
    s.map_values(|c: String| c@)
}

/// Whether the condition refers to one of the preceding variables and its
/// value lies inside that variable's range.
pub open spec fn spec_condition_ok(c: ConditionView, preceding: Seq<VariableView>) -> bool {
    exists|j: int|
        0 <= j < preceding.len() && preceding[j].name == c.target && spec_range_contains(
            preceding[j].range,
            c.value,
        )
}

/// A variable in a domain.
#[derive(Debug)]
pub struct Variable {
    pub name: String,
    pub range: Range,
    pub distribution: Distribution,
    pub conditions: Vec<Condition>,
}

/// Mathematical model of a `Variable`.
pub struct VariableView {
    pub name: Seq<char>,
    pub range: RangeView,
    pub distribution: Distribution,
    pub conditions: Seq<ConditionView>,
}

impl View for Variable {
    type V = VariableView;

    open spec fn view(&self) -> VariableView {
        VariableView {
            name: self.name@,
            range: self.range@,
            distribution: self.distribution,
            conditions: cond_views(self.conditions@),
        }
    }
}


/// The views of a sequence of variables.
pub open spec fn views_of(s: Seq<Variable>) -> Seq<VariableView> {
    s.map_values(|v: Variable| v@)
}

/// The views of a sequence of variable builders.
pub open spec fn builder_views(s: Seq<VariableBuilder>) -> Seq<VariableView> {
    s.map_values(|b: VariableBuilder| b@)
}

/// Copies a vector of conditions, keeping every element.
#[verifier::loop_isolation(false)]
pub fn clone_conditions(v: &Vec<Condition>) -> (r: Vec<Condition>)
    ensures
        cond_views(r@) == cond_views(v@),
{
    let mut r: Vec<Condition> = Vec::new();
    let mut i: usize = 0;
    while i < v.len()
        invariant
            0 <= i <= v@.len(),
            cond_views(r@) =~= cond_views(v@).take(i as int),
        decreases v@.len() - i,
    {
        r.push(v[i].clone());
        i += 1;
    }
    proof {
        assert(cond_views(r@) =~= cond_views(v@));
    }
    r
}

/// Copies a vector of variables, keeping every element.
#[verifier::loop_isolation(false)]
pub fn clone_variables(v: &Vec<Variable>) -> (r: Vec<Variable>)
    ensures
        views_of(r@) == views_of(v@),
{
    let mut r: Vec<Variable> = Vec::new();
    let mut i: usize = 0;
    while i < v.len()
        invariant
            0 <= i <= v@.len(),
            views_of(r@) =~= views_of(v@).take(i as int),
        decreases v@.len() - i,
    {
        r.push(v[i].clone());
        i += 1;
    }
    proof {
        assert(views_of(r@) =~= views_of(v@));
    }
    r
}

impl Clone for Variable {
    fn clone(&self) -> (r: Self)
        ensures
            r@ == self@,
    {
        Variable {
            name: self.name.clone(),
            range: self.range.clone(),
            distribution: self.distribution,
            conditions: clone_conditions(&self.conditions),
        }
    }
}

/// Whether a variable's range and distribution agree: the range is non-empty,
/// and a log-uniform variable has a strictly positive range.
pub open spec fn spec_variable_wf(v: VariableView) -> bool {
    &&& spec_range_nonempty(v.range)
    &&& spec_range_representable(v.range)
    &&& v.distribution == Distribution::LogUniform ==> spec_range_positive(v.range)
}

impl Condition {
    /// Checks that the condition refers to an already-declared variable and
    /// that the value fits that variable's range.
    #[verifier::loop_isolation(false)]
    pub fn validate(&self, preceding: &Vec<Variable>) -> (r: Result<(), ErrorKind>)
        requires
            forall|i: int, j: int|
                0 <= i < j < preceding@.len() ==> preceding@[i]@.name != preceding@[j]@.name,
        ensures
            r.is_ok() == spec_condition_ok(self@, views_of(preceding@)),
            r.is_err() ==> r == Result::<(), ErrorKind>::Err(ErrorKind::InvalidInput),
    {
        let ghost pview = views_of(preceding@);
        let Condition::Eq { target, value } = self;
        let mut i: usize = 0;
        while i < preceding.len()
            invariant
                0 <= i <= preceding@.len(),
                pview == views_of(preceding@),
                forall|k: int, j: int| 0 <= k < j < pview.len() ==> pview[k].name != pview[j].name,
                forall|k: int| 0 <= k < i ==> pview[k].name != target@,
            decreases preceding@.len() - i,
        {
            if preceding[i].name == *target {
                if preceding[i].range.contains(*value) {
                    proof {
                        let pv = views_of(preceding@);
                        assert(pv[i as int] == preceding@[i as int]@);
                        assert(0 <= i < pv.len() && pv[i as int].name == self@.target
                            && spec_range_contains(pv[i as int].range, self@.value));
                    }
                    return Ok(());
                } else {
                    proof {
                        assert forall|j: int|
                            0 <= j < pview.len() && pview[j].name == target@ implies j
                            == i by {}
                    }
                    return Err(ErrorKind::InvalidInput);
                }
            }
            i += 1;
        }
        Err(ErrorKind::InvalidInput)
    }
}

impl Variable {
    /// Returns the name of this variable.
    pub fn name(&self) -> (r: &String)
        ensures
            r == &self.name,
    {
        &self.name
    }

    /// Returns the value range of this variable.
    pub fn range(&self) -> (r: &Range)
        ensures
            r == &self.range,
    {
        &self.range
    }

    /// Returns the prior distribution of the value of this variable.
    pub fn distribution(&self) -> (r: Distribution)
        ensures
            r == self.distribution,
    {
        self.distribution
    }

    /// Returns the conditions required to evaluate this variable.
    pub fn conditions(&self) -> (r: &Vec<Condition>)
        ensures
            r == &self.conditions,
    {
        &self.conditions
    }
}

/// `Variable` builder.
#[derive(Debug)]
pub struct VariableBuilder {
    pub name: String,
    pub range: Range,
    pub distribution: Distribution,
    pub conditions: Vec<Condition>,
}

impl View for VariableBuilder {
    type V = VariableView;

    open spec fn view(&self) -> VariableView {
        VariableView {
            name: self.name@,
            range: self.range@,
            distribution: self.distribution,
            conditions: cond_views(self.conditions@),
        }
    }
}

impl Clone for VariableBuilder {
    fn clone(&self) -> (r: Self)
        ensures
            r@ == self@,
    {
        VariableBuilder {
            name: self.name.clone(),
            range: self.range.clone(),
            distribution: self.distribution,
            conditions: clone_conditions(&self.conditions),
        }
    }
}

/// Whether `finish` accepts the builder.
pub open spec fn spec_builder_ok(b: VariableView) -> bool {
    spec_variable_wf(b)
}

impl VariableBuilder {
    /// Makes a new builder for a variable of the given name, defaulting to a
    /// uniform continuous range over every representable value.
    pub fn new(name: &str) -> (r: Self)
        ensures
            r@.name == name@,
            r@.range == (RangeView::Continuous { low: i64::MIN as int, high: i64::MAX as int }),
            r@.distribution == Distribution::Uniform,
            r@.conditions.len() == 0,
    {
        VariableBuilder {
            name: name.to_owned(),
            range: Range::Continuous { low: i64::MIN, high: i64::MAX },
            distribution: Distribution::Uniform,
            conditions: Vec::new(),
        }
    }

    /// Sets the distribution of this variable to `Distribution::Uniform`.
    pub fn uniform(self) -> (r: Self)
        ensures
            r@ == (VariableView { distribution: Distribution::Uniform, ..self@ }),
    {
        VariableBuilder { distribution: Distribution::Uniform, ..self }
    }

    /// Sets the distribution of this variable to `Distribution::LogUniform`.
    pub fn log_uniform(self) -> (r: Self)
        ensures
            r@ == (VariableView { distribution: Distribution::LogUniform, ..self@ }),
    {
        VariableBuilder { distribution: Distribution::LogUniform, ..self }
    }

    /// Sets the range of this variable to a continuous range, bounds in ticks.
    pub fn continuous(self, low: i64, high: i64) -> (r: Self)
        ensures
            r@ == (VariableView {
                range: RangeView::Continuous { low: low as int, high: high as int },
                ..self@
            }),
    {
        VariableBuilder { range: Range::Continuous { low, high }, ..self }
    }

    /// Sets the range of this variable to a discrete range, bounds in units.
    pub fn discrete(self, low: i64, high: i64) -> (r: Self)
        ensures
            r@ == (VariableView {
                range: RangeView::Discrete { low: low as int, high: high as int },
                ..self@
            }),
    {
        VariableBuilder { range: Range::Discrete { low, high }, ..self }
    }

    /// Sets the range of this variable to the given categorical choices.
    pub fn categorical(self, choices: Vec<String>) -> (r: Self)
        ensures
            r@ == (VariableView {
                range: RangeView::Categorical { choices: str_views(choices@) },
                ..self@
            }),
    {
        VariableBuilder { range: Range::Categorical { choices }, ..self }
    }

    /// Sets the range of this variable to boolean, i.e. the categorical
    /// choices `"false"` and `"true"`.
    pub fn boolean(self) -> (r: Self)
        ensures
            r@.name == self@.name,
            r@.distribution == self@.distribution,
            r@.conditions == self@.conditions,
            r@.range matches RangeView::Categorical { choices } && choices.len() == 2
                && choices[0] == "false"@ && choices[1] == "true"@,
    {
        let mut choices: Vec<String> = Vec::new();
        choices.push("false".to_owned());
        choices.push("true".to_owned());
        let r = self.categorical(choices);
        proof {
            assert(r@.range matches RangeView::Categorical { choices: cs } && cs =~= seq![
                "false"@,
                "true"@,
            ]);
        }
        r
    }

    /// Adds an evaluation condition to this variable.
    pub fn condition(self, condition: Condition) -> (r: Self)
        ensures
            r@.name == self@.name,
            r@.range == self@.range,
            r@.distribution == self@.distribution,
            r@.conditions =~= self@.conditions.push(condition@),
    {
        let mut b = self;
        b.conditions.push(condition);
        proof {
            assert(b@.conditions =~= b@.conditions);
        }
        b
    }

    /// Builds the variable, rejecting an empty range and a log-uniform
    /// distribution over a range that is not strictly positive.
    pub fn finish(self) -> (r: Result<Variable, ErrorKind>)
        ensures
            r.is_ok() == spec_builder_ok(self@),
            r matches Ok(v) ==> v@ == self@,
            r.is_err() ==> r == Result::<Variable, ErrorKind>::Err(ErrorKind::InvalidInput),
    {
        let nonempty = match &self.range {
            Range::Continuous { low, high } => *low < *high,
            Range::Discrete { low, high } => *low < *high,
            Range::Categorical { choices } => choices.len() > 0,
        };
        if !nonempty {
            return Err(ErrorKind::InvalidInput);
        }
        let representable = match &self.range {
            Range::Continuous { .. } => true,
            Range::Discrete { low, high } => -MAX_UNITS <= *low && *high <= MAX_UNITS,
            Range::Categorical { choices } => (choices.len() as u64) <= (MAX_UNITS as u64),
        };
        if !representable {
            return Err(ErrorKind::InvalidInput);
        }
        if matches!(self.distribution, Distribution::LogUniform) {
            let positive = match &self.range {
                Range::Continuous { low, .. } => 0 < *low,
                Range::Discrete { low, .. } => 0 < *low,
                Range::Categorical { .. } => false,
            };
            if !positive {
                return Err(ErrorKind::InvalidInput);
            }
        }
        Ok(Variable {
            name: self.name,
            range: self.range,
            distribution: self.distribution,
            conditions: self.conditions,
        })
    }
}

/// Returns a `VariableBuilder` initialized with the given variable name.
pub fn var(name: &str) -> (r: VariableBuilder)
    ensures
        r@.name == name@,
        r@.range == (RangeView::Continuous { low: i64::MIN as int, high: i64::MAX as int }),
        r@.distribution == Distribution::Uniform,
        r@.conditions.len() == 0,
{
    VariableBuilder::new(name)
}

/// A domain: an ordered sequence of variables with unique names whose
/// conditions refer only to earlier variables.
#[derive(Debug)]
pub struct Domain(pub Vec<Variable>);

impl View for Domain {
    type V = Seq<VariableView>;

    open spec fn view(&self) -> Seq<VariableView> {
        views_of(self.0@)
    }
}

/// Well-formedness of a sequence of variables: names pairwise distinct, every
/// variable well formed, and every condition valid against the variables that
/// precede its owner.
pub open spec fn spec_domain_wf(vars: Seq<VariableView>) -> bool {
    &&& forall|i: int, j: int| 0 <= i < j < vars.len() ==> vars[i].name != vars[j].name
    &&& forall|i: int| 0 <= i < vars.len() ==> spec_variable_wf(#[trigger] vars[i])
    &&& forall|i: int, k: int|
        0 <= i < vars.len() && 0 <= k < vars[i].conditions.len() ==> spec_condition_ok(
            #[trigger] vars[i].conditions[k],
            vars.take(i),
        )
}

/// Whether `Domain::new` accepts the builders.
pub open spec fn spec_domain_ok(builders: Seq<VariableView>) -> bool {
    &&& forall|i: int| 0 <= i < builders.len() ==> spec_builder_ok(#[trigger] builders[i])
    &&& spec_domain_wf(builders)
}

impl Domain {
    /// Makes a new `Domain`, validating every variable, the uniqueness of
    /// names, and every condition against the preceding variables.
    ///
    /// Construction succeeds exactly when every builder is well formed, names
    /// are pairwise distinct, and every condition names an earlier variable
    /// whose range contains the condition's value.
    #[verifier::loop_isolation(false)]
    pub fn new(variables: Vec<VariableBuilder>) -> (r: Result<Domain, ErrorKind>)
        ensures
            r.is_ok() == spec_domain_ok(builder_views(variables@)),
            r matches Ok(d) ==> d@ == builder_views(variables@)
                && spec_domain_wf(d@),
            r.is_err() ==> r == Result::<Domain, ErrorKind>::Err(ErrorKind::InvalidInput),
    {
        let ghost target = builder_views(variables@);
        let mut vars: Vec<Variable> = Vec::new();
        let mut idx: usize = 0;
        proof {
            assert(views_of(vars@) =~= target.take(0));
        }
        while idx < variables.len()
            invariant
                0 <= idx <= variables@.len(),
                target == builder_views(variables@),
                views_of(vars@) == target.take(idx as int),
                forall|i: int| 0 <= i < idx ==> spec_builder_ok(#[trigger] target[i]),
                spec_domain_wf(views_of(vars@)),
            decreases variables@.len() - idx,
        {
            let ghost vview = views_of(vars@);
            let v = match variables[idx].clone().finish() {
                Ok(v) => v,
                Err(_) => {
                    return Err(ErrorKind::InvalidInput);
                },
            };
            proof {
                assert(v@ == target[idx as int]);
            }
            let mut j: usize = 0;
            while j < vars.len()
                invariant
                    0 <= j <= vars@.len(),
                    vview == views_of(vars@),
                    forall|k: int| 0 <= k < j ==> vview[k].name != v@.name,
                decreases vars@.len() - j,
            {
                if vars[j].name == v.name {
                    proof {
                        assert(vview[j as int].name == v@.name);
                        assert(target.take(idx as int)[j as int].name == target[idx as int].name);
                        assert(target[j as int].name == target[idx as int].name);
                    }
                    return Err(ErrorKind::InvalidInput);
                }
                j += 1;
            }
            let mut k: usize = 0;
            while k < v.conditions.len()
                invariant
                    0 <= k <= v.conditions@.len(),
                    vview == views_of(vars@),
                    forall|a: int, b: int| 0 <= a < b < vview.len() ==> vview[a].name != vview[b].name,
                    forall|c: int| 0 <= c < k ==> spec_condition_ok(#[trigger] v@.conditions[c], vview),
            decreases v.conditions@.len() - k,
            {
                proof {
                    assert(v@.conditions[k as int] == v.conditions@[k as int]@);
                    assert forall|a: int, b: int|
                        0 <= a < b < vars@.len() implies vars@[a]@.name != vars@[b]@.name by {
                        assert(vview[a] == vars@[a]@ && vview[b] == vars@[b]@);
                    }
                }
                if v.conditions[k].validate(&vars).is_err() {
                    proof {
                        assert(!spec_condition_ok(
                            target[idx as int].conditions[k as int],
                            target.take(idx as int),
                        ));
                    }
                    return Err(ErrorKind::InvalidInput);
                }
                k += 1;
            }
            proof {
                assert(views_of(vars@.push(v)) =~= target.take(idx as int + 1));
            }
            vars.push(v);
            idx += 1;
            proof {
                let nview = views_of(vars@);
                assert forall|i: int, k2: int|
                    0 <= i < nview.len() && 0 <= k2 < nview[i].conditions.len() implies
                    spec_condition_ok(#[trigger] nview[i].conditions[k2], nview.take(i)) by {
                    assert(nview.take(i) =~= vview.take(i)) by {
                        assert(forall|m: int| 0 <= m < i ==> nview[m] == vview[m] || i == nview.len());
                    }
                    if i < nview.len() - 1 {
                        assert(nview[i] == vview[i]);
                        assert(vview.take(i) =~= nview.take(i));
                    } else {
                        assert(nview[i] == v@);
                        assert(nview.take(i) =~= vview);
                    }
                }
            }
        }
        proof {
            assert(views_of(vars@) =~= target);
        }
        Ok(Domain(vars))
    }

    /// Returns the variables in this domain.
    pub fn variables(&self) -> (r: &Vec<Variable>)
        ensures
            r == &self.0,
    {
        &self.0
    }
}

} // verus!
