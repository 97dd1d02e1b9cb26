//! The nested-study problem: tuning one solver by running it as a problem.
//!
//! An instance runs an inner solver against an inner problem and reports the
//! best value found so far; the subprocess plumbing of the inner pair lives
//! outside. The budget accounting and the running best are decided here.

use crate::trial::Values;
use crate::ErrorKind;
use vstd::prelude::*;

verus! {

/// The nested-study problem: its inner budget.
#[derive(Debug, Clone, Copy, PartialEq, Eq, Structural)]
pub struct OptunaProblem {
    /// Number of inner evaluation rounds that one outer step buys.
    pub budget: u64,
}

impl OptunaProblem {
    /// Binds an evaluator with nothing consumed and no best value yet.
    pub fn create_evaluator(&self) -> (r: OptunaEvaluator)
        requires
            self.budget >= 1,
        ensures
            r.budget == self.budget,
            r.consumed == 0,
            r.best_values is None,
    {
        OptunaEvaluator { budget: self.budget, consumed: 0, best_values: None }
    }
}

/// Whether `a` improves on `b` in the lexicographic order of objective
/// vectors, which decides the running best of a nested study.
pub open spec fn spec_lex_lt(a: Seq<int>, b: Seq<int>, i: int) -> bool
    decreases b.len() - i,
{
    if i < 0 || i >= a.len() || i >= b.len() {
        a.len() < b.len() && 0 <= i == a.len()
    } else if a[i] < b[i] {
        true
    } else if a[i] > b[i] {
        false
    } else {
        spec_lex_lt(a, b, i + 1)
    }
}

/// The evaluator of a nested study: it carries the consumed budget and the
/// best observation so far.
#[derive(Debug)]
pub struct OptunaEvaluator {
    pub budget: u64,
    pub consumed: u64,
    pub best_values: Option<Values>,
}

impl OptunaEvaluator {
    /// Whether another inner round is owed: rounds run until the inner
    /// budget is consumed.
    pub fn wants_more(&self) -> (r: bool)
        ensures
            r == (self.consumed < self.budget),
    {
        self.consumed < self.budget
    }

    /// Books one inner round: its observed values and its consumption. The
    /// running best only ever improves — the new observation replaces it
    /// exactly when it is lexicographically smaller, or when there was none.
    pub fn observe(&mut self, values: Values, consumption: u64)
        ensures
            final(self).budget == old(self).budget,
            final(self).consumed == if old(self).consumed + consumption <= u64::MAX {
                old(self).consumed + consumption
            } else {
                u64::MAX as int
            },
            match &old(self).best_values {
                None => final(self).best_values matches Some(b) && b@ == values@,
                Some(prev) => final(self).best_values matches Some(b) && b@ == (if spec_lex_lt(
                    values@,
                    prev@,
                    0,
                ) {
                    values@
                } else {
                    prev@
                }),
            },
    {
        self.consumed = if self.consumed > u64::MAX - consumption {
            u64::MAX
        } else {
            self.consumed + consumption
        };
        let replace = match &self.best_values {
            None => true,
            Some(prev) => lex_lt(&values, prev),
        };
        if replace {
            self.best_values = Some(values);
        }
    }

    /// The best observation so far; `None` until the first round is booked.
    pub fn best(&self) -> (r: Option<&Values>)
        ensures
            match r {
                Some(v) => self.best_values matches Some(b) && v@ == b@,
                None => self.best_values is None,
            },
    {
        match &self.best_values {
            Some(v) => Some(v),
            None => None,
        }
    }
}

/// Lexicographic comparison of objective vectors.
#[verifier::loop_isolation(false)]
pub fn lex_lt(a: &Values, b: &Values) -> (r: bool)
    ensures
        r == spec_lex_lt(a@, b@, 0),
{
    let mut i: usize = 0;
    let n = if a.0.len() < b.0.len() {
        a.0.len()
    } else {
        b.0.len()
    };
    while i < n
        invariant
            0 <= i <= n,
            n == if a@.len() < b@.len() {
                a@.len()
            } else {
                b@.len()
            },
            forall|k: int| 0 <= k < i ==> a@[k] == b@[k],
            spec_lex_lt(a@, b@, 0) == spec_lex_lt(a@, b@, i as int),
        decreases n - i,
    {
        proof {
            assert(a@[i as int] == a.0@[i as int] as int);
            assert(b@[i as int] == b.0@[i as int] as int);
        }
        if a.0[i] < b.0[i] {
            return true;
        }
        if a.0[i] > b.0[i] {
            return false;
        }
        i += 1;
    }
    proof {
        assert(spec_lex_lt(a@, b@, 0) == spec_lex_lt(a@, b@, i as int));
    }
    a.0.len() < b.0.len()
}

} // verus!
