//! A benchmarking harness for black-box optimization.
//!
//! A *study* pairs a solver (which proposes parameter assignments) with a
//! problem (which evaluates them), drives a budgeted ask/tell loop between
//! the two, and records every interaction. Solvers and problems may also run
//! as child processes behind a framed-JSON protocol; the protocol state and
//! all bookkeeping live here, while process plumbing stays outside.

pub mod bench;
pub mod capability;
pub mod channel;
pub mod codec;
pub mod domain;
pub mod epi;
pub mod filters;
pub mod message;
pub mod optuna;
pub mod problem;
pub mod random;
pub mod record;
pub mod rng;
pub mod runner;
pub mod solver;
pub mod sphere;
pub mod stats;
pub mod suites;
pub mod text;
pub mod trial;

use vstd::prelude::*;

verus! {

/// The views of a sequence of key/value attribute pairs.
pub open spec fn attr_views(s: Seq<(String, String)>) -> Seq<(Seq<char>, Seq<char>)> {
    s.map_values(|kv: (String, String)| (kv.0@, kv.1@))
}

/// Copies a vector of attribute pairs, keeping every element.
#[verifier::loop_isolation(false)]
pub fn clone_attrs(v: &Vec<(String, String)>) -> (r: Vec<(String, String)>)
    ensures
        attr_views(r@) == attr_views(v@),
{
    let mut r: Vec<(String, String)> = Vec::new();
    let mut i: usize = 0;
    while i < v.len()
        invariant
            0 <= i <= v@.len(),
            attr_views(r@) =~= attr_views(v@).take(i as int),
        decreases v@.len() - i,
    {
        let kv = (v[i].0.clone(), v[i].1.clone());
        r.push(kv);
        i += 1;
    }
    proof {
        assert(attr_views(r@) =~= attr_views(v@));
    }
    r
}

/// Error classification shared by the wire protocol and local failures.
#[derive(Debug, Clone, Copy, PartialEq, Eq, Structural)]
pub enum ErrorKind {
    /// A recipe, domain, or parameter vector violates a declared constraint.
    InvalidInput,
    /// A pipe or stream failed.
    IoError,
    /// The problem cannot score the proposed trial.
    Unevaluable,
    /// An internal invariant was violated.
    Bug,
    /// Any other failure.
    Other,
}

} // verus!
