//! Capability tags: what a solver supports and what a problem requires.

use crate::attr_views;
use vstd::prelude::*;

verus! {

/// A single optimization feature.
#[derive(Debug, Clone, Copy, PartialEq, Eq, Structural, Hash)]
pub enum Capability {
    UniformContinuous,
    UniformDiscrete,
    LogUniformContinuous,
    LogUniformDiscrete,
    Categorical,
    Conditional,
    MultiObjective,
}


/// The declaration-order rank of a capability tag.
pub open spec fn spec_cap_rank(c: Capability) -> int {
    match c {
        Capability::UniformContinuous => 0,
        Capability::UniformDiscrete => 1,
        Capability::LogUniformContinuous => 2,
        Capability::LogUniformDiscrete => 3,
        Capability::Categorical => 4,
        Capability::Conditional => 5,
        Capability::MultiObjective => 6,
    }
}

/// A set of capabilities, one flag per tag.
#[derive(Debug, Clone, Copy, PartialEq, Eq, Structural, Hash)]
pub struct Capabilities {
    pub uniform_continuous: bool,
    pub uniform_discrete: bool,
    pub log_uniform_continuous: bool,
    pub log_uniform_discrete: bool,
    pub categorical: bool,
    pub conditional: bool,
    pub multi_objective: bool,
}

impl Capabilities {
    /// Whether the tag `c` is a member of this set.
    pub open spec fn has(&self, c: Capability) -> bool {
        match c {
            Capability::UniformContinuous => self.uniform_continuous,
            Capability::UniformDiscrete => self.uniform_discrete,
            Capability::LogUniformContinuous => self.log_uniform_continuous,
            Capability::LogUniformDiscrete => self.log_uniform_discrete,
            Capability::Categorical => self.categorical,
            Capability::Conditional => self.conditional,
            Capability::MultiObjective => self.multi_objective,
        }
    }

    /// The mathematical set of members.
    pub open spec fn set(&self) -> Set<Capability> {
        Set::new(|c: Capability| self.has(c))
    }

    /// The set holding every capability.
    pub fn all() -> (r: Self)
        ensures
            forall|c: Capability| r.has(c),
    {
        Capabilities {
            uniform_continuous: true,
            uniform_discrete: true,
            log_uniform_continuous: true,
            log_uniform_discrete: true,
            categorical: true,
            conditional: true,
            multi_objective: true,
        }
    }

    /// The empty set.
    pub fn empty() -> (r: Self)
        ensures
            forall|c: Capability| !r.has(c),
    {
        Capabilities {
            uniform_continuous: false,
            uniform_discrete: false,
            log_uniform_continuous: false,
            log_uniform_discrete: false,
            categorical: false,
            conditional: false,
            multi_objective: false,
        }
    }

    pub fn is_empty(&self) -> (r: bool)
        ensures
            r == forall|c: Capability| !self.has(c),
    {
        let r = !(self.uniform_continuous || self.uniform_discrete || self.log_uniform_continuous
            || self.log_uniform_discrete || self.categorical || self.conditional
            || self.multi_objective);
        proof {
            if r {
                assert forall|c: Capability| !self.has(c) by {}
            } else {
                let w = choose_witness(*self);
                assert(self.has(w));
            }
        }
        r
    }

    /// `self` offers at least everything in `other`.
    pub fn is_superset(&self, other: &Self) -> (r: bool)
        ensures
            r == forall|c: Capability| other.has(c) ==> self.has(c),
    {
        let r = (!other.uniform_continuous || self.uniform_continuous)
            && (!other.uniform_discrete || self.uniform_discrete)
            && (!other.log_uniform_continuous || self.log_uniform_continuous)
            && (!other.log_uniform_discrete || self.log_uniform_discrete)
            && (!other.categorical || self.categorical)
            && (!other.conditional || self.conditional)
            && (!other.multi_objective || self.multi_objective);
        proof {
            if r {
                assert forall|c: Capability| other.has(c) implies self.has(c) by {}
            } else {
                let w = missing_witness(*self, *other);
                assert(other.has(w) && !self.has(w));
            }
        }
        r
    }

    /// The members of `required` that `self` lacks.
    pub fn incapables(&self, required: &Self) -> (r: Self)
        ensures
            forall|c: Capability| r.has(c) == (required.has(c) && !self.has(c)),
    {
        Capabilities {
            uniform_continuous: required.uniform_continuous && !self.uniform_continuous,
            uniform_discrete: required.uniform_discrete && !self.uniform_discrete,
            log_uniform_continuous: required.log_uniform_continuous
                && !self.log_uniform_continuous,
            log_uniform_discrete: required.log_uniform_discrete && !self.log_uniform_discrete,
            categorical: required.categorical && !self.categorical,
            conditional: required.conditional && !self.conditional,
            multi_objective: required.multi_objective && !self.multi_objective,
        }
    }

    pub fn contains(&self, c: Capability) -> (r: bool)
        ensures
            r == self.has(c),
    {
        match c {
            Capability::UniformContinuous => self.uniform_continuous,
            Capability::UniformDiscrete => self.uniform_discrete,
            Capability::LogUniformContinuous => self.log_uniform_continuous,
            Capability::LogUniformDiscrete => self.log_uniform_discrete,
            Capability::Categorical => self.categorical,
            Capability::Conditional => self.conditional,
            Capability::MultiObjective => self.multi_objective,
        }
    }

    /// Removes `c` from the set.
    pub fn remove(&mut self, c: Capability)
        ensures
            !final(self).has(c),
            forall|x: Capability| x != c ==> final(self).has(x) == old(self).has(x),
    {
        match c {
            Capability::UniformContinuous => self.uniform_continuous = false,
            Capability::UniformDiscrete => self.uniform_discrete = false,
            Capability::LogUniformContinuous => self.log_uniform_continuous = false,
            Capability::LogUniformDiscrete => self.log_uniform_discrete = false,
            Capability::Categorical => self.categorical = false,
            Capability::Conditional => self.conditional = false,
            Capability::MultiObjective => self.multi_objective = false,
        }
    }

    /// The members, in declaration order.
    pub fn iter(&self) -> (r: Vec<Capability>)
        ensures
            forall|i: int| 0 <= i < r@.len() ==> self.has(#[trigger] r@[i]),
            forall|c: Capability| self.has(c) ==> r@.contains(c),
            forall|i: int, j: int|
                0 <= i < j < r@.len() ==> spec_cap_rank(r@[i]) < spec_cap_rank(r@[j]),
            forall|i: int, j: int| 0 <= i < j < r@.len() ==> r@[i] != r@[j],
    {
        let mut r: Vec<Capability> = Vec::new();
        let ghost mut pos: Map<Capability, int> = Map::empty();
        if self.uniform_continuous {
            proof {
                pos = pos.insert(Capability::UniformContinuous, r@.len() as int);
            }
            r.push(Capability::UniformContinuous);
        }
        if self.uniform_discrete {
            proof {
                pos = pos.insert(Capability::UniformDiscrete, r@.len() as int);
            }
            r.push(Capability::UniformDiscrete);
        }
        if self.log_uniform_continuous {
            proof {
                pos = pos.insert(Capability::LogUniformContinuous, r@.len() as int);
            }
            r.push(Capability::LogUniformContinuous);
        }
        if self.log_uniform_discrete {
            proof {
                pos = pos.insert(Capability::LogUniformDiscrete, r@.len() as int);
            }
            r.push(Capability::LogUniformDiscrete);
        }
        if self.categorical {
            proof {
                pos = pos.insert(Capability::Categorical, r@.len() as int);
            }
            r.push(Capability::Categorical);
        }
        if self.conditional {
            proof {
                pos = pos.insert(Capability::Conditional, r@.len() as int);
            }
            r.push(Capability::Conditional);
        }
        if self.multi_objective {
            proof {
                pos = pos.insert(Capability::MultiObjective, r@.len() as int);
            }
            r.push(Capability::MultiObjective);
        }
        proof {
            assert forall|c: Capability| self.has(c) implies r@.contains(c) by {
                assert(0 <= pos[c] < r@.len() && r@[pos[c]] == c);
            }
            assert forall|i: int, j: int|
                0 <= i < j < r@.len() implies spec_cap_rank(r@[i]) < spec_cap_rank(r@[j]) by {}
        }
        r
    }

    /// Set union.
    pub fn union(self, other: Self) -> (r: Self)
        ensures
            forall|c: Capability| r.has(c) == (self.has(c) || other.has(c)),
    {
        Capabilities {
            uniform_continuous: self.uniform_continuous || other.uniform_continuous,
            uniform_discrete: self.uniform_discrete || other.uniform_discrete,
            log_uniform_continuous: self.log_uniform_continuous || other.log_uniform_continuous,
            log_uniform_discrete: self.log_uniform_discrete || other.log_uniform_discrete,
            categorical: self.categorical || other.categorical,
            conditional: self.conditional || other.conditional,
            multi_objective: self.multi_objective || other.multi_objective,
        }
    }

    pub fn uniform_continuous(self) -> (r: Self)
        ensures
            r == (Capabilities { uniform_continuous: true, ..self }),
    {
        Capabilities { uniform_continuous: true, ..self }
    }

    pub fn uniform_discrete(self) -> (r: Self)
        ensures
            r == (Capabilities { uniform_discrete: true, ..self }),
    {
        Capabilities { uniform_discrete: true, ..self }
    }

    pub fn log_uniform_continuous(self) -> (r: Self)
        ensures
            r == (Capabilities { log_uniform_continuous: true, ..self }),
    {
        Capabilities { log_uniform_continuous: true, ..self }
    }

    pub fn log_uniform_discrete(self) -> (r: Self)
        ensures
            r == (Capabilities { log_uniform_discrete: true, ..self }),
    {
        Capabilities { log_uniform_discrete: true, ..self }
    }

    pub fn categorical(self) -> (r: Self)
        ensures
            r == (Capabilities { categorical: true, ..self }),
    {
        Capabilities { categorical: true, ..self }
    }

    pub fn conditional(self) -> (r: Self)
        ensures
            r == (Capabilities { conditional: true, ..self }),
    {
        Capabilities { conditional: true, ..self }
    }

    pub fn multi_objective(self) -> (r: Self)
        ensures
            r == (Capabilities { multi_objective: true, ..self }),
    {
        Capabilities { multi_objective: true, ..self }
    }
}

/// Specification of a solver: its name, free-form attributes, and the
/// capabilities it can service.
#[derive(Debug)]
pub struct SolverSpec {
    pub name: String,
    pub attrs: Vec<(String, String)>,
    pub capabilities: Capabilities,
}

/// Mathematical model of a `SolverSpec`.
pub struct SolverSpecView {
    pub name: Seq<char>,
    pub attrs: Seq<(Seq<char>, Seq<char>)>,
    pub capabilities: Capabilities,
}

impl View for SolverSpec {
    type V = SolverSpecView;

    open spec fn view(&self) -> SolverSpecView {
        SolverSpecView {
            name: self.name@,
            attrs: attr_views(self.attrs@),
            capabilities: self.capabilities,
        }
    }
}

impl Clone for SolverSpec {
    fn clone(&self) -> (r: Self)
        ensures
            r@ == self@,
    {
        SolverSpec {
            name: self.name.clone(),
            attrs: crate::clone_attrs(&self.attrs),
            capabilities: self.capabilities,
        }
    }
}

/// `SolverSpec` builder.
#[derive(Debug)]
pub struct SolverSpecBuilder {
    pub name: String,
    pub attrs: Vec<(String, String)>,
    pub capabilities: Capabilities,
}

impl SolverSpecBuilder {
    /// Makes a new builder for a solver of the given name, with no attributes
    /// and no capabilities.
    pub fn new(name: &str) -> (r: Self)
        ensures
            r.name@ == name@,
            attr_views(r.attrs@) == Seq::<(Seq<char>, Seq<char>)>::empty(),
            forall|c: Capability| !r.capabilities.has(c),
    {
        let r = SolverSpecBuilder {
            name: name.to_owned(),
            attrs: Vec::new(),
            capabilities: Capabilities::empty(),
        };
        proof {
            assert(attr_views(r.attrs@) =~= Seq::<(Seq<char>, Seq<char>)>::empty());
        }
        r
    }

    /// Records an attribute of this solver.
    pub fn attr(self, key: &str, value: &str) -> (r: Self)
        ensures
            r.name == self.name,
            r.capabilities == self.capabilities,
            attr_views(r.attrs@) =~= attr_views(self.attrs@).push((key@, value@)),
    {
        let mut b = self;
        b.attrs.push((key.to_owned(), value.to_owned()));
        b
    }

    /// Adds a capability this solver can service.
    pub fn capable(self, capability: Capability) -> (r: Self)
        ensures
            r.name == self.name,
            r.attrs == self.attrs,
            r.capabilities.has(capability),
            forall|c: Capability|
                c != capability ==> r.capabilities.has(c) == self.capabilities.has(c),
    {
        let mut b = self;
        b.capabilities = match capability {
            Capability::UniformContinuous => b.capabilities.uniform_continuous(),
            Capability::UniformDiscrete => b.capabilities.uniform_discrete(),
            Capability::LogUniformContinuous => b.capabilities.log_uniform_continuous(),
            Capability::LogUniformDiscrete => b.capabilities.log_uniform_discrete(),
            Capability::Categorical => b.capabilities.categorical(),
            Capability::Conditional => b.capabilities.conditional(),
            Capability::MultiObjective => b.capabilities.multi_objective(),
        };
        b
    }

    /// Replaces the capability set of this solver.
    pub fn capabilities(self, capabilities: Capabilities) -> (r: Self)
        ensures
            r.name == self.name,
            r.attrs == self.attrs,
            r.capabilities == capabilities,
    {
        SolverSpecBuilder { capabilities, ..self }
    }

    /// Builds the `SolverSpec`.
    pub fn finish(self) -> (r: SolverSpec)
        ensures
            r.name == self.name,
            r.attrs == self.attrs,
            r.capabilities == self.capabilities,
    {
        SolverSpec { name: self.name, attrs: self.attrs, capabilities: self.capabilities }
    }
}

/// Picks a member of a non-empty capability set.
spec fn choose_witness(s: Capabilities) -> Capability {
    if s.uniform_continuous {
        Capability::UniformContinuous
    } else if s.uniform_discrete {
        Capability::UniformDiscrete
    } else if s.log_uniform_continuous {
        Capability::LogUniformContinuous
    } else if s.log_uniform_discrete {
        Capability::LogUniformDiscrete
    } else if s.categorical {
        Capability::Categorical
    } else if s.conditional {
        Capability::Conditional
    } else {
        Capability::MultiObjective
    }
}

/// Picks a member of `other` that `s` lacks, when one exists.
spec fn missing_witness(s: Capabilities, other: Capabilities) -> Capability {
    if other.uniform_continuous && !s.uniform_continuous {
        Capability::UniformContinuous
    } else if other.uniform_discrete && !s.uniform_discrete {
        Capability::UniformDiscrete
    } else if other.log_uniform_continuous && !s.log_uniform_continuous {
        Capability::LogUniformContinuous
    } else if other.log_uniform_discrete && !s.log_uniform_discrete {
        Capability::LogUniformDiscrete
    } else if other.categorical && !s.categorical {
        Capability::Categorical
    } else if other.conditional && !s.conditional {
        Capability::Conditional
    } else {
        Capability::MultiObjective
    }
}

} // verus!
