use vstd::prelude::*;
use crate::identity::Fmri;

verus! {

/// The classes of dependency that a package or a component can have.
#[derive(Debug, Clone, Copy, PartialEq, Eq, Structural)]
pub enum DependencyTypes {
    Runtime,
    Build,
    Test,
    SystemBuild,
    SystemTest,
}

/// One runtime dependency that a version of a package declares.
#[derive(Debug, Clone, PartialEq, Eq)]
pub enum DependTypes {
    Require(Fmri),
    Optional(Fmri),
    Incorporate(Fmri),
    /// satisfied by any one of the listed packages
    RequireAny(Vec<Fmri>),
    /// the first package is needed where the second (the predicate) is present
    Conditional(Fmri, Fmri),
    Group(Fmri),
}

/// A runtime dependency seen from its target: the index of the package that
/// depends on the target, and the shape of the dependency.
#[derive(Debug, Clone, Copy, PartialEq, Eq, Structural)]
pub enum RevDependType {
    Require(usize),
    Optional(usize),
    Incorporate(usize),
    RequireAny(usize),
    ConditionalFmri(usize),
    ConditionalPredicate(usize),
    Group(usize),
}

impl RevDependType {
    /// The package that holds the dependency.
    pub open spec fn source_spec(self) -> usize {
        match self {
            RevDependType::Require(s) => s,
            RevDependType::Optional(s) => s,
            RevDependType::Incorporate(s) => s,
            RevDependType::RequireAny(s) => s,
            RevDependType::ConditionalFmri(s) => s,
            RevDependType::ConditionalPredicate(s) => s,
            RevDependType::Group(s) => s,
        }
    }

    /// The package that holds the dependency.
    #[verifier::when_used_as_spec(source_spec)]
    pub fn source(self) -> (r: usize)
        ensures
            r == self.source_spec(),
    {
        match self {
            RevDependType::Require(s) => s,
            RevDependType::Optional(s) => s,
            RevDependType::Incorporate(s) => s,
            RevDependType::RequireAny(s) => s,
            RevDependType::ConditionalFmri(s) => s,
            RevDependType::ConditionalPredicate(s) => s,
            RevDependType::Group(s) => s,
        }
    }

    /// Whether the edge only pins a version rather than needing the target.
    pub open spec fn is_incorporate_spec(self) -> bool {
        self is Incorporate
    }

    #[verifier::when_used_as_spec(is_incorporate_spec)]
    pub fn is_incorporate(self) -> (r: bool)
        ensures
            r == self.is_incorporate_spec(),
    {
        match self {
            RevDependType::Incorporate(_) => true,
            _ => false,
        }
    }
}

} // verus!
