use vstd::prelude::*;
use crate::depend::{DependTypes, DependencyTypes};
use crate::identity::Fmri;

verus! {

/// A diagnostic about the content of the repository.
#[derive(Debug, Clone, PartialEq, Eq)]
pub enum Problem {
    /// Two publishers give the same package: the package, the publisher of the
    /// kept entry, the publisher of the incoming one, and where the two
    /// lineages are both live, the publisher that is the likely culprit.
    SamePackageHasTwoPublishers(Fmri, Option<String>, Option<String>, Option<Option<String>>),
    /// A component lists a package that the catalog does not hold.
    NonExistingPackageInPkg5(Fmri, String),
    /// A required package does not exist: the dependency, its class, the
    /// requiring package (for runtime dependencies) and the requiring
    /// component's name (for the other classes).
    NonExistingRequired(DependTypes, DependencyTypes, Option<Fmri>, Option<String>),
    /// A renamed package requires a package that does not exist.
    NonExistingRequiredByRenamed(DependTypes, DependencyTypes, Fmri),
    ObsoletedPackageInComponent(Fmri, String),
    RenamedPackageInComponent(Fmri, String),
    MissingComponentForPackage(Fmri),
    /// A package is given to a second component: the package, the name of the
    /// component that keeps it, and the name of the one that asked for it.
    PackageInMultipleComponents(Fmri, String, String),
    /// Nothing outside the component needs its packages.
    UselessComponent(String),
    /// A renamed package (the first) needs a renamed package (the second).
    RenamedNeedsRenamed(Fmri, Fmri),
    /// An obsolete package is still required: the dependency on it, its
    /// class, the requiring package (for runtime dependencies) and the
    /// requiring component's name (for the other classes).
    ObsoletedRequired(DependTypes, DependencyTypes, Option<Fmri>, Option<String>),
    ObsoletedRequiredByRenamed(DependTypes, DependencyTypes, Fmri),
    /// As `ObsoletedRequired`, where only older versions are obsolete.
    PartlyObsoletedRequired(DependTypes, DependencyTypes, Option<Fmri>, Option<String>),
    PartlyObsoletedRequiredByRenamed(DependTypes, DependencyTypes, Fmri),
    /// Extracting a component's dependencies failed: the command and the
    /// component's path.
    UnRunnableMakeCommand(String, String),
}

/// The diagnostic sink: diagnostics in the order in which they were found.
#[derive(Debug)]
pub struct Problems {
    pub problems: Vec<Problem>,
}

impl Problems {
    pub open spec fn view(&self) -> Seq<Problem> {
        self.problems@
    }

    pub fn new() -> (r: Problems)
        ensures
            r@ == Seq::<Problem>::empty(),
    {
        Problems { problems: Vec::new() }
    }

    /// Appends a diagnostic.
    pub fn add_problem(&mut self, problem: Problem)
        ensures
            final(self)@ == old(self)@.push(problem),
    {
        self.problems.push(problem);
    }

    pub fn get(&self) -> (r: &Vec<Problem>)
        ensures
            r@ == self@,
    {
        &self.problems
    }

    pub fn len(&self) -> (r: usize)
        ensures
            r == self@.len(),
    {
        self.problems.len()
    }
}

} // verus!
