use vstd::prelude::*;
use crate::identity::{strings_equal, Fmri};
use crate::package::Package;
use crate::problems::{Problem, Problems};

verus! {

/// A component of the build tree: its name, where it lies, and the packages
/// that it publishes.
#[derive(Debug, Clone)]
pub struct ComponentPackages {
    pub component_name: String,
    pub path_to_component: String,
    pub packages_in_component: Vec<Fmri>,
}

/// The components of the build tree, in the order in which they were listed.
#[derive(Debug, Clone)]
pub struct ComponentPackagesList(pub Vec<ComponentPackages>);

/// Whether the component lists a package of the given name.
pub open spec fn lists(cp: ComponentPackages, name: Seq<char>) -> bool {
    exists|k: int| 0 <= k < cp.packages_in_component@.len() && (#[trigger] cp.packages_in_component@[k]).name@ == name
}

/// `c` is the first component of `l` that lists a package of the given name.
pub open spec fn first_listing(l: Seq<ComponentPackages>, name: Seq<char>, c: int) -> bool {
    &&& 0 <= c < l.len()
    &&& lists(l[c], name)
    &&& forall|d: int| 0 <= d < c ==> !lists(#[trigger] l[d], name)
}

fn component_lists(cp: &ComponentPackages, name: &String) -> (r: bool)
    ensures
        r == lists(*cp, name@),
{
    let mut k: usize = 0;
    while k < cp.packages_in_component.len()
        invariant
            k <= cp.packages_in_component@.len(),
            forall|j: int| 0 <= j < k ==> (#[trigger] cp.packages_in_component@[j]).name@ != name@,
        decreases cp.packages_in_component@.len() - k,
    {
        if strings_equal(&cp.packages_in_component[k].name, name) {
            return true;
        }
        k += 1;
    }
    false
}

impl ComponentPackagesList {
    pub open spec fn view(&self) -> Seq<ComponentPackages> {
        self.0@
    }

    pub fn get(&self) -> (r: &Vec<ComponentPackages>)
        ensures
            r@ == self@,
    {
        &self.0
    }

    /// The component that publishes the package. The first component that
    /// lists it is the one; where the package is renamed or obsolete, that is
    /// reported and no component is returned. Where no component lists it,
    /// a live package is reported as missing a component.
    pub fn get_component_packages_of_package_versions(&self, problems: &mut Problems, package: &Package) -> (r: Option<&ComponentPackages>)
        ensures
            forall|c: int| first_listing(self@, package.fmri.name@, c) ==> {
                if package.renamed {
                    r.is_none() && final(problems)@ == old(problems)@.push(Problem::RenamedPackageInComponent(package.fmri, self@[c].component_name))
                } else if package.obsolete {
                    r.is_none() && final(problems)@ == old(problems)@.push(Problem::ObsoletedPackageInComponent(package.fmri, self@[c].component_name))
                } else {
                    r == Some(&self@[c]) && final(problems)@ == old(problems)@
                }
            },
            (forall|c: int| 0 <= c < self@.len() ==> !lists(#[trigger] self@[c], package.fmri.name@)) ==> r.is_none() && if !package.obsolete && !package.renamed {
                final(problems)@ == old(problems)@.push(Problem::MissingComponentForPackage(package.fmri))
            } else {
                final(problems)@ == old(problems)@
            },
    {
        let mut c: usize = 0;
        while c < self.0.len()
            invariant
                c <= self@.len(),
                problems@ == old(problems)@,
                forall|d: int| 0 <= d < c ==> !lists(#[trigger] self@[d], package.fmri.name@),
            decreases self@.len() - c,
        {
            let cp = &self.0[c];
            if component_lists(cp, &package.fmri.name) {
                proof {
                    assert(first_listing(self@, package.fmri.name@, c as int));
                    assert forall|x: int| first_listing(self@, package.fmri.name@, x) implies x == c as int by {
                        if x < c as int {
                        } else if x > c as int {
                            assert(!lists(self@[c as int], package.fmri.name@));
                        }
                    }
                }
                if package.renamed {
                    problems.add_problem(Problem::RenamedPackageInComponent(package.fmri.copy(), cp.component_name.clone()));
                    return None;
                } else if package.obsolete {
                    problems.add_problem(Problem::ObsoletedPackageInComponent(package.fmri.copy(), cp.component_name.clone()));
                    return None;
                }
                return Some(cp);
            }
            c += 1;
        }
        if !package.obsolete && !package.renamed {
            problems.add_problem(Problem::MissingComponentForPackage(package.fmri.copy()));
        }
        None
    }
}

} // verus!
