use vstd::prelude::*;
use crate::depend::{DependTypes, DependencyTypes, RevDependType};
use crate::identity::{compare_versions, strings_equal, valid_version, version_cmp, version_is_valid, Fmri};
use crate::problems::Problem;

verus! {

/// One version of a package, with its runtime dependencies.
#[derive(Debug, Clone)]
pub struct PackageVersion {
    /// the version text, in `fmri::Version`'s form
    pub version: String,
    pub runtime: Vec<DependTypes>,
    pub obsolete: bool,
    pub renamed: bool,
}

impl PackageVersion {
    /// A live version without dependencies.
    pub fn new(version: String) -> (r: PackageVersion)
        ensures
            r.version == version,
            r.runtime@ == Seq::<DependTypes>::empty(),
            !r.obsolete,
            !r.renamed,
    {
        PackageVersion { version, runtime: Vec::new(), obsolete: false, renamed: false }
    }

    /// Moves the given dependencies to the end of this version's list.
    pub fn add_runtime_dependencies(&mut self, runtime: &mut Vec<DependTypes>)
        ensures
            final(self).runtime@ == old(self).runtime@ + old(runtime)@,
            final(runtime)@ == Seq::<DependTypes>::empty(),
            final(self).version == old(self).version,
            final(self).obsolete == old(self).obsolete,
            final(self).renamed == old(self).renamed,
    {
        self.runtime.append(runtime);
    }

    pub fn set_obsolete(&mut self, obsolete: bool)
        ensures
            *final(self) == (PackageVersion { obsolete, ..*old(self) }),
    {
        self.obsolete = obsolete;
    }

    pub fn set_renamed(&mut self, renamed: bool)
        ensures
            *final(self) == (PackageVersion { renamed, ..*old(self) }),
    {
        self.renamed = renamed;
    }

    pub fn is_obsolete(&self) -> (r: bool)
        ensures
            r == self.obsolete,
    {
        self.obsolete
    }

    pub fn is_renamed(&self) -> (r: bool)
        ensures
            r == self.renamed,
    {
        self.renamed
    }
}

/// A package: its version-free identity, the versions kept of it, the
/// component it belongs to, and who depends on it.
///
/// Components and dependent packages are indices into the registry
/// (`Components`) that holds this package.
#[derive(Debug, Clone)]
pub struct Package {
    /// holds no version
    pub fmri: Fmri,
    pub versions: Vec<PackageVersion>,
    /// index of the component that the package belongs to
    pub component: Option<usize>,
    /// some stored version is obsolete
    pub obsolete: bool,
    /// some stored version is renamed
    pub renamed: bool,
    pub runtime_dependents: Vec<RevDependType>,
    pub build_dependents: Vec<usize>,
    pub test_dependents: Vec<usize>,
    pub sys_build_dependents: Vec<usize>,
    pub sys_test_dependents: Vec<usize>,
}

/// Versions that `add_package_version` treats as the same version.
pub open spec fn same_version(a: Seq<char>, b: Seq<char>) -> bool {
    a == b || version_cmp(a, b) == 0
}

impl Package {
    /// Nothing is attached to the package yet: no component, no dependents.
    pub open spec fn is_fresh(&self) -> bool {
        &&& self.component.is_none()
        &&& self.runtime_dependents@.len() == 0
        &&& self.build_dependents@.len() == 0
        &&& self.test_dependents@.len() == 0
        &&& self.sys_build_dependents@.len() == 0
        &&& self.sys_test_dependents@.len() == 0
    }

    /// Whether some stored version is the same version as `v`.
    pub open spec fn has_version(&self, v: Seq<char>) -> bool {
        exists|i: int| 0 <= i < self.versions@.len() && same_version(#[trigger] self.versions@[i].version@, v)
    }

    /// The components that depend on this package at a non-runtime class.
    pub open spec fn dependents_of(&self, class: DependencyTypes) -> Seq<usize> {
        match class {
            DependencyTypes::Build => self.build_dependents@,
            DependencyTypes::Test => self.test_dependents@,
            DependencyTypes::SystemBuild => self.sys_build_dependents@,
            DependencyTypes::SystemTest => self.sys_test_dependents@,
            DependencyTypes::Runtime => Seq::empty(),
        }
    }

    /// A package without versions, component or dependents.
    pub fn new(fmri: Fmri) -> (r: Package)
        ensures
            r.fmri == fmri,
            r.versions@ == Seq::<PackageVersion>::empty(),
            !r.obsolete,
            !r.renamed,
            r.is_fresh(),
    {
        Package {
            fmri,
            versions: Vec::new(),
            component: None,
            obsolete: false,
            renamed: false,
            runtime_dependents: Vec::new(),
            build_dependents: Vec::new(),
            test_dependents: Vec::new(),
            sys_build_dependents: Vec::new(),
            sys_test_dependents: Vec::new(),
        }
    }

    /// Adds a version. A text that is no version is refused; a version that
    /// is already stored (by text or by order) is ignored; one that is both
    /// obsolete and renamed is refused. The package's flags then record that
    /// some version is obsolete or renamed.
    pub fn add_package_version(&mut self, package_version: PackageVersion) -> (r: Result<(), String>)
        ensures
            !valid_version(package_version.version@) ==> r is Err && *final(self) == *old(self),
            valid_version(package_version.version@) && old(self).has_version(package_version.version@) ==> r is Ok && *final(self) == *old(self),
            valid_version(package_version.version@) && !old(self).has_version(package_version.version@) && package_version.obsolete
                && package_version.renamed ==> r is Err && *final(self) == *old(self),
            valid_version(package_version.version@) && !old(self).has_version(package_version.version@) && !(package_version.obsolete
                && package_version.renamed) ==> r is Ok && *final(self) == (Package {
                versions: final(self).versions,
                obsolete: old(self).obsolete || package_version.obsolete,
                renamed: old(self).renamed || package_version.renamed,
                ..*old(self)
            }) && final(self).versions@ == old(self).versions@.push(package_version),
    {
        if !version_is_valid(&package_version.version) {
            return Err("not a version".to_owned());
        }
        let mut i: usize = 0;
        while i < self.versions.len()
            invariant
                valid_version(package_version.version@),
                i <= self.versions@.len(),
                forall|j: int| 0 <= j < i ==> !same_version(#[trigger] self.versions@[j].version@, package_version.version@),
            decreases self.versions@.len() - i,
        {
            if strings_equal(&self.versions[i].version, &package_version.version) {
                return Ok(());
            }
            if compare_versions(&self.versions[i].version, &package_version.version) == 0 {
                return Ok(());
            }
            i += 1;
        }
        if package_version.obsolete && package_version.renamed {
            return Err("package cannot be obsolete and renamed at the same time".to_owned());
        }
        self.obsolete = self.obsolete || package_version.obsolete;
        self.renamed = self.renamed || package_version.renamed;
        self.versions.push(package_version);
        Ok(())
    }

    /// Records that a component depends on this package at a non-runtime
    /// class; a runtime class is refused.
    pub fn add_dependent(&mut self, dependent: usize, dependency_type: DependencyTypes) -> (r: Result<(), String>)
        ensures
            dependency_type == DependencyTypes::Runtime <==> r is Err,
            r is Err ==> *final(self) == *old(self),
            r is Ok ==> final(self).dependents_of(dependency_type) == old(self).dependents_of(dependency_type).push(dependent),
            r is Ok ==> forall|c: DependencyTypes| c != dependency_type ==> final(self).dependents_of(c) == old(self).dependents_of(c),
            final(self).fmri == old(self).fmri,
            final(self).versions == old(self).versions,
            final(self).component == old(self).component,
            final(self).obsolete == old(self).obsolete,
            final(self).renamed == old(self).renamed,
            final(self).runtime_dependents == old(self).runtime_dependents,
    {
        match dependency_type {
            DependencyTypes::Runtime => return Err("you can not add runtime dependent".to_owned()),
            DependencyTypes::Build => self.build_dependents.push(dependent),
            DependencyTypes::Test => self.test_dependents.push(dependent),
            DependencyTypes::SystemBuild => self.sys_build_dependents.push(dependent),
            DependencyTypes::SystemTest => self.sys_test_dependents.push(dependent),
        }
        Ok(())
    }

    /// Binds the package to a component. A package that already has one keeps
    /// it, and a diagnostic names both components.
    pub fn set_component(&mut self, component: usize, existing_name: &String, component_name: &String) -> (r: Option<Problem>)
        ensures
            old(self).component.is_none() ==> r.is_none() && *final(self) == (Package { component: Some(component), ..*old(self) }),
            old(self).component.is_some() ==> *final(self) == *old(self) && r == Some(Problem::PackageInMultipleComponents(
                old(self).fmri, *existing_name, *component_name)),
    {
        if self.component.is_some() {
            Some(Problem::PackageInMultipleComponents(self.fmri.copy(), existing_name.clone(), component_name.clone()))
        } else {
            self.component = Some(component);
            None
        }
    }

    pub fn get_versions(&self) -> (r: &Vec<PackageVersion>)
        ensures
            r == &self.versions,
    {
        &self.versions
    }

    pub fn set_obsolete(&mut self, obsolete: bool)
        ensures
            *final(self) == (Package { obsolete, ..*old(self) }),
    {
        self.obsolete = obsolete;
    }

    pub fn set_renamed(&mut self, renamed: bool)
        ensures
            *final(self) == (Package { renamed, ..*old(self) }),
    {
        self.renamed = renamed;
    }

    pub fn is_obsolete(&self) -> (r: bool)
        ensures
            r == self.obsolete,
    {
        self.obsolete
    }

    pub fn is_renamed(&self) -> (r: bool)
        ensures
            r == self.renamed,
    {
        self.renamed
    }

    pub fn is_in_component(&self) -> (r: Option<usize>)
        ensures
            r == self.component,
    {
        self.component
    }

    pub fn get_runtime_dependents(&self) -> (r: &Vec<RevDependType>)
        ensures
            r@ == self.runtime_dependents@,
    {
        &self.runtime_dependents
    }

    /// The components that depend on this package at a non-runtime class.
    pub fn get_git_dependents(&self, dependency_type: DependencyTypes) -> (r: Result<&Vec<usize>, String>)
        ensures
            dependency_type == DependencyTypes::Runtime <==> r is Err,
            r matches Ok(v) ==> v@ == self.dependents_of(dependency_type),
    {
        match dependency_type {
            DependencyTypes::Runtime => Err("you can not add runtime dependent".to_owned()),
            DependencyTypes::Build => Ok(&self.build_dependents),
            DependencyTypes::Test => Ok(&self.test_dependents),
            DependencyTypes::SystemBuild => Ok(&self.sys_build_dependents),
            DependencyTypes::SystemTest => Ok(&self.sys_test_dependents),
        }
    }

    pub fn change_versions(&mut self, vers: Vec<PackageVersion>)
        ensures
            *final(self) == (Package { versions: vers, ..*old(self) }),
    {
        self.versions = vers;
    }
}

} // verus!
