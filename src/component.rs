use vstd::prelude::*;
use crate::depend::DependencyTypes;

verus! {

/// A build unit: its name, its member packages and the packages it depends on
/// for each non-runtime class. Packages are indices into the registry.
#[derive(Debug, Clone)]
pub struct Component {
    pub name: String,
    pub packages: Vec<usize>,
    pub build: Vec<usize>,
    pub test: Vec<usize>,
    pub sys_build: Vec<usize>,
    pub sys_test: Vec<usize>,
}

impl Component {
    /// The packages that the component depends on at a non-runtime class.
    pub open spec fn dependencies_of(&self, class: DependencyTypes) -> Seq<usize> {
        match class {
            DependencyTypes::Build => self.build@,
            DependencyTypes::Test => self.test@,
            DependencyTypes::SystemBuild => self.sys_build@,
            DependencyTypes::SystemTest => self.sys_test@,
            DependencyTypes::Runtime => Seq::empty(),
        }
    }

    /// A component without members or dependencies.
    pub fn new(component_name: String) -> (r: Component)
        ensures
            r.name == component_name,
            r.packages@.len() == 0,
            r.build@.len() == 0,
            r.test@.len() == 0,
            r.sys_build@.len() == 0,
            r.sys_test@.len() == 0,
    {
        Component {
            name: component_name,
            packages: Vec::new(),
            build: Vec::new(),
            test: Vec::new(),
            sys_build: Vec::new(),
            sys_test: Vec::new(),
        }
    }

    pub fn add_package(&mut self, package: usize)
        ensures
            *final(self) == (Component { packages: final(self).packages, ..*old(self) }),
            final(self).packages@ == old(self).packages@.push(package),
    {
        self.packages.push(package);
    }

    /// Records that the component depends on a package at a non-runtime
    /// class; a runtime class is refused.
    pub fn add_dependency(&mut self, package: usize, class: DependencyTypes) -> (r: Result<(), String>)
        ensures
            class == DependencyTypes::Runtime <==> r is Err,
            r is Err ==> *final(self) == *old(self),
            r is Ok ==> final(self).dependencies_of(class) == old(self).dependencies_of(class).push(package),
            forall|c: DependencyTypes| c != class ==> final(self).dependencies_of(c) == old(self).dependencies_of(c),
            final(self).name == old(self).name,
            final(self).packages == old(self).packages,
    {
        match class {
            DependencyTypes::Runtime => return Err("can not insert runtime dependencies into component".to_owned()),
            DependencyTypes::Build => self.build.push(package),
            DependencyTypes::Test => self.test.push(package),
            DependencyTypes::SystemBuild => self.sys_build.push(package),
            DependencyTypes::SystemTest => self.sys_test.push(package),
        }
        Ok(())
    }

    pub fn get_name(&self) -> (r: &String)
        ensures
            r == &self.name,
    {
        &self.name
    }

    pub fn get_build_dependencies(&self) -> (r: &Vec<usize>)
        ensures
            r@ == self.build@,
    {
        &self.build
    }

    pub fn get_sys_build_dependencies(&self) -> (r: &Vec<usize>)
        ensures
            r@ == self.sys_build@,
    {
        &self.sys_build
    }

    pub fn get_test_dependencies(&self) -> (r: &Vec<usize>)
        ensures
            r@ == self.test@,
    {
        &self.test
    }

    pub fn get_sys_test_dependencies(&self) -> (r: &Vec<usize>)
        ensures
            r@ == self.sys_test@,
    {
        &self.sys_test
    }
}

} // verus!
