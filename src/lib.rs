pub mod identity;
pub mod depend;
pub mod problems;
pub mod package;
pub mod component;
pub mod components;
pub mod reverse;
pub mod checks;
pub mod userland;

pub use component::Component;
pub use components::{Components, MergeOutcome};
pub use depend::{DependTypes, DependencyTypes, RevDependType};
pub use identity::Fmri;
pub use package::{Package, PackageVersion};
pub use problems::{Problem, Problems};
pub use userland::{ComponentPackages, ComponentPackagesList};
