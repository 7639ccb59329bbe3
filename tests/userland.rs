use oi_pkg_checker_core::{ComponentPackages, ComponentPackagesList, Fmri, Package, PackageVersion, Problem, Problems};

fn id(name: &str) -> Fmri {
    Fmri::new(name.to_owned(), None, None)
}

fn list() -> ComponentPackagesList {
    ComponentPackagesList(vec![
        ComponentPackages {
            component_name: "first".to_owned(),
            path_to_component: "/c/first".to_owned(),
            packages_in_component: vec![id("a"), id("b")],
        },
        ComponentPackages {
            component_name: "second".to_owned(),
            path_to_component: "/c/second".to_owned(),
            packages_in_component: vec![id("b"), id("c")],
        },
    ])
}

fn pkg(name: &str, obsolete: bool, renamed: bool) -> Package {
    let mut p = Package::new(id(name));
    let mut v = PackageVersion::new("1.0".to_owned());
    v.set_obsolete(obsolete);
    v.set_renamed(renamed);
    p.add_package_version(v).unwrap();
    p
}

#[test]
fn first_listing_component_is_found() {
    let l = list();
    let mut problems = Problems::new();
    let found = l.get_component_packages_of_package_versions(&mut problems, &pkg("b", false, false));
    assert_eq!(found.unwrap().component_name, "first");
    assert_eq!(problems.len(), 0);
    assert_eq!(l.get().len(), 2);
}

#[test]
fn flagged_listed_package_reported() {
    let l = list();
    let mut problems = Problems::new();
    assert!(l.get_component_packages_of_package_versions(&mut problems, &pkg("c", true, false)).is_none());
    assert!(l.get_component_packages_of_package_versions(&mut problems, &pkg("a", false, true)).is_none());
    assert_eq!(problems.get()[0], Problem::ObsoletedPackageInComponent(id("c"), "second".to_owned()));
    assert_eq!(problems.get()[1], Problem::RenamedPackageInComponent(id("a"), "first".to_owned()));
}

#[test]
fn unlisted_live_package_reported() {
    let l = list();
    let mut problems = Problems::new();
    assert!(l.get_component_packages_of_package_versions(&mut problems, &pkg("z", false, false)).is_none());
    assert!(l.get_component_packages_of_package_versions(&mut problems, &pkg("y", true, false)).is_none());
    assert_eq!(problems.get(), &vec![Problem::MissingComponentForPackage(id("z"))]);
}
