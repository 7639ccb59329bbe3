use oi_pkg_checker_core::components::merge_decision;
use oi_pkg_checker_core::identity::compare_versions;
use oi_pkg_checker_core::{
    Components, MergeOutcome, DependTypes, DependencyTypes, Fmri, Package, PackageVersion, Problem, RevDependType,
};

fn id(name: &str) -> Fmri {
    Fmri::new(name.to_owned(), None, None)
}

fn id_at(name: &str, version: &str) -> Fmri {
    Fmri::new(name.to_owned(), None, Some(version.to_owned()))
}

fn version(v: &str, obsolete: bool, renamed: bool) -> PackageVersion {
    let mut pv = PackageVersion::new(v.to_owned());
    pv.set_obsolete(obsolete);
    pv.set_renamed(renamed);
    pv
}

fn package(name: &str, publisher: &str, versions: Vec<PackageVersion>) -> Package {
    let mut p = Package::new(Fmri::new(name.to_owned(), Some(publisher.to_owned()), None));
    for v in versions {
        p.add_package_version(v).unwrap();
    }
    p
}

fn live(name: &str, v: &str) -> Package {
    package(name, "pub", vec![version(v, false, false)])
}

fn with_runtime(name: &str, v: &str, deps: Vec<DependTypes>, renamed: bool) -> Package {
    let mut pv = version(v, false, renamed);
    let mut deps = deps;
    pv.add_runtime_dependencies(&mut deps);
    package(name, "pub", vec![pv])
}

#[test]
fn both_obsolete_incoming_accepted_silently() {
    let mut c = Components::new();
    c.add_package(package("A", "X", vec![version("1.0", true, false)]));
    c.add_package(package("A", "Y", vec![version("2.0", true, false)]));
    assert_eq!(c.problems.len(), 0);
    assert_eq!(c.get_packages().len(), 1);
    assert!(c.get_packages()[0].is_obsolete());
    assert_eq!(c.get_packages()[0].fmri.publisher, Some("X".to_owned()));
}

#[test]
fn older_obsolete_incoming_ignored() {
    let mut c = Components::new();
    c.add_package(package("A", "X", vec![version("1.0", false, false)]));
    c.add_package(package("A", "Y", vec![version("0.9", true, false)]));
    assert_eq!(c.problems.len(), 0);
    assert_eq!(c.get_packages().len(), 1);
    let p = &c.get_packages()[0];
    assert_eq!(p.fmri.publisher, Some("X".to_owned()));
    assert_eq!(p.get_versions()[0].version, "1.0");
    assert!(!p.is_obsolete());
}

#[test]
fn equal_live_versions_conflict_names_existing_side() {
    let mut c = Components::new();
    c.add_package(package("A", "X", vec![version("1.0", false, false)]));
    c.add_package(package("A", "Y", vec![version("1.0", false, false)]));
    assert_eq!(
        c.problems.get()[0],
        Problem::SamePackageHasTwoPublishers(
            Fmri::new("A".to_owned(), Some("Y".to_owned()), None),
            Some("X".to_owned()),
            Some("Y".to_owned()),
            Some(Some("X".to_owned())),
        )
    );
    assert_eq!(c.problems.len(), 1);
    assert_eq!(c.get_packages()[0].fmri.publisher, Some("X".to_owned()));
}

#[test]
fn different_live_versions_conflict_names_incoming_side() {
    let mut c = Components::new();
    c.add_package(package("A", "X", vec![version("1.0", false, false)]));
    c.add_package(package("A", "Y", vec![version("1.2", false, false)]));
    match &c.problems.get()[0] {
        Problem::SamePackageHasTwoPublishers(_, a, b, culprit) => {
            assert_eq!(a, &Some("X".to_owned()));
            assert_eq!(b, &Some("Y".to_owned()));
            assert_eq!(culprit, &Some(Some("Y".to_owned())));
        }
        other => panic!("unexpected {:?}", other),
    }
}

#[test]
fn higher_stored_live_version_is_the_culprit() {
    let mut c = Components::new();
    c.add_package(package("A", "X", vec![version("2.0", false, false)]));
    c.add_package(package("A", "Y", vec![version("1.0", false, false)]));
    assert_eq!(c.problems.len(), 1);
    match &c.problems.get()[0] {
        Problem::SamePackageHasTwoPublishers(_, a, b, culprit) => {
            assert_eq!(a, &Some("X".to_owned()));
            assert_eq!(b, &Some("Y".to_owned()));
            assert_eq!(culprit, &Some(Some("X".to_owned())));
        }
        other => panic!("unexpected {:?}", other),
    }
}

#[test]
fn obsolete_lineage_yields_to_newer_live_in_either_order() {
    let mut c = Components::new();
    c.add_package(package("A", "X", vec![version("1.0", true, false)]));
    c.add_package(package("A", "Y", vec![version("2.0", false, false)]));
    assert_eq!(c.problems.len(), 0);
    assert_eq!(c.get_packages()[0].fmri.publisher, Some("Y".to_owned()));

    let mut d = Components::new();
    d.add_package(package("A", "Y", vec![version("2.0", false, false)]));
    d.add_package(package("A", "X", vec![version("1.0", true, false)]));
    assert_eq!(d.problems.len(), 0);
    assert_eq!(d.get_packages()[0].fmri.publisher, Some("Y".to_owned()));
}

#[test]
fn obsolete_newer_than_live_incoming_is_conflict() {
    let mut c = Components::new();
    c.add_package(package("A", "X", vec![version("2.0", true, false)]));
    c.add_package(package("A", "Y", vec![version("1.0", false, false)]));
    assert_eq!(c.problems.len(), 1);
    assert!(matches!(c.problems.get()[0], Problem::SamePackageHasTwoPublishers(_, _, _, None)));
    assert_eq!(c.get_packages()[0].fmri.publisher, Some("X".to_owned()));
}

#[test]
fn incoming_obsolete_not_older_than_live_is_conflict() {
    let mut c = Components::new();
    c.add_package(package("A", "X", vec![version("1.0", false, false)]));
    c.add_package(package("A", "Y", vec![version("1.5", true, false)]));
    assert_eq!(c.problems.len(), 1);
    assert!(matches!(c.problems.get()[0], Problem::SamePackageHasTwoPublishers(_, _, _, None)));
}

#[test]
fn merge_compares_lowest_versions() {
    let mut c = Components::new();
    c.add_package(package("A", "X", vec![version("3.0", true, false), version("1.0", true, false)]));
    c.add_package(package("A", "Y", vec![version("2.0", false, false)]));
    assert_eq!(c.problems.len(), 0);
    assert_eq!(c.get_packages()[0].fmri.publisher, Some("Y".to_owned()));
}

#[test]
fn version_both_obsolete_and_renamed_refused() {
    let mut p = Package::new(id("A"));
    assert!(p.add_package_version(version("1.0", true, true)).is_err());
    assert_eq!(p.get_versions().len(), 0);
    assert!(!p.is_obsolete());
    assert!(!p.is_renamed());
}

#[test]
fn repeated_version_is_ignored() {
    let mut p = Package::new(id("A"));
    p.add_package_version(version("1.0", false, false)).unwrap();
    p.add_package_version(version("1.0", true, false)).unwrap();
    assert_eq!(p.get_versions().len(), 1);
    assert!(!p.is_obsolete());
}

#[test]
fn aggregate_flags_follow_any_version() {
    let mut p = Package::new(id("A"));
    p.add_package_version(version("1.0", true, false)).unwrap();
    p.add_package_version(version("2.0", false, false)).unwrap();
    assert!(p.is_obsolete());
    p.add_package_version(version("3.0", false, true)).unwrap();
    assert!(p.is_renamed());
    assert!(p.is_obsolete());
}

#[test]
fn pruning_keeps_highest_live_version() {
    let mut c = Components::new();
    c.add_package(package(
        "A",
        "X",
        vec![version("1.9", false, false), version("1.10", false, false), version("2.0", true, false)],
    ));
    c.remove_old_versions();
    let vs = c.get_packages()[0].get_versions();
    assert_eq!(vs.len(), 1);
    assert_eq!(vs[0].version, "1.10");
}

#[test]
fn pruning_without_live_version_keeps_highest() {
    let mut c = Components::new();
    c.add_package(package(
        "A",
        "X",
        vec![version("1.0", true, false), version("3.0", false, true), version("2.0", true, false)],
    ));
    c.add_package(live("B", "0.1"));
    c.remove_old_versions();
    for p in c.get_packages() {
        assert_eq!(p.get_versions().len(), 1);
    }
    let vs = c.get_packages()[0].get_versions();
    assert_eq!(vs[0].version, "3.0");
    assert!(vs[0].is_renamed());
}

#[test]
fn require_any_gives_one_edge_per_candidate() {
    let mut c = Components::new();
    c.add_package(live("T1", "1.0"));
    c.add_package(live("T2", "1.0"));
    c.add_package(live("T3", "1.0"));
    c.add_package(with_runtime(
        "S",
        "1.0",
        vec![DependTypes::RequireAny(vec![id_at("T1", "1.0"), id_at("T2", "1.0"), id_at("T3", "1.0")])],
        false,
    ));
    c.distribute_reverse_runtime_dependencies();
    for t in 0..3 {
        assert_eq!(c.get_packages()[t].get_runtime_dependents(), &vec![RevDependType::Require(3)]);
    }
    assert_eq!(c.problems.len(), 0);
}

#[test]
fn each_dependency_shape_gives_its_edge() {
    let mut c = Components::new();
    c.add_package(live("T", "1.0"));
    c.add_package(live("P", "1.0"));
    c.add_package(with_runtime(
        "S",
        "1.0",
        vec![
            DependTypes::Require(id("T")),
            DependTypes::Optional(id("T")),
            DependTypes::Incorporate(id("T")),
            DependTypes::Group(id("T")),
            DependTypes::Conditional(id("T"), id("P")),
        ],
        false,
    ));
    c.distribute_reverse_runtime_dependencies();
    assert_eq!(
        c.get_packages()[0].get_runtime_dependents(),
        &vec![
            RevDependType::Require(2),
            RevDependType::Optional(2),
            RevDependType::Incorporate(2),
            RevDependType::Group(2),
            RevDependType::ConditionalFmri(2),
        ]
    );
    assert_eq!(c.get_packages()[1].get_runtime_dependents(), &vec![RevDependType::ConditionalPredicate(2)]);
}

#[test]
fn repeated_edges_recorded_once() {
    let mut c = Components::new();
    c.add_package(live("T", "1.0"));
    c.add_package(with_runtime(
        "S",
        "1.0",
        vec![DependTypes::Require(id("T")), DependTypes::Require(id("T"))],
        false,
    ));
    c.distribute_reverse_runtime_dependencies();
    assert_eq!(c.get_packages()[0].get_runtime_dependents(), &vec![RevDependType::Require(1)]);
}

#[test]
fn missing_runtime_target_reported() {
    let mut c = Components::new();
    c.add_package(with_runtime("S", "1.0", vec![DependTypes::Require(id("Gone"))], false));
    c.add_package(with_runtime("R", "1.0", vec![DependTypes::Optional(id("Lost"))], true));
    c.distribute_reverse_runtime_dependencies();
    assert_eq!(c.problems.len(), 2);
    assert_eq!(
        c.problems.get()[0],
        Problem::NonExistingRequired(
            DependTypes::Require(id("Gone")),
            DependencyTypes::Runtime,
            Some(Fmri::new("S".to_owned(), Some("pub".to_owned()), None)),
            None,
        )
    );
    assert_eq!(
        c.problems.get()[1],
        Problem::NonExistingRequiredByRenamed(
            DependTypes::Optional(id("Lost")),
            DependencyTypes::Runtime,
            Fmri::new("R".to_owned(), Some("pub".to_owned()), None),
        )
    );
}

#[test]
fn missing_conditional_target_uses_placeholder() {
    let mut c = Components::new();
    c.add_package(with_runtime("S", "1.0", vec![DependTypes::Conditional(id("Gone"), id("Lost"))], false));
    c.distribute_reverse_runtime_dependencies();
    assert_eq!(c.problems.len(), 2);
    match &c.problems.get()[0] {
        Problem::NonExistingRequired(DependTypes::Conditional(f, p), _, _, _) => {
            assert_eq!(f, &id("Gone"));
            assert_eq!(p, &id("none"));
        }
        other => panic!("unexpected {:?}", other),
    }
}

#[test]
fn second_component_binding_reported_and_first_kept() {
    let mut c = Components::new();
    c.add_package(live("P", "1.0"));
    c.new_component("first".to_owned(), vec![id("P")]).unwrap();
    c.new_component("second".to_owned(), vec![id("P")]).unwrap();
    assert_eq!(c.get_packages()[0].is_in_component(), Some(0));
    assert_eq!(
        c.problems.get()[0],
        Problem::PackageInMultipleComponents(
            Fmri::new("P".to_owned(), Some("pub".to_owned()), None),
            "first".to_owned(),
            "second".to_owned(),
        )
    );
    assert_eq!(c.get_components()[1].packages, vec![0]);
}

#[test]
fn set_component_twice_keeps_first() {
    let mut p = Package::new(id("P"));
    assert!(p.set_component(4, &"x".to_owned(), &"a".to_owned()).is_none());
    let problem = p.set_component(7, &"a".to_owned(), &"b".to_owned());
    assert_eq!(p.is_in_component(), Some(4));
    assert_eq!(
        problem,
        Some(Problem::PackageInMultipleComponents(id("P"), "a".to_owned(), "b".to_owned()))
    );
}

#[test]
fn component_member_missing_from_catalog() {
    let mut c = Components::new();
    c.new_component("comp".to_owned(), vec![id("Nope")]).unwrap();
    assert_eq!(c.problems.get()[0], Problem::NonExistingPackageInPkg5(id("Nope"), "comp".to_owned()));
    assert_eq!(c.get_components()[0].packages.len(), 0);
}

#[test]
fn repo_dependencies_link_both_ways() {
    let mut c = Components::new();
    c.add_package(live("P", "1.0"));
    c.add_package(live("Q", "1.0"));
    c.new_component("comp".to_owned(), vec![id("P")]).unwrap();
    c.add_repo_dependencies(&"comp".to_owned(), vec![id("Q"), id("Missing")], DependencyTypes::Build).unwrap();
    assert_eq!(c.get_component_by_name(&"comp".to_owned()).unwrap().get_build_dependencies(), &vec![1]);
    assert_eq!(c.get_packages()[1].get_git_dependents(DependencyTypes::Build).unwrap(), &vec![0]);
    assert_eq!(c.get_packages()[1].get_git_dependents(DependencyTypes::Test).unwrap().len(), 0);
    assert!(c.get_packages()[1].get_git_dependents(DependencyTypes::Runtime).is_err());
    assert_eq!(
        c.problems.get()[0],
        Problem::NonExistingRequired(
            DependTypes::Require(id("Missing")),
            DependencyTypes::Build,
            None,
            Some("comp".to_owned()),
        )
    );
}

#[test]
fn repo_dependencies_refuse_runtime_and_unknown_component() {
    let mut c = Components::new();
    c.add_package(live("P", "1.0"));
    c.new_component("comp".to_owned(), vec![id("P")]).unwrap();
    assert!(c.add_repo_dependencies(&"comp".to_owned(), vec![id("P")], DependencyTypes::Runtime).is_err());
    assert!(c.add_repo_dependencies(&"other".to_owned(), vec![id("P")], DependencyTypes::Test).is_err());
    assert_eq!(c.problems.len(), 0);
    assert_eq!(c.get_components()[0].get_test_dependencies().len(), 0);
}

#[test]
fn set_obsolete_by_version_touches_only_that_version() {
    let mut c = Components::new();
    c.add_package(package("A", "X", vec![version("1.0", false, false), version("2.0", false, false)]));
    c.set_package_obsolete(id_at("A", "1.0")).unwrap();
    let p = c.get_package_by_fmri(&id("A")).unwrap();
    assert!(p.get_versions()[0].is_obsolete());
    assert!(!p.get_versions()[1].is_obsolete());
    assert!(!p.is_obsolete());
    c.set_package_renamed(id("A")).unwrap();
    assert!(c.get_package_by_fmri(&id("A")).unwrap().is_renamed());
    assert!(c.set_package_obsolete(id("B")).is_err());
}

#[test]
fn sole_idle_member_makes_component_useless() {
    let mut c = Components::new();
    c.add_package(live("P", "1.0"));
    c.new_component("C".to_owned(), vec![id("P")]).unwrap();
    c.distribute_reverse_runtime_dependencies();
    c.remove_old_versions();
    c.check_problems().unwrap();
    assert_eq!(c.problems.get(), &vec![Problem::UselessComponent("C".to_owned())]);
}

#[test]
fn component_needed_from_outside_is_not_useless() {
    let mut c = Components::new();
    c.add_package(live("P", "1.0"));
    c.add_package(with_runtime("S", "1.0", vec![DependTypes::Require(id("P"))], false));
    c.new_component("C".to_owned(), vec![id("P")]).unwrap();
    c.new_component("D".to_owned(), vec![id("S")]).unwrap();
    c.distribute_reverse_runtime_dependencies();
    c.remove_old_versions();
    c.check_problems().unwrap();
    assert_eq!(c.problems.get(), &vec![Problem::UselessComponent("D".to_owned())]);
}

#[test]
fn renamed_needed_by_renamed_reported_once() {
    let mut c = Components::new();
    c.add_package(package("R", "pub", vec![version("1.0", false, true)]));
    c.add_package(with_runtime("S", "1.0", vec![DependTypes::Require(id("R"))], true));
    c.distribute_reverse_runtime_dependencies();
    c.remove_old_versions();
    c.check_problems().unwrap();
    let s = Fmri::new("S".to_owned(), Some("pub".to_owned()), None);
    let r = Fmri::new("R".to_owned(), Some("pub".to_owned()), None);
    let hits: Vec<&Problem> =
        c.problems.get().iter().filter(|p| matches!(p, Problem::RenamedNeedsRenamed(_, _))).collect();
    assert_eq!(hits, vec![&Problem::RenamedNeedsRenamed(s, r)]);
}

#[test]
fn obsolete_package_still_required_is_reported() {
    let mut c = Components::new();
    c.add_package(package("O", "pub", vec![version("1.0", true, false)]));
    c.add_package(with_runtime("S", "1.0", vec![DependTypes::Require(id("O"))], false));
    c.new_component("C".to_owned(), vec![id("S")]).unwrap();
    c.add_repo_dependencies(&"C".to_owned(), vec![id("O")], DependencyTypes::Test).unwrap();
    c.distribute_reverse_runtime_dependencies();
    c.remove_old_versions();
    c.check_problems().unwrap();
    let o = Fmri::new("O".to_owned(), Some("pub".to_owned()), None);
    let s = Fmri::new("S".to_owned(), Some("pub".to_owned()), None);
    let problems = c.problems.get();
    assert!(problems.contains(&Problem::ObsoletedRequired(
        DependTypes::Require(o.clone()),
        DependencyTypes::Test,
        None,
        Some("C".to_owned()),
    )));
    assert!(problems.contains(&Problem::ObsoletedRequired(
        DependTypes::Require(o),
        DependencyTypes::Runtime,
        Some(s),
        None,
    )));
}

#[test]
fn partly_obsolete_package_required_by_renamed() {
    let mut c = Components::new();
    c.add_package(package("O", "pub", vec![version("1.0", true, false), version("2.0", false, false)]));
    c.add_package(with_runtime("S", "1.0", vec![DependTypes::Require(id("O"))], true));
    c.distribute_reverse_runtime_dependencies();
    c.remove_old_versions();
    c.check_problems().unwrap();
    let o = Fmri::new("O".to_owned(), Some("pub".to_owned()), None);
    let s = Fmri::new("S".to_owned(), Some("pub".to_owned()), None);
    assert!(c.problems.get().contains(&Problem::PartlyObsoletedRequiredByRenamed(
        DependTypes::Require(o),
        DependencyTypes::Runtime,
        s,
    )));
}

#[test]
fn orphans_and_flagged_members_reported() {
    let mut c = Components::new();
    c.add_package(live("Lone", "1.0"));
    c.add_package(package("Old", "pub", vec![version("1.0", true, false)]));
    c.add_package(package("Moved", "pub", vec![version("1.0", false, true)]));
    c.new_component("C".to_owned(), vec![id("Old"), id("Moved")]).unwrap();
    c.check_problems().unwrap();
    let p = c.problems.get();
    assert_eq!(p[0], Problem::ObsoletedPackageInComponent(Fmri::new("Old".to_owned(), Some("pub".to_owned()), None), "C".to_owned()));
    assert_eq!(p[1], Problem::RenamedPackageInComponent(Fmri::new("Moved".to_owned(), Some("pub".to_owned()), None), "C".to_owned()));
    assert_eq!(p[2], Problem::MissingComponentForPackage(Fmri::new("Lone".to_owned(), Some("pub".to_owned()), None)));
}

#[test]
fn merge_decision_table() {
    assert_eq!(merge_decision(true, false, -1), MergeOutcome::Replace);
    assert_eq!(merge_decision(true, false, 0), MergeOutcome::Replace);
    assert_eq!(merge_decision(true, false, 1), MergeOutcome::Conflict(None));
    assert_eq!(merge_decision(false, true, 0), MergeOutcome::Conflict(None));
    assert_eq!(merge_decision(false, true, 1), MergeOutcome::Keep);
    assert_eq!(merge_decision(false, false, 0), MergeOutcome::Conflict(Some(true)));
    assert_eq!(merge_decision(false, false, -1), MergeOutcome::Conflict(Some(false)));
    assert_eq!(merge_decision(false, false, 1), MergeOutcome::Conflict(Some(true)));
    assert_eq!(merge_decision(true, true, 1), MergeOutcome::Keep);
}

#[test]
fn version_order_is_numeric_per_segment() {
    assert_eq!(compare_versions(&"1.10".to_owned(), &"1.9".to_owned()), 1);
    assert_eq!(compare_versions(&"@2.3.2,5.11-2022.0.0.1".to_owned(), &"@2.3.2,5.11-2022.0.0.1:20220126T070330Z".to_owned()), 0);
    assert_eq!(compare_versions(&"1.2.7".to_owned(), &"1.3.7".to_owned()), -1);
    assert_eq!(compare_versions(&"x.y".to_owned(), &"1.0".to_owned()), 0);
}

#[test]
fn obsolete_dependent_of_obsolete_package_is_reported() {
    let mut c = Components::new();
    c.add_package(package("O", "pub", vec![version("1.0", true, false)]));
    let mut pv = version("1.0", true, false);
    pv.add_runtime_dependencies(&mut vec![DependTypes::Require(id("O")), DependTypes::Incorporate(id("O"))]);
    c.add_package(package("S", "pub", vec![pv]));
    c.distribute_reverse_runtime_dependencies();
    c.remove_old_versions();
    c.check_problems().unwrap();
    let o = Fmri::new("O".to_owned(), Some("pub".to_owned()), None);
    let s = Fmri::new("S".to_owned(), Some("pub".to_owned()), None);
    let hits: Vec<&Problem> = c
        .problems
        .get()
        .iter()
        .filter(|p| matches!(p, Problem::ObsoletedRequired(_, _, _, _)))
        .collect();
    assert_eq!(
        hits,
        vec![&Problem::ObsoletedRequired(DependTypes::Require(o), DependencyTypes::Runtime, Some(s), None)]
    );
}

#[test]
fn edges_to_two_identities_of_one_package_recorded_each() {
    let mut c = Components::new();
    c.add_package(live("T", "2.0"));
    c.add_package(with_runtime(
        "S",
        "1.0",
        vec![DependTypes::Require(id_at("T", "1.0")), DependTypes::Require(id_at("T", "2.0"))],
        false,
    ));
    c.distribute_reverse_runtime_dependencies();
    assert_eq!(
        c.get_packages()[0].get_runtime_dependents(),
        &vec![RevDependType::Require(1), RevDependType::Require(1)]
    );
    assert_eq!(c.problems.len(), 0);
}

#[test]
fn two_versions_of_a_missing_package_reported_each() {
    let mut c = Components::new();
    c.add_package(with_runtime(
        "S",
        "1.0",
        vec![DependTypes::Require(id_at("Gone", "1.0")), DependTypes::Require(id_at("Gone", "2.0"))],
        false,
    ));
    c.distribute_reverse_runtime_dependencies();
    assert_eq!(c.problems.len(), 2);
    assert!(matches!(&c.problems.get()[0], Problem::NonExistingRequired(DependTypes::Require(f), _, _, _) if f == &id_at("Gone", "1.0")));
    assert!(matches!(&c.problems.get()[1], Problem::NonExistingRequired(DependTypes::Require(f), _, _, _) if f == &id_at("Gone", "2.0")));
}

#[test]
fn marking_a_version_both_obsolete_and_renamed_refused() {
    let mut c = Components::new();
    c.add_package(package("A", "X", vec![version("1.0", true, false), version("2.0", false, false)]));
    assert!(c.set_package_renamed(id_at("A", "1.0")).is_err());
    let v = &c.get_packages()[0].get_versions()[0];
    assert!(v.is_obsolete() && !v.is_renamed());
    c.set_package_renamed(id_at("A", "2.0")).unwrap();
    assert!(c.set_package_obsolete(id_at("A", "2.0")).is_err());
    let v = &c.get_packages()[0].get_versions()[1];
    assert!(v.is_renamed() && !v.is_obsolete());
}

#[test]
fn unparsable_version_text_refused() {
    let mut p = Package::new(id("A"));
    p.add_package_version(version("1.0", false, false)).unwrap();
    assert!(p.add_package_version(version("x.y", false, false)).is_err());
    assert_eq!(p.get_versions().len(), 1);
}
