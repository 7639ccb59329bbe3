use vstd::prelude::*;
use crate::component::Component;
use crate::components::{registry_ok, Components};
use crate::depend::{DependTypes, DependencyTypes, RevDependType};
use crate::identity::{copy_string, Fmri};
use crate::package::Package;
use crate::problems::{Problem, Problems};

verus! {

/// The diagnostic for one member of a component: an obsolete or a renamed
/// package should not be listed in a component.
pub open spec fn member_report(p: Package, comp: Component) -> Seq<Problem> {
    if p.obsolete {
        seq![Problem::ObsoletedPackageInComponent(p.fmri, comp.name)]
    } else if p.renamed {
        seq![Problem::RenamedPackageInComponent(p.fmri, comp.name)]
    } else {
        Seq::empty()
    }
}

/// The diagnostics for the first `n` members of a component.
pub open spec fn member_reports(ps: Seq<Package>, comp: Component, n: nat) -> Seq<Problem>
    decreases n,
{
    if n == 0 {
        Seq::empty()
    } else {
        member_reports(ps, comp, (n - 1) as nat) + member_report(ps[comp.packages@[n - 1] as int], comp)
    }
}

/// The membership diagnostics of the first `n` components.
pub open spec fn membership_reports(ps: Seq<Package>, cs: Seq<Component>, n: nat) -> Seq<Problem>
    decreases n,
{
    if n == 0 {
        Seq::empty()
    } else {
        membership_reports(ps, cs, (n - 1) as nat) + member_reports(ps, cs[n - 1], cs[n - 1].packages@.len())
    }
}

/// The diagnostics for the first `n` packages that belong to no component and
/// are neither obsolete nor renamed.
pub open spec fn orphan_reports(ps: Seq<Package>, n: nat) -> Seq<Problem>
    decreases n,
{
    if n == 0 {
        Seq::empty()
    } else {
        let p = ps[n - 1];
        orphan_reports(ps, (n - 1) as nat) + if p.component is None && !p.renamed && !p.obsolete {
            seq![Problem::MissingComponentForPackage(p.fmri)]
        } else {
            Seq::empty()
        }
    }
}

/// Reports each obsolete or renamed package that a component lists.
pub fn check_membership(ps: &Vec<Package>, cs: &Vec<Component>, out: &mut Problems)
    requires
        registry_ok(ps@, cs@),
    ensures
        final(out)@ == old(out)@ + membership_reports(ps@, cs@, cs@.len()),
{
    let mut c: usize = 0;
    while c < cs.len()
        invariant
            registry_ok(ps@, cs@),
            c <= cs@.len(),
            out@ == old(out)@ + membership_reports(ps@, cs@, c as nat),
        decreases cs@.len() - c,
    {
        let comp = &cs[c];
        let ghost mid = out@;
        proof {
            assert(Components::component_links_ok(cs@[c as int], ps@.len() as int));
        }
        let mut m: usize = 0;
        while m < comp.packages.len()
            invariant
                registry_ok(ps@, cs@),
                c < cs@.len(),
                comp == cs@[c as int],
                m <= comp.packages@.len(),
                out@ == mid + member_reports(ps@, *comp, m as nat),
            decreases comp.packages@.len() - m,
        {
            proof {
                assert(Components::component_links_ok(cs@[c as int], ps@.len() as int));
            }
            let p = &ps[comp.packages[m]];
            if p.obsolete {
                out.add_problem(Problem::ObsoletedPackageInComponent(p.fmri.copy(), copy_string(&comp.name)));
            } else if p.renamed {
                out.add_problem(Problem::RenamedPackageInComponent(p.fmri.copy(), copy_string(&comp.name)));
            }
            proof {
                assert(out@ =~= mid + member_reports(ps@, *comp, (m + 1) as nat));
            }
            m += 1;
        }
        proof {
            assert(out@ =~= old(out)@ + membership_reports(ps@, cs@, (c + 1) as nat));
        }
        c += 1;
    }
}

/// Reports each package that belongs to no component and is neither
/// obsolete nor renamed.
pub fn check_orphans(ps: &Vec<Package>, out: &mut Problems)
    ensures
        final(out)@ == old(out)@ + orphan_reports(ps@, ps@.len()),
{
    let mut i: usize = 0;
    while i < ps.len()
        invariant
            i <= ps@.len(),
            out@ == old(out)@ + orphan_reports(ps@, i as nat),
        decreases ps@.len() - i,
    {
        let p = &ps[i];
        if p.component.is_none() && !p.renamed && !p.obsolete {
            out.add_problem(Problem::MissingComponentForPackage(p.fmri.copy()));
        }
        proof {
            assert(out@ =~= old(out)@ + orphan_reports(ps@, (i + 1) as nat));
        }
        i += 1;
    }
}

/// A member that nothing needs: live, pinned at most by `Incorporate` edges,
/// and needed by no component for building or testing.
pub open spec fn idle(p: Package) -> bool {
    &&& !p.obsolete
    &&& !p.renamed
    &&& forall|k: int| 0 <= k < p.runtime_dependents@.len() ==> (#[trigger] p.runtime_dependents@[k]).is_incorporate_spec()
    &&& p.build_dependents@.len() == 0
    &&& p.test_dependents@.len() == 0
    &&& p.sys_build_dependents@.len() == 0
    &&& p.sys_test_dependents@.len() == 0
}

/// A member needed only from inside component `ci`: each of its runtime
/// dependents that is more than a version pin is a member of the component,
/// and each component that needs it for building or testing is `ci` itself.
pub open spec fn closed_within(p: Package, comp: Component, ci: int) -> bool {
    &&& forall|k: int| 0 <= k < p.runtime_dependents@.len() && !(#[trigger] p.runtime_dependents@[k]).is_incorporate_spec()
        ==> comp.packages@.contains(p.runtime_dependents@[k].source_spec())
    &&& forall|k: int| 0 <= k < p.build_dependents@.len() ==> #[trigger] p.build_dependents@[k] == ci
    &&& forall|k: int| 0 <= k < p.test_dependents@.len() ==> #[trigger] p.test_dependents@[k] == ci
    &&& forall|k: int| 0 <= k < p.sys_build_dependents@.len() ==> #[trigger] p.sys_build_dependents@[k] == ci
    &&& forall|k: int| 0 <= k < p.sys_test_dependents@.len() ==> #[trigger] p.sys_test_dependents@[k] == ci
}

/// A component is useless where all its members are idle, or all are needed
/// only from inside it.
pub open spec fn is_useless(ps: Seq<Package>, cs: Seq<Component>, ci: int) -> bool {
    let comp = cs[ci];
    ||| forall|m: int| 0 <= m < comp.packages@.len() ==> idle(ps[#[trigger] comp.packages@[m] as int])
    ||| forall|m: int| 0 <= m < comp.packages@.len() ==> closed_within(ps[#[trigger] comp.packages@[m] as int], comp, ci)
}

/// The diagnostics for the first `n` components that are useless.
pub open spec fn useless_reports(ps: Seq<Package>, cs: Seq<Component>, n: nat) -> Seq<Problem>
    decreases n,
{
    if n == 0 {
        Seq::empty()
    } else {
        useless_reports(ps, cs, (n - 1) as nat) + if is_useless(ps, cs, n - 1) {
            seq![Problem::UselessComponent(cs[n - 1].name)]
        } else {
            Seq::empty()
        }
    }
}

fn all_equal(v: &Vec<usize>, x: usize) -> (r: bool)
    ensures
        r == forall|k: int| 0 <= k < v@.len() ==> #[trigger] v@[k] == x,
{
    let mut k: usize = 0;
    while k < v.len()
        invariant
            k <= v@.len(),
            forall|j: int| 0 <= j < k ==> #[trigger] v@[j] == x,
        decreases v@.len() - k,
    {
        if v[k] != x {
            return false;
        }
        k += 1;
    }
    true
}

fn holds(v: &Vec<usize>, x: usize) -> (r: bool)
    ensures
        r == v@.contains(x),
{
    let mut k: usize = 0;
    while k < v.len()
        invariant
            k <= v@.len(),
            forall|j: int| 0 <= j < k ==> v@[j] != x,
        decreases v@.len() - k,
    {
        if v[k] == x {
            proof {
                assert(v@[k as int] == x);
            }
            return true;
        }
        k += 1;
    }
    false
}

fn is_idle(p: &Package) -> (r: bool)
    ensures
        r == idle(*p),
{
    if p.obsolete || p.renamed {
        return false;
    }
    let mut k: usize = 0;
    while k < p.runtime_dependents.len()
        invariant
            k <= p.runtime_dependents@.len(),
            forall|j: int| 0 <= j < k ==> (#[trigger] p.runtime_dependents@[j]).is_incorporate_spec(),
        decreases p.runtime_dependents@.len() - k,
    {
        if !p.runtime_dependents[k].is_incorporate() {
            return false;
        }
        k += 1;
    }
    p.build_dependents.len() == 0 && p.test_dependents.len() == 0
        && p.sys_build_dependents.len() == 0 && p.sys_test_dependents.len() == 0
}

fn is_closed_within(p: &Package, comp: &Component, ci: usize) -> (r: bool)
    ensures
        r == closed_within(*p, *comp, ci as int),
{
    let mut k: usize = 0;
    while k < p.runtime_dependents.len()
        invariant
            k <= p.runtime_dependents@.len(),
            forall|j: int| 0 <= j < k && !(#[trigger] p.runtime_dependents@[j]).is_incorporate_spec()
                ==> comp.packages@.contains(p.runtime_dependents@[j].source_spec()),
        decreases p.runtime_dependents@.len() - k,
    {
        let e = p.runtime_dependents[k];
        if !e.is_incorporate() && !holds(&comp.packages, e.source()) {
            return false;
        }
        k += 1;
    }
    all_equal(&p.build_dependents, ci) && all_equal(&p.test_dependents, ci)
        && all_equal(&p.sys_build_dependents, ci) && all_equal(&p.sys_test_dependents, ci)
}

/// Whether component `ci` is useless.
pub fn component_is_useless(ps: &Vec<Package>, cs: &Vec<Component>, ci: usize) -> (r: bool)
    requires
        registry_ok(ps@, cs@),
        ci < cs@.len(),
    ensures
        r == is_useless(ps@, cs@, ci as int),
{
    let comp = &cs[ci];
    proof {
        assert(Components::component_links_ok(cs@[ci as int], ps@.len() as int));
    }
    let mut all_idle = true;
    let mut all_closed = true;
    let mut m: usize = 0;
    while m < comp.packages.len()
        invariant
            Components::component_links_ok(*comp, ps@.len() as int),
            comp == cs@[ci as int],
            m <= comp.packages@.len(),
            all_idle == forall|j: int| 0 <= j < m ==> idle(ps@[#[trigger] comp.packages@[j] as int]),
            all_closed == forall|j: int| 0 <= j < m ==> closed_within(ps@[#[trigger] comp.packages@[j] as int], *comp, ci as int),
        decreases comp.packages@.len() - m,
    {
        let p = &ps[comp.packages[m]];
        let a = is_idle(p);
        let b = is_closed_within(p, comp, ci);
        proof {
            if !a {
                assert(!idle(ps@[comp.packages@[m as int] as int]));
            }
            if !b {
                assert(!closed_within(ps@[comp.packages@[m as int] as int], *comp, ci as int));
            }
        }
        all_idle = all_idle && a;
        all_closed = all_closed && b;
        m += 1;
    }
    all_idle || all_closed
}

/// Reports each component that nothing outside it needs.
pub fn check_useless(ps: &Vec<Package>, cs: &Vec<Component>, out: &mut Problems)
    requires
        registry_ok(ps@, cs@),
    ensures
        final(out)@ == old(out)@ + useless_reports(ps@, cs@, cs@.len()),
{
    let mut c: usize = 0;
    while c < cs.len()
        invariant
            registry_ok(ps@, cs@),
            c <= cs@.len(),
            out@ == old(out)@ + useless_reports(ps@, cs@, c as nat),
        decreases cs@.len() - c,
    {
        if component_is_useless(ps, cs, c) {
            out.add_problem(Problem::UselessComponent(copy_string(&cs[c].name)));
        }
        proof {
            assert(out@ =~= old(out)@ + useless_reports(ps@, cs@, (c + 1) as nat));
        }
        c += 1;
    }
}

/// For renamed package `p`: a diagnostic for each of its first `n` runtime
/// dependents that is renamed too.
pub open spec fn renamed_runtime_reports(ps: Seq<Package>, p: Package, n: nat) -> Seq<Problem>
    decreases n,
{
    if n == 0 {
        Seq::empty()
    } else {
        let src = ps[p.runtime_dependents@[n - 1].source_spec() as int];
        renamed_runtime_reports(ps, p, (n - 1) as nat) + if src.renamed {
            seq![Problem::RenamedNeedsRenamed(src.fmri, p.fmri)]
        } else {
            Seq::empty()
        }
    }
}

/// For renamed package `p`: a diagnostic for each of the first `n` packages of
/// `deps` (its component's dependencies of one class) that is renamed too.
pub open spec fn renamed_class_reports(ps: Seq<Package>, p: Package, deps: Seq<usize>, n: nat) -> Seq<Problem>
    decreases n,
{
    if n == 0 {
        Seq::empty()
    } else {
        let q = ps[deps[n - 1] as int];
        renamed_class_reports(ps, p, deps, (n - 1) as nat) + if q.renamed {
            seq![Problem::RenamedNeedsRenamed(p.fmri, q.fmri)]
        } else {
            Seq::empty()
        }
    }
}

/// The rename-chain diagnostics of one package.
pub open spec fn renamed_reports_of(ps: Seq<Package>, cs: Seq<Component>, p: Package) -> Seq<Problem> {
    if !p.renamed {
        Seq::empty()
    } else {
        renamed_runtime_reports(ps, p, p.runtime_dependents@.len()) + match p.component {
            None => Seq::empty(),
            Some(c) => {
                let comp = cs[c as int];
                renamed_class_reports(ps, p, comp.build@, comp.build@.len())
                    + renamed_class_reports(ps, p, comp.test@, comp.test@.len())
                    + renamed_class_reports(ps, p, comp.sys_build@, comp.sys_build@.len())
                    + renamed_class_reports(ps, p, comp.sys_test@, comp.sys_test@.len())
            },
        }
    }
}

/// The rename-chain diagnostics of the first `n` packages.
pub open spec fn renamed_reports(ps: Seq<Package>, cs: Seq<Component>, n: nat) -> Seq<Problem>
    decreases n,
{
    if n == 0 {
        Seq::empty()
    } else {
        renamed_reports(ps, cs, (n - 1) as nat) + renamed_reports_of(ps, cs, ps[n - 1])
    }
}

fn report_renamed_deps(ps: &Vec<Package>, p: &Package, deps: &Vec<usize>, out: &mut Problems)
    requires
        forall|k: int| 0 <= k < deps@.len() ==> #[trigger] deps@[k] < ps@.len(),
    ensures
        final(out)@ == old(out)@ + renamed_class_reports(ps@, *p, deps@, deps@.len()),
{
    let mut k: usize = 0;
    while k < deps.len()
        invariant
            forall|j: int| 0 <= j < deps@.len() ==> #[trigger] deps@[j] < ps@.len(),
            k <= deps@.len(),
            out@ == old(out)@ + renamed_class_reports(ps@, *p, deps@, k as nat),
        decreases deps@.len() - k,
    {
        let q = &ps[deps[k]];
        if q.renamed {
            out.add_problem(Problem::RenamedNeedsRenamed(p.fmri.copy(), q.fmri.copy()));
        }
        proof {
            assert(out@ =~= old(out)@ + renamed_class_reports(ps@, *p, deps@, (k + 1) as nat));
        }
        k += 1;
    }
}

fn report_renamed_of(ps: &Vec<Package>, cs: &Vec<Component>, i: usize, out: &mut Problems)
    requires
        i < ps@.len(),
        Components::package_links_ok(ps@[i as int], ps@.len() as int, cs@.len() as int),
        forall|c: int| 0 <= c < cs@.len() ==> Components::component_links_ok(#[trigger] cs@[c], ps@.len() as int),
    ensures
        final(out)@ == old(out)@ + renamed_reports_of(ps@, cs@, ps@[i as int]),
{
    let p = &ps[i];
    if !p.renamed {
        proof {
            assert(old(out)@ + renamed_reports_of(ps@, cs@, ps@[i as int]) =~= old(out)@);
        }
        return;
    }
    let mut k: usize = 0;
    while k < p.runtime_dependents.len()
        invariant
            p == ps@[i as int],
            Components::package_links_ok(*p, ps@.len() as int, cs@.len() as int),
            k <= p.runtime_dependents@.len(),
            out@ == old(out)@ + renamed_runtime_reports(ps@, *p, k as nat),
        decreases p.runtime_dependents@.len() - k,
    {
        let src = &ps[p.runtime_dependents[k].source()];
        if src.renamed {
            out.add_problem(Problem::RenamedNeedsRenamed(src.fmri.copy(), p.fmri.copy()));
        }
        proof {
            assert(out@ =~= old(out)@ + renamed_runtime_reports(ps@, *p, (k + 1) as nat));
        }
        k += 1;
    }
    match p.component {
        None => {
            proof {
                assert(out@ =~= old(out)@ + renamed_reports_of(ps@, cs@, ps@[i as int]));
            }
        },
        Some(c) => {
            let comp = &cs[c];
            proof {
                assert(Components::component_links_ok(cs@[c as int], ps@.len() as int));
            }
            report_renamed_deps(ps, p, &comp.build, out);
            report_renamed_deps(ps, p, &comp.test, out);
            report_renamed_deps(ps, p, &comp.sys_build, out);
            report_renamed_deps(ps, p, &comp.sys_test, out);
            proof {
                assert(out@ =~= old(out)@ + renamed_reports_of(ps@, cs@, ps@[i as int]));
            }
        },
    }
}

/// Reports rename chains: a renamed package needed at runtime by a renamed
/// package, and a renamed package's component depending on a renamed package.
pub fn check_renamed(ps: &Vec<Package>, cs: &Vec<Component>, out: &mut Problems)
    requires
        registry_ok(ps@, cs@),
    ensures
        final(out)@ == old(out)@ + renamed_reports(ps@, cs@, ps@.len()),
{
    let mut i: usize = 0;
    while i < ps.len()
        invariant
            registry_ok(ps@, cs@),
            i <= ps@.len(),
            out@ == old(out)@ + renamed_reports(ps@, cs@, i as nat),
        decreases ps@.len() - i,
    {
        proof {
            assert(Components::package_links_ok(ps@[i as int], ps@.len() as int, cs@.len() as int));
        }
        report_renamed_of(ps, cs, i, out);
        proof {
            assert(out@ =~= old(out)@ + renamed_reports(ps@, cs@, (i + 1) as nat));
        }
        i += 1;
    }
}

/// The diagnostic for a dependent that requires obsolete package `p`: full
/// where `p`'s representative version is obsolete, partial otherwise.
pub open spec fn obsolete_report(full: bool, p: Package, class: DependencyTypes, by: Option<Fmri>, comp: Option<String>) -> Problem {
    if full {
        Problem::ObsoletedRequired(DependTypes::Require(p.fmri), class, by, comp)
    } else {
        Problem::PartlyObsoletedRequired(DependTypes::Require(p.fmri), class, by, comp)
    }
}

/// As `obsolete_report`, for a renamed package requiring `p` at runtime.
pub open spec fn obsolete_by_renamed_report(full: bool, p: Package, by: Fmri) -> Problem {
    if full {
        Problem::ObsoletedRequiredByRenamed(DependTypes::Require(p.fmri), DependencyTypes::Runtime, by)
    } else {
        Problem::PartlyObsoletedRequiredByRenamed(DependTypes::Require(p.fmri), DependencyTypes::Runtime, by)
    }
}

/// For obsolete package `p`: a diagnostic for each of the first `n`
/// components of `deps`, which need it at the given class.
pub open spec fn obsolete_class_reports(cs: Seq<Component>, p: Package, full: bool, class: DependencyTypes, deps: Seq<usize>, n: nat) -> Seq<Problem>
    decreases n,
{
    if n == 0 {
        Seq::empty()
    } else {
        obsolete_class_reports(cs, p, full, class, deps, (n - 1) as nat).push(
            obsolete_report(full, p, class, None, Some(cs[deps[n - 1] as int].name)))
    }
}

/// For obsolete package `p`: a diagnostic for each of its first `n` runtime
/// dependents that is more than a version pin.
pub open spec fn obsolete_runtime_reports(ps: Seq<Package>, p: Package, full: bool, n: nat) -> Seq<Problem>
    decreases n,
{
    if n == 0 {
        Seq::empty()
    } else {
        let rest = obsolete_runtime_reports(ps, p, full, (n - 1) as nat);
        let e = p.runtime_dependents@[n - 1];
        let src = ps[e.source_spec() as int];
        if e.is_incorporate_spec() {
            rest
        } else if src.renamed {
            rest.push(obsolete_by_renamed_report(full, p, src.fmri))
        } else {
            rest.push(obsolete_report(full, p, DependencyTypes::Runtime, Some(src.fmri), None))
        }
    }
}

/// The diagnostics for whatever still requires package `p`, where `p` is
/// obsolete.
pub open spec fn obsolete_reports_of(ps: Seq<Package>, cs: Seq<Component>, p: Package) -> Seq<Problem> {
    if !p.obsolete {
        Seq::empty()
    } else {
        let full = p.versions@[0].obsolete;
        obsolete_class_reports(cs, p, full, DependencyTypes::Build, p.build_dependents@, p.build_dependents@.len())
            + obsolete_class_reports(cs, p, full, DependencyTypes::SystemBuild, p.sys_build_dependents@, p.sys_build_dependents@.len())
            + obsolete_class_reports(cs, p, full, DependencyTypes::Test, p.test_dependents@, p.test_dependents@.len())
            + obsolete_class_reports(cs, p, full, DependencyTypes::SystemTest, p.sys_test_dependents@, p.sys_test_dependents@.len())
            + obsolete_runtime_reports(ps, p, full, p.runtime_dependents@.len())
    }
}

/// The obsolescence diagnostics of the first `n` packages.
pub open spec fn obsolete_reports(ps: Seq<Package>, cs: Seq<Component>, n: nat) -> Seq<Problem>
    decreases n,
{
    if n == 0 {
        Seq::empty()
    } else {
        obsolete_reports(ps, cs, (n - 1) as nat) + obsolete_reports_of(ps, cs, ps[n - 1])
    }
}

fn make_obsolete_report(full: bool, p: &Package, class: DependencyTypes, by: Option<Fmri>, comp: Option<String>) -> (r: Problem)
    ensures
        r == obsolete_report(full, *p, class, by, comp),
{
    if full {
        Problem::ObsoletedRequired(DependTypes::Require(p.fmri.copy()), class, by, comp)
    } else {
        Problem::PartlyObsoletedRequired(DependTypes::Require(p.fmri.copy()), class, by, comp)
    }
}

fn report_obsolete_class(cs: &Vec<Component>, p: &Package, full: bool, class: DependencyTypes, deps: &Vec<usize>, out: &mut Problems)
    requires
        forall|k: int| 0 <= k < deps@.len() ==> #[trigger] deps@[k] < cs@.len(),
    ensures
        final(out)@ == old(out)@ + obsolete_class_reports(cs@, *p, full, class, deps@, deps@.len()),
{
    let mut k: usize = 0;
    while k < deps.len()
        invariant
            forall|j: int| 0 <= j < deps@.len() ==> #[trigger] deps@[j] < cs@.len(),
            k <= deps@.len(),
            out@ == old(out)@ + obsolete_class_reports(cs@, *p, full, class, deps@, k as nat),
        decreases deps@.len() - k,
    {
        let name = copy_string(&cs[deps[k]].name);
        out.add_problem(make_obsolete_report(full, p, class, None, Some(name)));
        proof {
            assert(out@ =~= old(out)@ + obsolete_class_reports(cs@, *p, full, class, deps@, (k + 1) as nat));
        }
        k += 1;
    }
}

fn report_obsolete_of(ps: &Vec<Package>, cs: &Vec<Component>, i: usize, out: &mut Problems)
    requires
        i < ps@.len(),
        ps@[i as int].versions@.len() >= 1,
        Components::package_links_ok(ps@[i as int], ps@.len() as int, cs@.len() as int),
    ensures
        final(out)@ == old(out)@ + obsolete_reports_of(ps@, cs@, ps@[i as int]),
{
    let p = &ps[i];
    if !p.obsolete {
        proof {
            assert(old(out)@ + obsolete_reports_of(ps@, cs@, ps@[i as int]) =~= old(out)@);
        }
        return;
    }
    let full = p.versions[0].obsolete;
    report_obsolete_class(cs, p, full, DependencyTypes::Build, &p.build_dependents, out);
    report_obsolete_class(cs, p, full, DependencyTypes::SystemBuild, &p.sys_build_dependents, out);
    report_obsolete_class(cs, p, full, DependencyTypes::Test, &p.test_dependents, out);
    report_obsolete_class(cs, p, full, DependencyTypes::SystemTest, &p.sys_test_dependents, out);
    let ghost mid = out@;
    let mut k: usize = 0;
    while k < p.runtime_dependents.len()
        invariant
            p == ps@[i as int],
            Components::package_links_ok(*p, ps@.len() as int, cs@.len() as int),
            k <= p.runtime_dependents@.len(),
            out@ == mid + obsolete_runtime_reports(ps@, *p, full, k as nat),
        decreases p.runtime_dependents@.len() - k,
    {
        let e = p.runtime_dependents[k];
        if !e.is_incorporate() {
            let src = &ps[e.source()];
            if src.renamed {
                if full {
                    out.add_problem(Problem::ObsoletedRequiredByRenamed(DependTypes::Require(p.fmri.copy()), DependencyTypes::Runtime, src.fmri.copy()));
                } else {
                    out.add_problem(Problem::PartlyObsoletedRequiredByRenamed(DependTypes::Require(p.fmri.copy()), DependencyTypes::Runtime, src.fmri.copy()));
                }
            } else {
                out.add_problem(make_obsolete_report(full, p, DependencyTypes::Runtime, Some(src.fmri.copy()), None));
            }
        }
        proof {
            assert(out@ =~= mid + obsolete_runtime_reports(ps@, *p, full, (k + 1) as nat));
        }
        k += 1;
    }
    proof {
        assert(out@ =~= old(out)@ + obsolete_reports_of(ps@, cs@, ps@[i as int]));
    }
}

/// Reports whatever still requires an obsolete package, fully or partly
/// obsolete as its representative version is obsolete or not.
pub fn check_obsolete(ps: &Vec<Package>, cs: &Vec<Component>, out: &mut Problems)
    requires
        registry_ok(ps@, cs@),
    ensures
        final(out)@ == old(out)@ + obsolete_reports(ps@, cs@, ps@.len()),
{
    let mut i: usize = 0;
    while i < ps.len()
        invariant
            registry_ok(ps@, cs@),
            i <= ps@.len(),
            out@ == old(out)@ + obsolete_reports(ps@, cs@, i as nat),
        decreases ps@.len() - i,
    {
        proof {
            assert(Components::package_links_ok(ps@[i as int], ps@.len() as int, cs@.len() as int));
            assert(ps@[i as int].versions@.len() >= 1);
        }
        report_obsolete_of(ps, cs, i, out);
        proof {
            assert(out@ =~= old(out)@ + obsolete_reports(ps@, cs@, (i + 1) as nat));
        }
        i += 1;
    }
}

impl Components {
    /// Every diagnostic that the finished graph gives, pass by pass.
    pub open spec fn all_reports(&self) -> Seq<Problem> {
        let ps = self.packages@;
        let cs = self.components@;
        membership_reports(ps, cs, cs.len())
            + orphan_reports(ps, ps.len())
            + useless_reports(ps, cs, cs.len())
            + renamed_reports(ps, cs, ps.len())
            + obsolete_reports(ps, cs, ps.len())
    }

    /// Runs every check over the finished graph and appends what they find.
    pub fn check_problems(&mut self) -> (r: Result<(), String>)
        requires
            old(self).wf(),
        ensures
            r is Ok,
            final(self).packages == old(self).packages,
            final(self).components == old(self).components,
            final(self).problems@ == old(self).problems@ + old(self).all_reports(),
    {
        check_membership(&self.packages, &self.components, &mut self.problems);
        check_orphans(&self.packages, &mut self.problems);
        check_useless(&self.packages, &self.components, &mut self.problems);
        check_renamed(&self.packages, &self.components, &mut self.problems);
        check_obsolete(&self.packages, &self.components, &mut self.problems);
        proof {
            assert(self.problems@ =~= old(self).problems@ + old(self).all_reports());
        }
        Ok(())
    }
}

} // verus!
