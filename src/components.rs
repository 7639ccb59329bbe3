use vstd::prelude::*;
use crate::component::Component;
use crate::depend::{DependTypes, DependencyTypes, RevDependType};
use crate::identity::{compare_versions, copy_opt_string, copy_string, strings_equal, version_cmp, Fmri};
use crate::package::{Package, PackageVersion};
use crate::problems::{Problem, Problems};

verus! {

/// The repository: every package and every component, and the diagnostics
/// found about them. All links between packages and components are indices
/// into the two lists, which never shrink.
#[derive(Debug)]
pub struct Components {
    pub components: Vec<Component>,
    pub packages: Vec<Package>,
    pub problems: Problems,
}

/// What becomes of a package that arrives under a name already held.
#[derive(Debug, Clone, Copy, PartialEq, Eq, Structural)]
pub enum MergeOutcome {
    /// the stored package stays, silently
    Keep,
    /// the incoming package takes the stored one's place
    Replace,
    /// the stored package stays and a conflict is reported; where both are
    /// live, whether the stored side is the likely culprit: it is where its
    /// lowest version is later than or equal to the incoming one
    Conflict(Option<bool>),
}

/// The merge policy, from whether the stored and the incoming lowest versions
/// are obsolete and from how the stored one compares to the incoming one.
pub open spec fn merge_policy(old_obsolete: bool, new_obsolete: bool, cmp: int) -> MergeOutcome {
    if old_obsolete && !new_obsolete {
        if cmp <= 0 { MergeOutcome::Replace } else { MergeOutcome::Conflict(None) }
    } else if !old_obsolete && new_obsolete {
        if cmp <= 0 { MergeOutcome::Conflict(None) } else { MergeOutcome::Keep }
    } else if !old_obsolete && !new_obsolete {
        MergeOutcome::Conflict(Some(cmp >= 0))
    } else {
        MergeOutcome::Keep
    }
}

/// The merge policy does not depend on the order of arrival where both
/// lineages are obsolete (the stored one stays, silently, either way) or
/// where an obsolete lineage meets a strictly newer live one (the live one
/// ends up stored, silently, either way); two live lineages always conflict,
/// in either order.
pub proof fn lemma_merge_order(a_obsolete: bool, b_obsolete: bool, a_to_b: int, b_to_a: int)
    ensures
        a_obsolete && b_obsolete ==> merge_policy(a_obsolete, b_obsolete, a_to_b) == MergeOutcome::Keep
            && merge_policy(b_obsolete, a_obsolete, b_to_a) == MergeOutcome::Keep,
        a_obsolete && !b_obsolete && a_to_b < 0 && b_to_a == -a_to_b ==> merge_policy(a_obsolete, b_obsolete, a_to_b) == MergeOutcome::Replace
            && merge_policy(b_obsolete, a_obsolete, b_to_a) == MergeOutcome::Keep,
        !a_obsolete && !b_obsolete ==> merge_policy(a_obsolete, b_obsolete, a_to_b) is Conflict
            && merge_policy(b_obsolete, a_obsolete, b_to_a) is Conflict,
{
}

/// Two packages of one name, added in either order to a registry that holds
/// no package of that name: where both lowest versions are obsolete, nothing
/// is reported and the stored package's lowest version is obsolete; where an
/// obsolete lowest version is strictly older than a live one, the live
/// package ends up stored and nothing is reported; where both are live, a conflict is reported in either order.
pub proof fn lemma_merge_commutes(r0: Components, a: Package, b: Package, r1: Components, r2: Components, s1: Components, s2: Components)
    requires
        r0.wf(),
        a.fmri.name@ == b.fmri.name@,
        a.versions@.len() >= 1,
        b.versions@.len() >= 1,
        !r0.has_package(a.fmri.name@),
        r0.package_added(a, r1),
        r1.package_added(b, r2),
        r0.package_added(b, s1),
        s1.package_added(a, s2),
    ensures
        ({
            let va = lowest_version(a.versions@);
            let vb = lowest_version(b.versions@);
            let n = r0.packages@.len() as int;
            &&& va.obsolete && vb.obsolete ==> r2.problems == r0.problems && s2.problems == r0.problems
                && lowest_version(r2.packages@[n].versions@).obsolete && lowest_version(s2.packages@[n].versions@).obsolete
            &&& va.obsolete && !vb.obsolete && version_cmp(va.version@, vb.version@) < 0
                ==> r2.packages@ == r0.packages@.push(b) && s2.packages@ == r0.packages@.push(b)
                && r2.problems == r0.problems && s2.problems == r0.problems
            &&& !va.obsolete && !vb.obsolete ==> r2.problems@.len() == r0.problems@.len() + 1
                && s2.problems@.len() == r0.problems@.len() + 1
        }),
{
    let n = r0.packages@.len() as int;
    assert(r1.packages@[n] == a);
    assert(s1.packages@[n] == b);
    assert(r1.has_package(b.fmri.name@)) by {
        assert(r1.packages@[n].fmri.name@ == b.fmri.name@);
    }
    assert(s1.has_package(a.fmri.name@)) by {
        assert(s1.packages@[n].fmri.name@ == a.fmri.name@);
    }
    let i1 = r1.package_index(b.fmri.name@);
    let j1 = s1.package_index(a.fmri.name@);
    assert(i1 == n) by {
        assert(r1.packages@[i1].fmri.name@ == r1.packages@[n].fmri.name@);
    }
    assert(j1 == n) by {
        assert(s1.packages@[j1].fmri.name@ == s1.packages@[n].fmri.name@);
    }
    assert(r1.packages@.update(n, b) =~= r0.packages@.push(b));
}

/// The merge policy for concrete flags and a comparison result.
pub fn merge_decision(old_obsolete: bool, new_obsolete: bool, cmp: i8) -> (r: MergeOutcome)
    ensures
        r == merge_policy(old_obsolete, new_obsolete, cmp as int),
{
    match (old_obsolete, new_obsolete) {
        (true, false) => if cmp <= 0 { MergeOutcome::Replace } else { MergeOutcome::Conflict(None) },
        (false, true) => if cmp <= 0 { MergeOutcome::Conflict(None) } else { MergeOutcome::Keep },
        (false, false) => MergeOutcome::Conflict(Some(cmp >= 0)),
        (true, true) => MergeOutcome::Keep,
    }
}

/// Index of the lowest of the first `n` versions; among equal ones, the first.
pub open spec fn lowest_index(vs: Seq<PackageVersion>, n: nat) -> int
    decreases n,
{
    if n <= 1 {
        0
    } else {
        let j = lowest_index(vs, (n - 1) as nat);
        if version_cmp(vs[n - 1].version@, vs[j].version@) < 0 { n - 1 } else { j }
    }
}

/// Index of the highest of the first `n` versions; among equal ones, the first.
pub open spec fn highest_index(vs: Seq<PackageVersion>, n: nat) -> int
    decreases n,
{
    if n <= 1 {
        0
    } else {
        let j = highest_index(vs, (n - 1) as nat);
        if version_cmp(vs[n - 1].version@, vs[j].version@) > 0 { n - 1 } else { j }
    }
}

/// Index of the highest of the first `n` versions that are neither obsolete
/// nor renamed; among equal ones, the first. `None` where there is none.
pub open spec fn highest_live_index(vs: Seq<PackageVersion>, n: nat) -> Option<int>
    decreases n,
{
    if n == 0 {
        None
    } else {
        let rest = highest_live_index(vs, (n - 1) as nat);
        let v = vs[n - 1];
        if v.obsolete || v.renamed {
            rest
        } else {
            match rest {
                None => Some(n - 1),
                Some(j) => if version_cmp(v.version@, vs[j].version@) > 0 { Some(n - 1) } else { Some(j) },
            }
        }
    }
}

/// The version that pruning keeps: the highest live one, else the highest.
pub open spec fn kept_version(vs: Seq<PackageVersion>) -> PackageVersion {
    match highest_live_index(vs, vs.len()) {
        Some(j) => vs[j],
        None => vs[highest_index(vs, vs.len())],
    }
}

/// Finds the index of the version that pruning keeps.
fn find_kept(vs: &Vec<PackageVersion>) -> (r: usize)
    requires
        vs@.len() >= 1,
    ensures
        r < vs@.len(),
        vs@[r as int] == kept_version(vs@),
{
    let mut best: usize = 0;
    let mut live: Option<usize> = None;
    let mut i: usize = 0;
    while i < vs.len()
        invariant
            i <= vs@.len(),
            vs@.len() >= 1,
            i >= 1 ==> best as int == highest_index(vs@, i as nat) && best < i,
            i == 0 ==> best == 0,
            match live {
                None => highest_live_index(vs@, i as nat) is None,
                Some(j) => highest_live_index(vs@, i as nat) == Some(j as int) && j < i,
            },
        decreases vs@.len() - i,
    {
        if i > 0 && compare_versions(&vs[i].version, &vs[best].version) > 0 {
            best = i;
        }
        if !vs[i].obsolete && !vs[i].renamed {
            match live {
                None => {
                    live = Some(i);
                },
                Some(j) => {
                    if compare_versions(&vs[i].version, &vs[j].version) > 0 {
                        live = Some(i);
                    }
                },
            }
        }
        i += 1;
    }
    match live {
        Some(j) => j,
        None => best,
    }
}

/// The lowest version of a package.
pub open spec fn lowest_version(vs: Seq<PackageVersion>) -> PackageVersion {
    vs[lowest_index(vs, vs.len())]
}

/// Finds the index of the lowest version.
fn find_lowest(vs: &Vec<PackageVersion>) -> (r: usize)
    requires
        vs@.len() >= 1,
    ensures
        r as int == lowest_index(vs@, vs@.len()),
        r < vs@.len(),
{
    let mut best: usize = 0;
    let mut i: usize = 1;
    while i < vs.len()
        invariant
            1 <= i <= vs@.len(),
            best as int == lowest_index(vs@, i as nat),
            best < i,
        decreases vs@.len() - i,
    {
        if compare_versions(&vs[i].version, &vs[best].version) < 0 {
            best = i;
        }
        i += 1;
    }
    best
}

/// Whether some package in `ps` has the given name.
pub open spec fn has_name(ps: Seq<Package>, name: Seq<char>) -> bool {
    exists|i: int| 0 <= i < ps.len() && (#[trigger] ps[i]).fmri.name@ == name
}

/// The index of a package in `ps` with the given name, where there is one.
pub open spec fn index_of_name(ps: Seq<Package>, name: Seq<char>) -> int {
    choose|i: int| 0 <= i < ps.len() && (#[trigger] ps[i]).fmri.name@ == name
}

/// The state that `new_component` builds: the new component's members, the
/// packages and the diagnostics, after its first `fmris.len()` members.
pub open spec fn joined(
    start: (Seq<usize>, Seq<Package>, Seq<Problem>),
    comps: Seq<Component>,
    name: String,
    fmris: Seq<Fmri>,
) -> (Seq<usize>, Seq<Package>, Seq<Problem>)
    decreases fmris.len(),
{
    if fmris.len() == 0 {
        start
    } else {
        let (m, ps, pr) = joined(start, comps, name, fmris.drop_last());
        let f = fmris.last();
        if has_name(ps, f.name@) {
            let i = index_of_name(ps, f.name@);
            match ps[i].component {
                None => (m.push(i as usize), ps.update(i, Package { component: Some(comps.len() as usize), ..ps[i] }), pr),
                Some(c) => (m.push(i as usize), ps, pr.push(Problem::PackageInMultipleComponents(
                    ps[i].fmri,
                    if c < comps.len() { comps[c as int].name } else { name },
                    name,
                ))),
            }
        } else {
            (m, ps, pr.push(Problem::NonExistingPackageInPkg5(f, name)))
        }
    }
}

/// Going on with more members keeps every package's identity, never changes
/// a component binding already made, and only appends diagnostics.
proof fn lemma_joined_frame(
    start: (Seq<usize>, Seq<Package>, Seq<Problem>),
    comps: Seq<Component>,
    name: String,
    fmris: Seq<Fmri>,
    n: nat,
    m: nat,
)
    requires
        n <= m <= fmris.len(),
    ensures
        ({
            let a = joined(start, comps, name, fmris.take(n as int));
            let b = joined(start, comps, name, fmris.take(m as int));
            &&& b.1.len() == a.1.len()
            &&& forall|x: int| 0 <= x < a.1.len() ==> (#[trigger] b.1[x]).fmri == a.1[x].fmri
            &&& forall|x: int| 0 <= x < a.1.len() && (#[trigger] a.1[x]).component is Some ==> b.1[x].component == a.1[x].component
            &&& a.2.len() <= b.2.len()
            &&& b.2.take(a.2.len() as int) == a.2
        }),
    decreases m - n,
{
    let a = joined(start, comps, name, fmris.take(n as int));
    if m == n {
        assert(a.2.take(a.2.len() as int) =~= a.2);
    } else {
        lemma_joined_frame(start, comps, name, fmris, n, (m - 1) as nat);
        let p = joined(start, comps, name, fmris.take(m - 1));
        assert(fmris.take(m as int).drop_last() =~= fmris.take(m - 1));
        let b = joined(start, comps, name, fmris.take(m as int));
        assert(b.1.len() == p.1.len());
        assert(b.2.take(p.2.len() as int) =~= p.2);
        assert(b.2.take(a.2.len() as int) =~= a.2) by {
            assert(p.2.take(a.2.len() as int) =~= a.2);
        }
    }
}

/// A package already bound to a component when `new_component` reaches it
/// keeps that binding to the end, and the diagnostic naming both components
/// is among those reported.
pub proof fn lemma_component_binding_kept(
    start: (Seq<usize>, Seq<Package>, Seq<Problem>),
    comps: Seq<Component>,
    name: String,
    fmris: Seq<Fmri>,
    k: int,
)
    requires
        0 <= k < fmris.len(),
        ({
            let st = joined(start, comps, name, fmris.take(k));
            has_name(st.1, fmris[k].name@) && st.1[index_of_name(st.1, fmris[k].name@)].component is Some
        }),
    ensures
        ({
            let st = joined(start, comps, name, fmris.take(k));
            let fin = joined(start, comps, name, fmris);
            let i = index_of_name(st.1, fmris[k].name@);
            let c0 = st.1[i].component.unwrap();
            &&& fin.1[i].component == Some(c0)
            &&& fin.2.contains(Problem::PackageInMultipleComponents(
                st.1[i].fmri,
                if c0 < comps.len() { comps[c0 as int].name } else { name },
                name,
            ))
        }),
{
    let st = joined(start, comps, name, fmris.take(k));
    let i = index_of_name(st.1, fmris[k].name@);
    let c0 = st.1[i].component.unwrap();
    let pr = Problem::PackageInMultipleComponents(st.1[i].fmri, if c0 < comps.len() { comps[c0 as int].name } else { name }, name);
    assert(fmris.take(k + 1).drop_last() =~= fmris.take(k));
    assert(fmris.take(k + 1).last() == fmris[k]);
    let nx = joined(start, comps, name, fmris.take(k + 1));
    assert(nx.1 == st.1);
    assert(nx.2 == st.2.push(pr));
    lemma_joined_frame(start, comps, name, fmris, (k + 1) as nat, fmris.len());
    assert(fmris.take(fmris.len() as int) =~= fmris);
    let fin = joined(start, comps, name, fmris);
    assert(fin.2.take(nx.2.len() as int) == nx.2);
    assert(fin.2[st.2.len() as int] == nx.2[st.2.len() as int]);
    assert(fin.2[st.2.len() as int] == pr);
}

/// The indices of the packages that the given identities name, in order;
/// identities that name no package are left out.
pub open spec fn resolved(ps: Seq<Package>, fmris: Seq<Fmri>) -> Seq<usize>
    decreases fmris.len(),
{
    if fmris.len() == 0 {
        Seq::empty()
    } else {
        let rest = resolved(ps, fmris.drop_last());
        if has_name(ps, fmris.last().name@) {
            rest.push(index_of_name(ps, fmris.last().name@) as usize)
        } else {
            rest
        }
    }
}

/// A diagnostic for each identity that names no package: a component's
/// dependency on a package that does not exist.
pub open spec fn missing_required(ps: Seq<Package>, fmris: Seq<Fmri>, class: DependencyTypes, name: String) -> Seq<Problem>
    decreases fmris.len(),
{
    if fmris.len() == 0 {
        Seq::empty()
    } else {
        let rest = missing_required(ps, fmris.drop_last(), class, name);
        if has_name(ps, fmris.last().name@) {
            rest
        } else {
            rest.push(Problem::NonExistingRequired(DependTypes::Require(fmris.last()), class, None, Some(name)))
        }
    }
}

/// How many times `x` occurs in `s`.
pub open spec fn count_of(s: Seq<usize>, x: usize) -> nat
    decreases s.len(),
{
    if s.len() == 0 {
        0
    } else {
        count_of(s.drop_last(), x) + if s.last() == x { 1nat } else { 0nat }
    }
}

/// The conflict reported when a package arrives under a name already held.
pub open spec fn conflict_report(incoming: Fmri, old_publisher: Option<String>, new_publisher: Option<String>, culprit: Option<bool>) -> Problem {
    Problem::SamePackageHasTwoPublishers(incoming, old_publisher, new_publisher, match culprit {
        None => None,
        Some(true) => Some(old_publisher),
        Some(false) => Some(new_publisher),
    })
}

/// No two packages share a name.
pub open spec fn names_unique(ps: Seq<Package>) -> bool {
    forall|i: int, j: int| 0 <= i < ps.len() && 0 <= j < ps.len() && i != j
        ==> (#[trigger] ps[i]).fmri.name@ != (#[trigger] ps[j]).fmri.name@
}

/// Finds the package of the given name.
pub fn find_by_name(ps: &Vec<Package>, name: &String) -> (r: Option<usize>)
    requires
        names_unique(ps@),
    ensures
        has_name(ps@, name@) <==> r.is_some(),
        r matches Some(i) ==> i < ps@.len() && ps@[i as int].fmri.name@ == name@ && i == index_of_name(ps@, name@),
{
    let mut i: usize = 0;
    while i < ps.len()
        invariant
            names_unique(ps@),
            i <= ps@.len(),
            forall|j: int| 0 <= j < i ==> (#[trigger] ps@[j]).fmri.name@ != name@,
        decreases ps@.len() - i,
    {
        if strings_equal(&ps[i].fmri.name, name) {
            proof {
                assert(has_name(ps@, name@));
                let k = index_of_name(ps@, name@);
                assert(ps@[k].fmri.name@ == name@);
                assert(k == i as int);
            }
            return Some(i);
        }
        i += 1;
    }
    None
}

/// Every link is an index that resolves, every package holds a version,
/// and no two packages share a name.
pub open spec fn registry_ok(ps: Seq<Package>, cs: Seq<Component>) -> bool {
    let np = ps.len() as int;
    let nc = cs.len() as int;
    &&& forall|i: int| 0 <= i < np ==> (#[trigger] ps[i]).versions@.len() >= 1
    &&& names_unique(ps)
    &&& forall|i: int| 0 <= i < np ==> Components::package_links_ok(#[trigger] ps[i], np, nc)
    &&& forall|c: int| 0 <= c < nc ==> Components::component_links_ok(#[trigger] cs[c], np)
}

impl Components {
    /// Every link is an index that resolves, every package holds a version,
    /// and no two packages share a name.
    pub open spec fn wf(&self) -> bool {
        registry_ok(self.packages@, self.components@)
    }

    pub open spec fn package_links_ok(p: Package, np: int, nc: int) -> bool {
        &&& (p.component matches Some(c) ==> c < nc)
        &&& forall|k: int| 0 <= k < p.runtime_dependents@.len() ==> (#[trigger] p.runtime_dependents@[k]).source_spec() < np
        &&& forall|k: int| 0 <= k < p.build_dependents@.len() ==> #[trigger] p.build_dependents@[k] < nc
        &&& forall|k: int| 0 <= k < p.test_dependents@.len() ==> #[trigger] p.test_dependents@[k] < nc
        &&& forall|k: int| 0 <= k < p.sys_build_dependents@.len() ==> #[trigger] p.sys_build_dependents@[k] < nc
        &&& forall|k: int| 0 <= k < p.sys_test_dependents@.len() ==> #[trigger] p.sys_test_dependents@[k] < nc
    }

    pub open spec fn component_links_ok(c: Component, np: int) -> bool {
        &&& forall|k: int| 0 <= k < c.packages@.len() ==> #[trigger] c.packages@[k] < np
        &&& forall|k: int| 0 <= k < c.build@.len() ==> #[trigger] c.build@[k] < np
        &&& forall|k: int| 0 <= k < c.test@.len() ==> #[trigger] c.test@[k] < np
        &&& forall|k: int| 0 <= k < c.sys_build@.len() ==> #[trigger] c.sys_build@[k] < np
        &&& forall|k: int| 0 <= k < c.sys_test@.len() ==> #[trigger] c.sys_test@[k] < np
    }

    /// Whether some package has the given name.
    pub open spec fn has_package(&self, name: Seq<char>) -> bool {
        has_name(self.packages@, name)
    }

    /// The index of the package with the given name, where there is one.
    pub open spec fn package_index(&self, name: Seq<char>) -> int {
        index_of_name(self.packages@, name)
    }

    /// An empty registry.
    pub fn new() -> (r: Components)
        ensures
            r.wf(),
            r.components@.len() == 0,
            r.packages@.len() == 0,
            r.problems@.len() == 0,
    {
        Components { components: Vec::new(), packages: Vec::new(), problems: Problems::new() }
    }

    /// Finds the package with the name of `fmri`, whatever its version.
    pub fn find_package(&self, fmri: &Fmri) -> (r: Option<usize>)
        requires
            self.wf(),
        ensures
            self.has_package(fmri.name@) <==> r.is_some(),
            r matches Some(i) ==> i < self.packages@.len() && self.packages@[i as int].fmri.name@ == fmri.name@
                && i == self.package_index(fmri.name@),
    {
        find_by_name(&self.packages, &fmri.name)
    }

    /// The merge outcome of adding `package` to this registry, where a package
    /// of that name is already held.
    pub open spec fn merge_outcome_for(&self, package: Package) -> MergeOutcome {
        let o = lowest_version(self.packages@[self.package_index(package.fmri.name@)].versions@);
        let n = lowest_version(package.versions@);
        merge_policy(o.obsolete, n.obsolete, version_cmp(o.version@, n.version@))
    }

    /// `after` is this registry with `package` added (see `add_package`).
    pub open spec fn package_added(&self, package: Package, after: Components) -> bool {
        &&& after.wf()
        &&& after.components == self.components
        &&& !self.has_package(package.fmri.name@) ==> after.packages@ == self.packages@.push(package)
            && after.problems == self.problems
        &&& self.has_package(package.fmri.name@) ==> ({
            let o = lowest_version(self.packages@[self.package_index(package.fmri.name@)].versions@);
            let n = lowest_version(package.versions@);
            version_cmp(n.version@, o.version@) == -version_cmp(o.version@, n.version@)
        })
        &&& self.has_package(package.fmri.name@) ==> ({
            let i = self.package_index(package.fmri.name@);
            match self.merge_outcome_for(package) {
                MergeOutcome::Keep => after.packages == self.packages && after.problems == self.problems,
                MergeOutcome::Replace => after.packages@ == self.packages@.update(i, package) && after.problems == self.problems,
                MergeOutcome::Conflict(c) => after.packages == self.packages
                    && after.problems@ == self.problems@.push(conflict_report(
                        package.fmri, self.packages@[i].fmri.publisher, package.fmri.publisher, c)),
            }
        })
    }

    /// Adds a freshly read package. A new name is stored as it is. Under a
    /// name already held, the lowest stored version and the lowest incoming
    /// one decide (see `merge_policy`): the incoming package replaces the
    /// stored one, is ignored, or is ignored with a conflict reported.
    pub fn add_package(&mut self, package: Package)
        requires
            old(self).wf(),
            package.is_fresh(),
            package.versions@.len() >= 1,
        ensures
            old(self).package_added(package, *final(self)),
    {
        let found = self.find_package(&package.fmri);
        match found {
            None => {
                self.packages.push(package);
                proof {
                    let np = self.packages@.len() as int;
                    let nc = self.components@.len() as int;
                    assert forall|c: int| 0 <= c < nc implies Self::component_links_ok(#[trigger] self.components@[c], np) by {
                        assert(Self::component_links_ok(old(self).components@[c], np - 1));
                    }
                    assert forall|i: int| 0 <= i < np implies Self::package_links_ok(#[trigger] self.packages@[i], np, nc) by {
                        if i < np - 1 {
                            assert(Self::package_links_ok(old(self).packages@[i], np - 1, nc));
                        }
                    }
                }
            },
            Some(i) => {
                let o = find_lowest(&self.packages[i].versions);
                let n = find_lowest(&package.versions);
                let cmp = compare_versions(&self.packages[i].versions[o].version, &package.versions[n].version);
                let outcome = merge_decision(self.packages[i].versions[o].obsolete, package.versions[n].obsolete, cmp);
                match outcome {
                    MergeOutcome::Keep => {},
                    MergeOutcome::Replace => {
                        self.packages.set(i, package);
                        proof {
                            let np = self.packages@.len() as int;
                            let nc = self.components@.len() as int;
                            assert forall|k: int| 0 <= k < np implies Self::package_links_ok(#[trigger] self.packages@[k], np, nc) by {
                                if k != i {
                                    assert(Self::package_links_ok(old(self).packages@[k], np, nc));
                                }
                            }
                            assert forall|a: int, b: int| 0 <= a < np && 0 <= b < np && a != b
                                implies (#[trigger] self.packages@[a]).fmri.name@ != (#[trigger] self.packages@[b]).fmri.name@ by {
                                if a != i && b != i {
                                    assert(old(self).packages@[a].fmri.name@ != old(self).packages@[b].fmri.name@);
                                } else if a == i {
                                    assert(old(self).packages@[i as int].fmri.name@ != old(self).packages@[b].fmri.name@);
                                } else {
                                    assert(old(self).packages@[i as int].fmri.name@ != old(self).packages@[a].fmri.name@);
                                }
                            }
                        }
                    },
                    MergeOutcome::Conflict(c) => {
                        let old_publisher = copy_opt_string(&self.packages[i].fmri.publisher);
                        let new_publisher = copy_opt_string(&package.fmri.publisher);
                        let culprit = match c {
                            None => None,
                            Some(true) => Some(copy_opt_string(&old_publisher)),
                            Some(false) => Some(copy_opt_string(&new_publisher)),
                        };
                        self.problems.add_problem(Problem::SamePackageHasTwoPublishers(
                            package.fmri, old_publisher, new_publisher, culprit));
                    },
                }
            },
        }
    }

    /// Creates a component of the given members. Each member that the registry
    /// holds joins it, and is bound to it unless bound already (then a
    /// diagnostic names both components); each that it does not hold is
    /// reported.
    pub fn new_component(&mut self, component_name: String, packages: Vec<Fmri>) -> (r: Result<(), String>)
        requires
            old(self).wf(),
            old(self).components@.len() < usize::MAX,
        ensures
            r is Ok,
            final(self).wf(),
            ({
                let (m, ps, pr) = joined((Seq::empty(), old(self).packages@, old(self).problems@),
                    old(self).components@, component_name, packages@);
                &&& final(self).packages@ == ps
                &&& final(self).problems@ == pr
                &&& final(self).components@.len() == old(self).components@.len() + 1
                &&& final(self).components@.drop_last() == old(self).components@
                &&& final(self).components@.last().name == component_name
                &&& final(self).components@.last().packages@ == m
                &&& final(self).components@.last().build@.len() == 0
                &&& final(self).components@.last().test@.len() == 0
                &&& final(self).components@.last().sys_build@.len() == 0
                &&& final(self).components@.last().sys_test@.len() == 0
            }),
    {
        let cidx = self.components.len();
        let mut component = Component::new(copy_string(&component_name));
        let mut k: usize = 0;
        proof {
            assert forall|i: int| 0 <= i < self.packages@.len() implies Self::package_links_ok(#[trigger] self.packages@[i],
                self.packages@.len() as int, cidx + 1) by {
                assert(Self::package_links_ok(old(self).packages@[i], self.packages@.len() as int, cidx as int));
            }
            assert(packages@.take(0) == Seq::<Fmri>::empty());
        }
        while k < packages.len()
            invariant
                k <= packages@.len(),
                cidx == old(self).components@.len(),
                self.components == old(self).components,
                self.packages@.len() == old(self).packages@.len(),
                component.name == component_name,
                component.build@.len() == 0,
                component.test@.len() == 0,
                component.sys_build@.len() == 0,
                component.sys_test@.len() == 0,
                forall|i: int| 0 <= i < self.packages@.len() ==> (#[trigger] self.packages@[i]).versions@.len() >= 1,
                names_unique(self.packages@),
                forall|i: int| 0 <= i < self.packages@.len() ==> Self::package_links_ok(#[trigger] self.packages@[i],
                    self.packages@.len() as int, cidx + 1),
                forall|c: int| 0 <= c < cidx ==> Self::component_links_ok(#[trigger] self.components@[c], self.packages@.len() as int),
                Self::component_links_ok(component, self.packages@.len() as int),
                ({
                    let (m, ps, pr) = joined((Seq::empty(), old(self).packages@, old(self).problems@),
                        old(self).components@, component_name, packages@.take(k as int));
                    &&& self.packages@ == ps
                    &&& self.problems@ == pr
                    &&& component.packages@ == m
                }),
            decreases packages@.len() - k,
        {
            proof {
                assert(packages@.take(k as int + 1).drop_last() == packages@.take(k as int));
            }
            let f = &packages[k];
            match find_by_name(&self.packages, &f.name) {
                Some(i) => {
                    component.add_package(i);
                    match self.packages[i].component {
                        None => {
                            self.packages[i].component = Some(cidx);
                        },
                        Some(c) => {
                            let existing = if c == cidx { copy_string(&component_name) } else { copy_string(&self.components[c].name) };
                            let p = Problem::PackageInMultipleComponents(self.packages[i].fmri.copy(), existing, copy_string(&component_name));
                            self.problems.add_problem(p);
                        },
                    }
                },
                None => {
                    self.problems.add_problem(Problem::NonExistingPackageInPkg5(f.copy(), copy_string(&component_name)));
                },
            }
            k += 1;
        }
        self.components.push(component);
        proof {
            assert(packages@.take(packages@.len() as int) == packages@);
            assert(self.components@.drop_last() == old(self).components@);
        }
        Ok(())
    }

    /// Adds a component's dependencies of one non-runtime class. Each
    /// dependency that names a package links the component and the package
    /// both ways; each that names none is reported. A runtime class, or a
    /// component name that the registry does not hold, is refused and changes
    /// nothing.
    pub fn add_repo_dependencies(&mut self, component_name: &String, dependencies: Vec<Fmri>, dependency_type: DependencyTypes) -> (r: Result<(), String>)
        requires
            old(self).wf(),
        ensures
            final(self).wf(),
            r is Err <==> dependency_type == DependencyTypes::Runtime
                || forall|c: int| 0 <= c < old(self).components@.len() ==> (#[trigger] old(self).components@[c]).name@ != component_name@,
            r is Err ==> *final(self) == *old(self),
            r is Ok ==> exists|c: int| 0 <= c < old(self).components@.len()
                && (#[trigger] old(self).components@[c]).name@ == component_name@
                && old(self).repo_dependencies_added(*final(self), c, dependencies@, dependency_type),
    {
        if dependency_type == DependencyTypes::Runtime {
            return Err("can not insert runtime dependencies into component".to_owned());
        }
        let c = match self.find_component(component_name) {
            Some(c) => c,
            None => return Err("component does not exist".to_owned()),
        };
        let ghost nc = self.components@.len() as int;
        let np_exec = self.packages.len();
        let ghost np = np_exec as int;
        let mut k: usize = 0;
        proof {
            assert(dependencies@.take(0) == Seq::<Fmri>::empty());
            assert forall|i: int| 0 <= i < np implies #[trigger] self.packages@[i].dependents_of(dependency_type)
                == old(self).packages@[i].dependents_of(dependency_type) + Seq::new(count_of(resolved(old(self).packages@, dependencies@.take(0)), i as usize), |_j: int| c) by {
                assert(Seq::new(0, |_j: int| c) == Seq::<usize>::empty());
                assert(old(self).packages@[i].dependents_of(dependency_type) + Seq::<usize>::empty() == old(self).packages@[i].dependents_of(dependency_type));
            }
            assert(old(self).components@[c as int].dependencies_of(dependency_type) + Seq::<usize>::empty() == old(self).components@[c as int].dependencies_of(dependency_type));
        }
        while k < dependencies.len()
            invariant
                old(self).wf(),
                dependency_type != DependencyTypes::Runtime,
                c < nc,
                nc == old(self).components@.len(),
                np == old(self).packages@.len(),
                np <= usize::MAX,
                k <= dependencies@.len(),
                self.wf(),
                self.components@.len() == nc,
                self.packages@.len() == np,
                forall|i: int| 0 <= i < np ==> #[trigger] self.packages@[i].fmri == old(self).packages@[i].fmri,
                forall|i: int| 0 <= i < np ==> old(self).package_kept(#[trigger] self.packages@[i], i, dependency_type),
                forall|i: int| 0 <= i < np ==> #[trigger] self.packages@[i].dependents_of(dependency_type)
                    == old(self).packages@[i].dependents_of(dependency_type) + Seq::new(count_of(resolved(old(self).packages@, dependencies@.take(k as int)), i as usize), |_j: int| c),
                forall|d: int| 0 <= d < nc && d != c ==> #[trigger] self.components@[d] == old(self).components@[d],
                old(self).component_kept(self.components@[c as int], c as int, dependency_type),
                self.components@[c as int].dependencies_of(dependency_type)
                    == old(self).components@[c as int].dependencies_of(dependency_type) + resolved(old(self).packages@, dependencies@.take(k as int)),
                self.problems@ == old(self).problems@ + missing_required(old(self).packages@, dependencies@.take(k as int), dependency_type, old(self).components@[c as int].name),
            decreases dependencies@.len() - k,
        {
            proof {
                assert(dependencies@.take(k as int + 1).drop_last() == dependencies@.take(k as int));
                assert(names_unique(old(self).packages@));
            }
            let f = &dependencies[k];
            match find_by_name(&self.packages, &f.name) {
                Some(i) => {
                    proof {
                        assert(has_name(old(self).packages@, f.name@)) by {
                            assert(old(self).packages@[i as int].fmri.name@ == f.name@);
                        }
                        assert(index_of_name(old(self).packages@, f.name@) == i as int) by {
                            let q = index_of_name(old(self).packages@, f.name@);
                            assert(self.packages@[q].fmri.name@ == f.name@);
                        }
                    }
                    let ghost before = *self;
                    let r1 = self.components[c].add_dependency(i, dependency_type);
                    let r2 = self.packages[i].add_dependent(c, dependency_type);
                    proof {
                        assert(r1 is Ok && r2 is Ok);
                        let prev = resolved(old(self).packages@, dependencies@.take(k as int));
                        let next = resolved(old(self).packages@, dependencies@.take(k as int + 1));
                        assert(next == prev.push(i));
                        assert(next.drop_last() == prev);
                        assert forall|x: int| 0 <= x < np implies #[trigger] self.packages@[x].dependents_of(dependency_type)
                            == old(self).packages@[x].dependents_of(dependency_type) + Seq::new(count_of(next, x as usize), |_j: int| c) by {
                            let n0 = count_of(prev, x as usize);
                            assert(count_of(next, x as usize) == n0 + if i == x as usize { 1nat } else { 0nat });
                            assert(before.packages@[x].dependents_of(dependency_type)
                                == old(self).packages@[x].dependents_of(dependency_type) + Seq::new(n0, |_j: int| c));
                            if x == i as int {
                                assert(Seq::new(n0 + 1, |_j: int| c) =~= Seq::new(n0, |_j: int| c).push(c));
                                assert(old(self).packages@[x].dependents_of(dependency_type) + Seq::new(n0, |_j: int| c).push(c)
                                    =~= (old(self).packages@[x].dependents_of(dependency_type) + Seq::new(n0, |_j: int| c)).push(c));
                                assert(self.packages@[x].dependents_of(dependency_type) == before.packages@[x].dependents_of(dependency_type).push(c));
                                assert(count_of(next, x as usize) == n0 + 1);
                            } else {
                                assert(before.packages@[x] == self.packages@[x]);
                                assert(x as usize != i);
                                assert(count_of(next, x as usize) == n0);
                            }
                        }
                        assert(old(self).components@[c as int].dependencies_of(dependency_type) + next
                            == (old(self).components@[c as int].dependencies_of(dependency_type) + prev).push(i));
                        assert(missing_required(old(self).packages@, dependencies@.take(k as int + 1), dependency_type, old(self).components@[c as int].name)
                            == missing_required(old(self).packages@, dependencies@.take(k as int), dependency_type, old(self).components@[c as int].name));
                        assert forall|x: int| 0 <= x < np implies old(self).package_kept(#[trigger] self.packages@[x], x, dependency_type) by {
                            if x != i as int {
                                assert(before.packages@[x] == self.packages@[x]);
                            }
                        }
                        assert forall|x: int| 0 <= x < np implies #[trigger] self.packages@[x].fmri == old(self).packages@[x].fmri by {
                            if x != i as int {
                                assert(before.packages@[x] == self.packages@[x]);
                            }
                        }
                        let npi = np;
                        let nci = nc;
                        assert forall|x: int| 0 <= x < npi implies Self::package_links_ok(#[trigger] self.packages@[x], npi, nci) by {
                            if x == i as int {
                                assert(Self::package_links_ok(before.packages@[x], npi, nci));
                                let p = self.packages@[x];
                                let q = before.packages@[x];
                                assert(forall|d: DependencyTypes| d != dependency_type ==> p.dependents_of(d) == q.dependents_of(d));
                                assert(p.dependents_of(DependencyTypes::Build) == q.dependents_of(DependencyTypes::Build)
                                    || p.dependents_of(DependencyTypes::Build) == q.dependents_of(DependencyTypes::Build).push(c));
                                assert(p.dependents_of(DependencyTypes::Test) == q.dependents_of(DependencyTypes::Test)
                                    || p.dependents_of(DependencyTypes::Test) == q.dependents_of(DependencyTypes::Test).push(c));
                                assert(p.dependents_of(DependencyTypes::SystemBuild) == q.dependents_of(DependencyTypes::SystemBuild)
                                    || p.dependents_of(DependencyTypes::SystemBuild) == q.dependents_of(DependencyTypes::SystemBuild).push(c));
                                assert(p.dependents_of(DependencyTypes::SystemTest) == q.dependents_of(DependencyTypes::SystemTest)
                                    || p.dependents_of(DependencyTypes::SystemTest) == q.dependents_of(DependencyTypes::SystemTest).push(c));
                            } else {
                                assert(before.packages@[x] == self.packages@[x]);
                                assert(Self::package_links_ok(before.packages@[x], npi, nci));
                            }
                        }
                        assert forall|d: int| 0 <= d < nci implies Self::component_links_ok(#[trigger] self.components@[d], npi) by {
                            assert(Self::component_links_ok(before.components@[d], npi));
                            if d == c as int {
                                let p = self.components@[d];
                                let q = before.components@[d];
                                assert(p.dependencies_of(DependencyTypes::Build) == q.dependencies_of(DependencyTypes::Build)
                                    || p.dependencies_of(DependencyTypes::Build) == q.dependencies_of(DependencyTypes::Build).push(i));
                                assert(p.dependencies_of(DependencyTypes::Test) == q.dependencies_of(DependencyTypes::Test)
                                    || p.dependencies_of(DependencyTypes::Test) == q.dependencies_of(DependencyTypes::Test).push(i));
                                assert(p.dependencies_of(DependencyTypes::SystemBuild) == q.dependencies_of(DependencyTypes::SystemBuild)
                                    || p.dependencies_of(DependencyTypes::SystemBuild) == q.dependencies_of(DependencyTypes::SystemBuild).push(i));
                                assert(p.dependencies_of(DependencyTypes::SystemTest) == q.dependencies_of(DependencyTypes::SystemTest)
                                    || p.dependencies_of(DependencyTypes::SystemTest) == q.dependencies_of(DependencyTypes::SystemTest).push(i));
                            }
                        }
                    }
                },
                None => {
                    proof {
                        assert(!has_name(old(self).packages@, f.name@)) by {
                            if has_name(old(self).packages@, f.name@) {
                                let q = index_of_name(old(self).packages@, f.name@);
                                assert(self.packages@[q].fmri.name@ == f.name@);
                            }
                        }
                    }
                    self.problems.add_problem(Problem::NonExistingRequired(DependTypes::Require(f.copy()), dependency_type, None, Some(copy_string(&self.components[c].name))));
                    proof {
                        let prev = resolved(old(self).packages@, dependencies@.take(k as int));
                        assert(resolved(old(self).packages@, dependencies@.take(k as int + 1)) == prev);
                        assert(dependencies@.take(k as int + 1).last() == *f);
                        assert((old(self).problems@ + missing_required(old(self).packages@, dependencies@.take(k as int), dependency_type, old(self).components@[c as int].name)).push(
                            Problem::NonExistingRequired(DependTypes::Require(*f), dependency_type, None, Some(old(self).components@[c as int].name)))
                            == old(self).problems@ + missing_required(old(self).packages@, dependencies@.take(k as int + 1), dependency_type, old(self).components@[c as int].name));
                    }
                },
            }
            k += 1;
        }
        proof {
            assert(dependencies@.take(dependencies@.len() as int) == dependencies@);
            assert(old(self).components@[c as int].name@ == component_name@);
            assert(old(self).repo_dependencies_added(*self, c as int, dependencies@, dependency_type));
        }
        Ok(())
    }

    /// `after` is this registry with the package that `fmri` names marked
    /// obsolete (or renamed): the package itself where `fmri` holds no version,
    /// else each stored version whose text is that version.
    pub open spec fn marked(&self, after: Components, fmri: Fmri, renamed: bool) -> bool {
        let i = self.package_index(fmri.name@);
        let p = self.packages@[i];
        &&& after.components == self.components
        &&& after.problems == self.problems
        &&& after.packages@.len() == self.packages@.len()
        &&& forall|j: int| 0 <= j < self.packages@.len() && j != i ==> #[trigger] after.packages@[j] == self.packages@[j]
        &&& match fmri.version {
            None => after.packages@[i] == if renamed { Package { renamed: true, ..p } } else { Package { obsolete: true, ..p } },
            Some(v) => {
                let q = after.packages@[i];
                &&& q.fmri == p.fmri
                &&& q.component == p.component
                &&& q.obsolete == p.obsolete
                &&& q.renamed == p.renamed
                &&& q.runtime_dependents == p.runtime_dependents
                &&& q.build_dependents == p.build_dependents
                &&& q.test_dependents == p.test_dependents
                &&& q.sys_build_dependents == p.sys_build_dependents
                &&& q.sys_test_dependents == p.sys_test_dependents
                &&& q.versions@.len() == p.versions@.len()
                &&& forall|j: int| 0 <= j < p.versions@.len() ==> #[trigger] q.versions@[j] == if p.versions@[j].version@ == v@ {
                    if renamed { PackageVersion { renamed: true, ..p.versions@[j] } } else { PackageVersion { obsolete: true, ..p.versions@[j] } }
                } else {
                    p.versions@[j]
                }
            },
        }
    }

    /// Marking would leave a stored version both obsolete and renamed: `fmri`
    /// holds a version, and a stored version of that text already carries the
    /// other flag.
    pub open spec fn mark_clashes(&self, fmri: Fmri, renamed: bool) -> bool {
        let p = self.packages@[self.package_index(fmri.name@)];
        match fmri.version {
            None => false,
            Some(v) => exists|j: int| 0 <= j < p.versions@.len() && (#[trigger] p.versions@[j]).version@ == v@
                && if renamed { p.versions@[j].obsolete } else { p.versions@[j].renamed },
        }
    }

    fn mark(&mut self, fmri: &Fmri, renamed: bool) -> (r: Result<(), String>)
        requires
            old(self).wf(),
        ensures
            final(self).wf(),
            r is Ok <==> old(self).has_package(fmri.name@) && !old(self).mark_clashes(*fmri, renamed),
            r is Err ==> *final(self) == *old(self),
            r is Ok ==> old(self).marked(*final(self), *fmri, renamed),
    {
        let i = match self.find_package(fmri) {
            Some(i) => i,
            None => return Err("package does not exist".to_owned()),
        };
        match &fmri.version {
            None => {
                if renamed {
                    self.packages[i].renamed = true;
                } else {
                    self.packages[i].obsolete = true;
                }
                proof {
                    let np = self.packages@.len() as int;
                    let nc = self.components@.len() as int;
                    assert(Self::package_links_ok(old(self).packages@[i as int], np, nc));
                }
            },
            Some(v) => {
                let n = self.packages[i].versions.len();
                let mut j: usize = 0;
                while j < n
                    invariant
                        *self == *old(self),
                        old(self).wf(),
                        i < self.packages@.len(),
                        i == old(self).package_index(fmri.name@),
                        fmri.version == Some(*v),
                        n == self.packages@[i as int].versions@.len(),
                        j <= n,
                        forall|y: int| 0 <= y < j ==> !((#[trigger] self.packages@[i as int].versions@[y]).version@ == v@
                            && if renamed { self.packages@[i as int].versions@[y].obsolete } else { self.packages@[i as int].versions@[y].renamed }),
                    decreases n - j,
                {
                    let pv = &self.packages[i].versions[j];
                    if strings_equal(&pv.version, v) && (if renamed { pv.obsolete } else { pv.renamed }) {
                        return Err("a version cannot be both obsolete and renamed".to_owned());
                    }
                    j += 1;
                }
                proof {
                    assert(!old(self).mark_clashes(*fmri, renamed));
                }
                j = 0;
                while j < n
                    invariant
                        !old(self).mark_clashes(*fmri, renamed),
                        old(self).wf(),
                        i < old(self).packages@.len(),
                        i == old(self).package_index(fmri.name@),
                        n == old(self).packages@[i as int].versions@.len(),
                        j <= n,
                        self.components == old(self).components,
                        self.problems == old(self).problems,
                        self.packages@.len() == old(self).packages@.len(),
                        forall|x: int| 0 <= x < self.packages@.len() && x != i ==> #[trigger] self.packages@[x] == old(self).packages@[x],
                        ({
                            let p = old(self).packages@[i as int];
                            let q = self.packages@[i as int];
                            &&& q.fmri == p.fmri
                            &&& q.component == p.component
                            &&& q.obsolete == p.obsolete
                            &&& q.renamed == p.renamed
                            &&& q.runtime_dependents == p.runtime_dependents
                            &&& q.build_dependents == p.build_dependents
                            &&& q.test_dependents == p.test_dependents
                            &&& q.sys_build_dependents == p.sys_build_dependents
                            &&& q.sys_test_dependents == p.sys_test_dependents
                            &&& q.versions@.len() == n
                            &&& forall|y: int| j <= y < n ==> #[trigger] q.versions@[y] == p.versions@[y]
                            &&& forall|y: int| 0 <= y < j ==> #[trigger] q.versions@[y] == if p.versions@[y].version@ == v@ {
                                if renamed { PackageVersion { renamed: true, ..p.versions@[y] } } else { PackageVersion { obsolete: true, ..p.versions@[y] } }
                            } else {
                                p.versions@[y]
                            }
                        }),
                    decreases n - j,
                {
                    if strings_equal(&self.packages[i].versions[j].version, v) {
                        if renamed {
                            self.packages[i].versions[j].renamed = true;
                        } else {
                            self.packages[i].versions[j].obsolete = true;
                        }
                    }
                    j += 1;
                }
                proof {
                    let np = self.packages@.len() as int;
                    let nc = self.components@.len() as int;
                    assert(Self::package_links_ok(old(self).packages@[i as int], np, nc));
                    assert forall|x: int| 0 <= x < np implies Self::package_links_ok(#[trigger] self.packages@[x], np, nc) by {
                        assert(Self::package_links_ok(old(self).packages@[x], np, nc));
                    }
                    assert forall|a: int, b: int| 0 <= a < np && 0 <= b < np && a != b
                        implies (#[trigger] self.packages@[a]).fmri.name@ != (#[trigger] self.packages@[b]).fmri.name@ by {
                        assert(old(self).packages@[a].fmri.name@ != old(self).packages@[b].fmri.name@);
                    }
                }
            },
        }
        Ok(())
    }

    /// Marks the package that `fmri` names obsolete: the whole package where
    /// `fmri` holds no version, else the stored version of that text. Refused,
    /// changing nothing, where no package has that name or where that would
    /// leave a version both obsolete and renamed.
    pub fn set_package_obsolete(&mut self, fmri: Fmri) -> (r: Result<(), String>)
        requires
            old(self).wf(),
        ensures
            final(self).wf(),
            r is Ok <==> old(self).has_package(fmri.name@) && !old(self).mark_clashes(fmri, false),
            r is Err ==> *final(self) == *old(self),
            r is Ok ==> old(self).marked(*final(self), fmri, false),
    {
        self.mark(&fmri, false)
    }

    /// Marks the package that `fmri` names renamed: the whole package where
    /// `fmri` holds no version, else the stored version of that text. Refused,
    /// changing nothing, where no package has that name or where that would
    /// leave a version both obsolete and renamed.
    pub fn set_package_renamed(&mut self, fmri: Fmri) -> (r: Result<(), String>)
        requires
            old(self).wf(),
        ensures
            final(self).wf(),
            r is Ok <==> old(self).has_package(fmri.name@) && !old(self).mark_clashes(fmri, true),
            r is Err ==> *final(self) == *old(self),
            r is Ok ==> old(self).marked(*final(self), fmri, true),
    {
        self.mark(&fmri, true)
    }

    /// Keeps one version of each package: the highest that is neither
    /// obsolete nor renamed, or where there is none, the highest.
    pub fn remove_old_versions(&mut self)
        requires
            old(self).wf(),
        ensures
            final(self).wf(),
            final(self).components == old(self).components,
            final(self).problems == old(self).problems,
            final(self).packages@.len() == old(self).packages@.len(),
            forall|i: int| 0 <= i < final(self).packages@.len() ==> (#[trigger] final(self).packages@[i]).versions@.len() == 1,
            forall|i: int| 0 <= i < final(self).packages@.len() ==> (#[trigger] final(self).packages@[i]).versions@
                == seq![kept_version(old(self).packages@[i].versions@)],
            forall|i: int| 0 <= i < final(self).packages@.len() ==> (#[trigger] final(self).packages@[i]) == (Package {
                versions: final(self).packages@[i].versions, ..old(self).packages@[i] }),
    {
        let n = self.packages.len();
        let mut i: usize = 0;
        while i < n
            invariant
                old(self).wf(),
                n == old(self).packages@.len(),
                i <= n,
                self.components == old(self).components,
                self.problems == old(self).problems,
                self.packages@.len() == n,
                forall|x: int| i <= x < n ==> #[trigger] self.packages@[x] == old(self).packages@[x],
                forall|x: int| 0 <= x < i ==> (#[trigger] self.packages@[x]).versions@ == seq![kept_version(old(self).packages@[x].versions@)],
                forall|x: int| 0 <= x < i ==> (#[trigger] self.packages@[x]) == (Package {
                    versions: self.packages@[x].versions, ..old(self).packages@[x] }),
            decreases n - i,
        {
            proof {
                assert(old(self).packages@[i as int].versions@.len() >= 1);
            }
            let k = find_kept(&self.packages[i].versions);
            let v = self.packages[i].versions.remove(k);
            let mut kept: Vec<PackageVersion> = Vec::new();
            kept.push(v);
            self.packages[i].versions = kept;
            proof {
                assert(self.packages@[i as int].versions@ =~= seq![kept_version(old(self).packages@[i as int].versions@)]);
            }
            i += 1;
        }
        proof {
            let np = n as int;
            let nc = self.components@.len() as int;
            assert forall|x: int| 0 <= x < np implies Self::package_links_ok(#[trigger] self.packages@[x], np, nc) by {
                assert(Self::package_links_ok(old(self).packages@[x], np, nc));
            }
            assert forall|a: int, b: int| 0 <= a < np && 0 <= b < np && a != b
                implies (#[trigger] self.packages@[a]).fmri.name@ != (#[trigger] self.packages@[b]).fmri.name@ by {
                assert(old(self).packages@[a].fmri.name@ != old(self).packages@[b].fmri.name@);
            }
            assert forall|x: int| 0 <= x < np implies (#[trigger] self.packages@[x]).versions@.len() == 1 by {
                assert(self.packages@[x].versions@ == seq![kept_version(old(self).packages@[x].versions@)]);
            }
        }
    }

    /// A package is as it was but for its dependents of the given class.
    pub open spec fn package_kept(&self, p: Package, i: int, class: DependencyTypes) -> bool {
        let q = self.packages@[i];
        &&& p.fmri == q.fmri
        &&& p.versions == q.versions
        &&& p.component == q.component
        &&& p.obsolete == q.obsolete
        &&& p.renamed == q.renamed
        &&& p.runtime_dependents == q.runtime_dependents
        &&& forall|d: DependencyTypes| d != class ==> p.dependents_of(d) == q.dependents_of(d)
    }

    /// A component is as it was but for its dependencies of the given class.
    pub open spec fn component_kept(&self, k: Component, c: int, class: DependencyTypes) -> bool {
        let q = self.components@[c];
        &&& k.name == q.name
        &&& k.packages == q.packages
        &&& forall|d: DependencyTypes| d != class ==> k.dependencies_of(d) == q.dependencies_of(d)
    }

    /// `after` is this registry with the dependencies `fmris` of the given
    /// class added to component `c`.
    pub open spec fn repo_dependencies_added(&self, after: Components, c: int, fmris: Seq<Fmri>, class: DependencyTypes) -> bool {
        let found = resolved(self.packages@, fmris);
        &&& after.packages@.len() == self.packages@.len()
        &&& after.components@.len() == self.components@.len()
        &&& forall|i: int| 0 <= i < self.packages@.len() ==> self.package_kept(#[trigger] after.packages@[i], i, class)
        &&& forall|i: int| 0 <= i < self.packages@.len() ==> #[trigger] after.packages@[i].dependents_of(class)
            == self.packages@[i].dependents_of(class) + Seq::new(count_of(found, i as usize), |_j: int| c as usize)
        &&& forall|d: int| 0 <= d < self.components@.len() && d != c ==> #[trigger] after.components@[d] == self.components@[d]
        &&& self.component_kept(after.components@[c], c, class)
        &&& after.components@[c].dependencies_of(class) == self.components@[c].dependencies_of(class) + found
        &&& after.problems@ == self.problems@ + missing_required(self.packages@, fmris, class, self.components@[c].name)
    }

    /// The component with the given name; refused where there is none.
    pub fn get_component_by_name(&self, name: &String) -> (r: Result<&Component, String>)
        ensures
            r is Err <==> forall|c: int| 0 <= c < self.components@.len() ==> (#[trigger] self.components@[c]).name@ != name@,
            r matches Ok(comp) ==> exists|c: int| 0 <= c < self.components@.len() && *comp == #[trigger] self.components@[c]
                && comp.name@ == name@,
    {
        match self.find_component(name) {
            Some(c) => Ok(&self.components[c]),
            None => Err("component does not exist".to_owned()),
        }
    }

    /// The package with the name of `fmri`, whatever its version; refused
    /// where there is none.
    pub fn get_package_by_fmri(&self, fmri: &Fmri) -> (r: Result<&Package, String>)
        requires
            self.wf(),
        ensures
            r is Ok <==> self.has_package(fmri.name@),
            r matches Ok(p) ==> *p == self.packages@[self.package_index(fmri.name@)],
    {
        match self.find_package(fmri) {
            Some(i) => Ok(&self.packages[i]),
            None => Err("package does not exist".to_owned()),
        }
    }

    pub fn get_components(&self) -> (r: &Vec<Component>)
        ensures
            r == &self.components,
    {
        &self.components
    }

    pub fn get_packages(&self) -> (r: &Vec<Package>)
        ensures
            r == &self.packages,
    {
        &self.packages
    }

    /// Finds the component with the given name.
    pub fn find_component(&self, name: &String) -> (r: Option<usize>)
        ensures
            r.is_none() ==> forall|c: int| 0 <= c < self.components@.len() ==> (#[trigger] self.components@[c]).name@ != name@,
            r matches Some(c) ==> c < self.components@.len() && self.components@[c as int].name@ == name@
                && forall|d: int| 0 <= d < c ==> (#[trigger] self.components@[d]).name@ != name@,
    {
        let mut i: usize = 0;
        while i < self.components.len()
            invariant
                i <= self.components@.len(),
                forall|j: int| 0 <= j < i ==> (#[trigger] self.components@[j]).name@ != name@,
            decreases self.components@.len() - i,
        {
            if strings_equal(&self.components[i].name, name) {
                return Some(i);
            }
            i += 1;
        }
        None
    }
}

} // verus!
