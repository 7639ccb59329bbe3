use vstd::prelude::*;
use crate::components::{has_name, index_of_name, names_unique, Components};
use crate::depend::{DependTypes, DependencyTypes, RevDependType};
use crate::identity::{Fmri, strings_equal};
use crate::package::{Package, PackageVersion};
use crate::problems::Problem;

verus! {

/// A reverse edge on its way to its target: the identity that the
/// dependency names, and the edge to record there.
pub type Edge = (Fmri, RevDependType);

/// The reverse edges of one runtime dependency held by package `src`.
pub open spec fn dep_edges(d: DependTypes, src: usize) -> Seq<Edge> {
    match d {
        DependTypes::Require(f) => seq![(f, RevDependType::Require(src))],
        DependTypes::Optional(f) => seq![(f, RevDependType::Optional(src))],
        DependTypes::Incorporate(f) => seq![(f, RevDependType::Incorporate(src))],
        DependTypes::RequireAny(l) => l@.map_values(|f: Fmri| (f, RevDependType::Require(src))),
        DependTypes::Conditional(f, p) => seq![(f, RevDependType::ConditionalFmri(src)), (p, RevDependType::ConditionalPredicate(src))],
        DependTypes::Group(f) => seq![(f, RevDependType::Group(src))],
    }
}

/// The reverse edges of a list of runtime dependencies, in order.
pub open spec fn deps_edges(ds: Seq<DependTypes>, src: usize) -> Seq<Edge>
    decreases ds.len(),
{
    if ds.len() == 0 {
        Seq::empty()
    } else {
        deps_edges(ds.drop_last(), src) + dep_edges(ds.last(), src)
    }
}

/// The reverse edges of every version of package `src`, in order.
pub open spec fn versions_edges(vs: Seq<PackageVersion>, src: usize) -> Seq<Edge>
    decreases vs.len(),
{
    if vs.len() == 0 {
        Seq::empty()
    } else {
        versions_edges(vs.drop_last(), src) + deps_edges(vs.last().runtime@, src)
    }
}

/// The reverse edges of every package, in order.
pub open spec fn all_edges(ps: Seq<Package>) -> Seq<Edge>
    decreases ps.len(),
{
    if ps.len() == 0 {
        Seq::empty()
    } else {
        all_edges(ps.drop_last()) + versions_edges(ps.last().versions@, (ps.len() - 1) as usize)
    }
}

/// Two edges go to the same identity (name, publisher and version) and
/// record the same thing.
pub open spec fn same_edge(a: Edge, b: Edge) -> bool {
    a.0.same(b.0) && a.1 == b.1
}

/// Whether `s` holds an edge that is the same as `x`.
pub open spec fn has_edge(s: Seq<Edge>, x: Edge) -> bool {
    exists|k: int| 0 <= k < s.len() && same_edge(#[trigger] s[k], x)
}

/// The edges of `s` without repeats: the first of each kept, in order.
pub open spec fn dedup_edges(s: Seq<Edge>) -> Seq<Edge>
    decreases s.len(),
{
    if s.len() == 0 {
        Seq::empty()
    } else {
        let d = dedup_edges(s.drop_last());
        if has_edge(d, s.last()) { d } else { d.push(s.last()) }
    }
}

fn copy_edge(e: &Edge) -> (r: Edge)
    ensures
        r == *e,
{
    (e.0.copy(), e.1)
}

fn push_dep_edges(out: &mut Vec<Edge>, d: &DependTypes, src: usize)
    ensures
        final(out)@ == old(out)@ + dep_edges(*d, src),
{
    match d {
        DependTypes::Require(f) => out.push((f.copy(), RevDependType::Require(src))),
        DependTypes::Optional(f) => out.push((f.copy(), RevDependType::Optional(src))),
        DependTypes::Incorporate(f) => out.push((f.copy(), RevDependType::Incorporate(src))),
        DependTypes::RequireAny(l) => {
            let ghost start = out@;
            let mut i: usize = 0;
            while i < l.len()
                invariant
                    i <= l@.len(),
                    out@ == start + l@.take(i as int).map_values(|f: Fmri| (f, RevDependType::Require(src))),
                decreases l@.len() - i,
            {
                out.push((l[i].copy(), RevDependType::Require(src)));
                proof {
                    assert(l@.take(i as int + 1).map_values(|f: Fmri| (f, RevDependType::Require(src)))
                        =~= l@.take(i as int).map_values(|f: Fmri| (f, RevDependType::Require(src))).push((l@[i as int], RevDependType::Require(src))));
                }
                i += 1;
            }
            proof {
                assert(l@.take(l@.len() as int) =~= l@);
            }
        },
        DependTypes::Conditional(f, p) => {
            out.push((f.copy(), RevDependType::ConditionalFmri(src)));
            out.push((p.copy(), RevDependType::ConditionalPredicate(src)));
        },
        DependTypes::Group(f) => out.push((f.copy(), RevDependType::Group(src))),
    }
    proof {
        assert(final(out)@ =~= old(out)@ + dep_edges(*d, src));
    }
}

fn push_versions_edges(out: &mut Vec<Edge>, vs: &Vec<PackageVersion>, src: usize)
    ensures
        final(out)@ == old(out)@ + versions_edges(vs@, src),
{
    let ghost start = out@;
    let mut i: usize = 0;
    while i < vs.len()
        invariant
            i <= vs@.len(),
            out@ == start + versions_edges(vs@.take(i as int), src),
        decreases vs@.len() - i,
    {
        let ghost mid = out@;
        let ds = &vs[i].runtime;
        let mut j: usize = 0;
        while j < ds.len()
            invariant
                j <= ds@.len(),
                out@ == mid + deps_edges(ds@.take(j as int), src),
            decreases ds@.len() - j,
        {
            push_dep_edges(out, &ds[j], src);
            proof {
                assert(ds@.take(j as int + 1).drop_last() =~= ds@.take(j as int));
                assert(mid + deps_edges(ds@.take(j as int + 1), src) =~= mid + deps_edges(ds@.take(j as int), src) + dep_edges(ds@[j as int], src));
            }
            j += 1;
        }
        proof {
            assert(ds@.take(ds@.len() as int) =~= ds@);
            assert(vs@.take(i as int + 1).drop_last() =~= vs@.take(i as int));
            assert(start + versions_edges(vs@.take(i as int + 1), src) =~= start + versions_edges(vs@.take(i as int), src) + deps_edges(ds@, src));
        }
        i += 1;
    }
    proof {
        assert(vs@.take(vs@.len() as int) =~= vs@);
    }
}

/// Collects the reverse edges of every package's runtime dependencies.
pub fn collect_edges(ps: &Vec<Package>) -> (r: Vec<Edge>)
    ensures
        r@ == all_edges(ps@),
{
    let mut out: Vec<Edge> = Vec::new();
    let mut i: usize = 0;
    while i < ps.len()
        invariant
            i <= ps@.len(),
            out@ == all_edges(ps@.take(i as int)),
        decreases ps@.len() - i,
    {
        push_versions_edges(&mut out, &ps[i].versions, i);
        proof {
            assert(ps@.take(i as int + 1).drop_last() =~= ps@.take(i as int));
        }
        i += 1;
    }
    proof {
        assert(ps@.take(ps@.len() as int) =~= ps@);
    }
    out
}

/// Whether `s` holds an edge that is the same as `x`.
fn contains_edge(s: &Vec<Edge>, x: &Edge) -> (r: bool)
    ensures
        r == has_edge(s@, *x),
{
    let mut k: usize = 0;
    while k < s.len()
        invariant
            k <= s@.len(),
            forall|j: int| 0 <= j < k ==> !same_edge(#[trigger] s@[j], *x),
        decreases s@.len() - k,
    {
        if s[k].0.same_as(&x.0) && s[k].1 == x.1 {
            return true;
        }
        k += 1;
    }
    false
}

/// The edges without repeats, the first of each kept.
pub fn dedup(s: &Vec<Edge>) -> (r: Vec<Edge>)
    ensures
        r@ == dedup_edges(s@),
{
    let mut out: Vec<Edge> = Vec::new();
    let mut i: usize = 0;
    while i < s.len()
        invariant
            i <= s@.len(),
            out@ == dedup_edges(s@.take(i as int)),
        decreases s@.len() - i,
    {
        proof {
            assert(s@.take(i as int + 1).drop_last() =~= s@.take(i as int));
        }
        if !contains_edge(&out, &s[i]) {
            out.push(copy_edge(&s[i]));
        }
        i += 1;
    }
    proof {
        assert(s@.take(s@.len() as int) =~= s@);
    }
    out
}

/// Every edge of `s` carries `src` as its source.
pub open spec fn all_from(s: Seq<Edge>, src: usize) -> bool {
    forall|k: int| 0 <= k < s.len() ==> (#[trigger] s[k]).1.source_spec() == src
}

proof fn lemma_dep_edges_from(d: DependTypes, src: usize)
    ensures
        all_from(dep_edges(d, src), src),
{
}

proof fn lemma_deps_edges_from(ds: Seq<DependTypes>, src: usize)
    ensures
        all_from(deps_edges(ds, src), src),
    decreases ds.len(),
{
    if ds.len() > 0 {
        lemma_deps_edges_from(ds.drop_last(), src);
        lemma_dep_edges_from(ds.last(), src);
        let a = deps_edges(ds.drop_last(), src);
        let b = dep_edges(ds.last(), src);
        assert forall|k: int| 0 <= k < (a + b).len() implies (#[trigger] (a + b)[k]).1.source_spec() == src by {
            if k < a.len() {
                assert((a + b)[k] == a[k]);
            } else {
                assert((a + b)[k] == b[k - a.len()]);
            }
        }
    }
}

proof fn lemma_versions_edges_from(vs: Seq<PackageVersion>, src: usize)
    ensures
        all_from(versions_edges(vs, src), src),
    decreases vs.len(),
{
    if vs.len() > 0 {
        lemma_versions_edges_from(vs.drop_last(), src);
        lemma_deps_edges_from(vs.last().runtime@, src);
        let a = versions_edges(vs.drop_last(), src);
        let b = deps_edges(vs.last().runtime@, src);
        assert forall|k: int| 0 <= k < (a + b).len() implies (#[trigger] (a + b)[k]).1.source_spec() == src by {
            if k < a.len() {
                assert((a + b)[k] == a[k]);
            } else {
                assert((a + b)[k] == b[k - a.len()]);
            }
        }
    }
}

/// Every collected edge comes from a package of the list.
proof fn lemma_all_edges_sources(ps: Seq<Package>)
    ensures
        forall|k: int| 0 <= k < all_edges(ps).len() ==> (#[trigger] all_edges(ps)[k]).1.source_spec() < ps.len(),
    decreases ps.len(),
{
    if ps.len() > 0 {
        lemma_all_edges_sources(ps.drop_last());
        lemma_versions_edges_from(ps.last().versions@, (ps.len() - 1) as usize);
        let a = all_edges(ps.drop_last());
        let b = versions_edges(ps.last().versions@, (ps.len() - 1) as usize);
        assert forall|k: int| 0 <= k < (a + b).len() implies (#[trigger] (a + b)[k]).1.source_spec() < ps.len() by {
            if k < a.len() {
                assert((a + b)[k] == a[k]);
            } else {
                assert((a + b)[k] == b[k - a.len()]);
            }
        }
    }
}

/// Every edge kept by `dedup_edges` is an edge of the input.
proof fn lemma_dedup_from(s: Seq<Edge>)
    ensures
        forall|k: int| 0 <= k < dedup_edges(s).len() ==> exists|j: int| 0 <= j < s.len() && #[trigger] dedup_edges(s)[k] == s[j],
    decreases s.len(),
{
    if s.len() > 0 {
        lemma_dedup_from(s.drop_last());
        let d = dedup_edges(s.drop_last());
        assert forall|k: int| 0 <= k < dedup_edges(s).len() implies exists|j: int| 0 <= j < s.len() && #[trigger] dedup_edges(s)[k] == s[j] by {
            if k < d.len() {
                let j = choose|j: int| 0 <= j < s.drop_last().len() && #[trigger] d[k] == s.drop_last()[j];
                assert(dedup_edges(s)[k] == s[j]);
            } else {
                assert(dedup_edges(s)[k] == s[s.len() - 1]);
            }
        }
    }
}

/// The edges of `d` whose target is package `t` of `ps`, in order.
pub open spec fn edges_to(ps: Seq<Package>, d: Seq<Edge>, t: int) -> Seq<RevDependType>
    decreases d.len(),
{
    if d.len() == 0 {
        Seq::empty()
    } else {
        let rest = edges_to(ps, d.drop_last(), t);
        let e = d.last();
        if has_name(ps, e.0.name@) && index_of_name(ps, e.0.name@) == t { rest.push(e.1) } else { rest }
    }
}

/// The edges of `d` whose target names no package of `ps`, in order.
pub open spec fn unresolved(ps: Seq<Package>, d: Seq<Edge>) -> Seq<Edge>
    decreases d.len(),
{
    if d.len() == 0 {
        Seq::empty()
    } else {
        let rest = unresolved(ps, d.drop_last());
        if has_name(ps, d.last().0.name@) { rest } else { rest.push(d.last()) }
    }
}

/// The identity that stands for the side of a conditional dependency that a
/// reverse edge does not record.
pub open spec fn is_placeholder(f: Fmri) -> bool {
    f.name@ == "none"@ && f.publisher is None && f.version is None
}

/// The dependency that a diagnostic for edge `e` names: the shape of the edge,
/// towards the missing target.
pub open spec fn names_dependency(d: DependTypes, e: Edge) -> bool {
    let f = e.0;
    match e.1 {
        RevDependType::Require(_) => d == DependTypes::Require(f),
        RevDependType::Optional(_) => d == DependTypes::Optional(f),
        RevDependType::Incorporate(_) => d == DependTypes::Incorporate(f),
        RevDependType::RequireAny(_) => d is RequireAny && d->RequireAny_0@ == seq![f],
        RevDependType::ConditionalFmri(_) => d is Conditional && d->Conditional_0 == f && is_placeholder(d->Conditional_1),
        RevDependType::ConditionalPredicate(_) => d is Conditional && is_placeholder(d->Conditional_0) && d->Conditional_1 == f,
        RevDependType::Group(_) => d == DependTypes::Group(f),
    }
}

/// `p` is the diagnostic for an edge whose target does not exist: the
/// renamed-source variant where the source package is renamed.
pub open spec fn reports_missing(p: Problem, e: Edge, ps: Seq<Package>) -> bool {
    let src = ps[e.1.source_spec() as int];
    if src.renamed {
        p is NonExistingRequiredByRenamed && names_dependency(p->NonExistingRequiredByRenamed_0, e)
            && p->NonExistingRequiredByRenamed_1 == DependencyTypes::Runtime && p->NonExistingRequiredByRenamed_2 == src.fmri
    } else {
        p is NonExistingRequired && names_dependency(p->NonExistingRequired_0, e)
            && p->NonExistingRequired_1 == DependencyTypes::Runtime && p->NonExistingRequired_2 == Some(src.fmri)
            && p->NonExistingRequired_3 is None
    }
}

fn placeholder() -> (r: Fmri)
    ensures
        is_placeholder(r),
{
    Fmri::new("none".to_owned(), None, None)
}

proof fn lemma_in_deps_edges(ds: Seq<DependTypes>, src: usize, j: int, m: int)
    requires
        0 <= j < ds.len(),
        0 <= m < dep_edges(ds[j], src).len(),
    ensures
        exists|idx: int| 0 <= idx < deps_edges(ds, src).len() && #[trigger] deps_edges(ds, src)[idx] == dep_edges(ds[j], src)[m],
    decreases ds.len(),
{
    let a = deps_edges(ds.drop_last(), src);
    let b = dep_edges(ds.last(), src);
    assert(deps_edges(ds, src) == a + b);
    if j == ds.len() - 1 {
        assert((a + b)[a.len() + m] == b[m]);
        assert(deps_edges(ds, src)[a.len() + m] == dep_edges(ds[j], src)[m]);
    } else {
        assert(ds.drop_last()[j] == ds[j]);
        lemma_in_deps_edges(ds.drop_last(), src, j, m);
        let idx = choose|idx: int| 0 <= idx < a.len() && #[trigger] a[idx] == dep_edges(ds[j], src)[m];
        assert((a + b)[idx] == a[idx]);
        assert(deps_edges(ds, src)[idx] == dep_edges(ds[j], src)[m]);
    }
}

proof fn lemma_in_versions_edges(vs: Seq<PackageVersion>, src: usize, v: int, j: int, m: int)
    requires
        0 <= v < vs.len(),
        0 <= j < vs[v].runtime@.len(),
        0 <= m < dep_edges(vs[v].runtime@[j], src).len(),
    ensures
        exists|idx: int| 0 <= idx < versions_edges(vs, src).len()
            && #[trigger] versions_edges(vs, src)[idx] == dep_edges(vs[v].runtime@[j], src)[m],
    decreases vs.len(),
{
    let a = versions_edges(vs.drop_last(), src);
    let b = deps_edges(vs.last().runtime@, src);
    assert(versions_edges(vs, src) == a + b);
    if v == vs.len() - 1 {
        lemma_in_deps_edges(vs[v].runtime@, src, j, m);
        let idx = choose|idx: int| 0 <= idx < b.len() && #[trigger] b[idx] == dep_edges(vs[v].runtime@[j], src)[m];
        assert((a + b)[a.len() + idx] == b[idx]);
        assert(versions_edges(vs, src)[a.len() + idx] == dep_edges(vs[v].runtime@[j], src)[m]);
    } else {
        assert(vs.drop_last()[v] == vs[v]);
        lemma_in_versions_edges(vs.drop_last(), src, v, j, m);
        let idx = choose|idx: int| 0 <= idx < a.len() && #[trigger] a[idx] == dep_edges(vs[v].runtime@[j], src)[m];
        assert((a + b)[idx] == a[idx]);
        assert(versions_edges(vs, src)[idx] == dep_edges(vs[v].runtime@[j], src)[m]);
    }
}

proof fn lemma_in_all_edges(ps: Seq<Package>, s: int, v: int, j: int, m: int)
    requires
        0 <= s < ps.len(),
        0 <= v < ps[s].versions@.len(),
        0 <= j < ps[s].versions@[v].runtime@.len(),
        0 <= m < dep_edges(ps[s].versions@[v].runtime@[j], s as usize).len(),
    ensures
        exists|idx: int| 0 <= idx < all_edges(ps).len()
            && #[trigger] all_edges(ps)[idx] == dep_edges(ps[s].versions@[v].runtime@[j], s as usize)[m],
    decreases ps.len(),
{
    let a = all_edges(ps.drop_last());
    let b = versions_edges(ps.last().versions@, (ps.len() - 1) as usize);
    assert(all_edges(ps) == a + b);
    if s == ps.len() - 1 {
        lemma_in_versions_edges(ps[s].versions@, s as usize, v, j, m);
        let idx = choose|idx: int| 0 <= idx < b.len() && #[trigger] b[idx] == dep_edges(ps[s].versions@[v].runtime@[j], s as usize)[m];
        assert((a + b)[a.len() + idx] == b[idx]);
        assert(all_edges(ps)[a.len() + idx] == dep_edges(ps[s].versions@[v].runtime@[j], s as usize)[m]);
    } else {
        assert(ps.drop_last()[s] == ps[s]);
        lemma_in_all_edges(ps.drop_last(), s, v, j, m);
        let idx = choose|idx: int| 0 <= idx < a.len() && #[trigger] a[idx] == dep_edges(ps[s].versions@[v].runtime@[j], s as usize)[m];
        assert((a + b)[idx] == a[idx]);
        assert(all_edges(ps)[idx] == dep_edges(ps[s].versions@[v].runtime@[j], s as usize)[m]);
    }
}

/// Every edge of the input has a same edge among those `dedup_edges` keeps.
proof fn lemma_dedup_covers(s: Seq<Edge>, i: int)
    requires
        0 <= i < s.len(),
    ensures
        has_edge(dedup_edges(s), s[i]),
    decreases s.len(),
{
    let d = dedup_edges(s.drop_last());
    if i < s.len() - 1 {
        assert(s.drop_last()[i] == s[i]);
        lemma_dedup_covers(s.drop_last(), i);
        let k = choose|k: int| 0 <= k < d.len() && same_edge(#[trigger] d[k], s[i]);
        if !has_edge(d, s.last()) {
            assert(dedup_edges(s)[k] == d[k]);
        }
    } else {
        if has_edge(d, s.last()) {
        } else {
            assert(same_edge(dedup_edges(s)[d.len() as int], s[i]));
        }
    }
}

proof fn lemma_edges_to_holds(ps: Seq<Package>, d: Seq<Edge>, k: int)
    requires
        0 <= k < d.len(),
        has_name(ps, d[k].0.name@),
    ensures
        edges_to(ps, d, index_of_name(ps, d[k].0.name@)).contains(d[k].1),
    decreases d.len(),
{
    let t = index_of_name(ps, d[k].0.name@);
    let rest = edges_to(ps, d.drop_last(), t);
    if k == d.len() - 1 {
        assert(edges_to(ps, d, t) == rest.push(d[k].1));
        assert(edges_to(ps, d, t)[rest.len() as int] == d[k].1);
    } else {
        assert(d.drop_last()[k] == d[k]);
        lemma_edges_to_holds(ps, d.drop_last(), k);
        let x = choose|x: int| 0 <= x < rest.len() && rest[x] == d[k].1;
        assert(edges_to(ps, d, t)[x] == d[k].1);
    }
}

proof fn lemma_unresolved_holds(ps: Seq<Package>, d: Seq<Edge>, k: int)
    requires
        0 <= k < d.len(),
        !has_name(ps, d[k].0.name@),
    ensures
        exists|x: int| 0 <= x < unresolved(ps, d).len() && #[trigger] unresolved(ps, d)[x] == d[k],
    decreases d.len(),
{
    let rest = unresolved(ps, d.drop_last());
    if k == d.len() - 1 {
        assert(unresolved(ps, d)[rest.len() as int] == d[k]);
    } else {
        assert(d.drop_last()[k] == d[k]);
        lemma_unresolved_holds(ps, d.drop_last(), k);
        let x = choose|x: int| 0 <= x < rest.len() && #[trigger] rest[x] == d[k];
        if !has_name(ps, d.last().0.name@) {
            assert(unresolved(ps, d) == rest.push(d.last()));
            assert(unresolved(ps, d)[x] == rest[x]);
        } else {
            assert(unresolved(ps, d) == rest);
        }
        assert(unresolved(ps, d)[x] == d[k]);
    }
}

/// No two edges of `d` are the same.
pub open spec fn edges_distinct(d: Seq<Edge>) -> bool {
    forall|i: int, j: int| 0 <= i < d.len() && 0 <= j < d.len() && i != j ==> !same_edge(#[trigger] d[i], #[trigger] d[j])
}

/// How many times `x` occurs in `s`.
pub open spec fn occurrences(s: Seq<RevDependType>, x: RevDependType) -> nat
    decreases s.len(),
{
    if s.len() == 0 {
        0
    } else {
        occurrences(s.drop_last(), x) + if s.last() == x { 1nat } else { 0nat }
    }
}

proof fn lemma_dedup_distinct(s: Seq<Edge>)
    ensures
        edges_distinct(dedup_edges(s)),
    decreases s.len(),
{
    if s.len() > 0 {
        lemma_dedup_distinct(s.drop_last());
        let d = dedup_edges(s.drop_last());
        if !has_edge(d, s.last()) {
            let e = d.push(s.last());
            assert forall|i: int, j: int| 0 <= i < e.len() && 0 <= j < e.len() && i != j implies !same_edge(#[trigger] e[i], #[trigger] e[j]) by {
                if i == d.len() {
                    assert(e[j] == d[j]);
                    if same_edge(e[i], e[j]) {
                        assert(same_edge(d[j], s.last()));
                    }
                } else if j == d.len() {
                    assert(e[i] == d[i]);
                    if same_edge(e[i], e[j]) {
                        assert(same_edge(d[i], s.last()));
                    }
                } else {
                    assert(e[i] == d[i] && e[j] == d[j]);
                }
            }
        }
    }
}

/// Two names that a package list resolves to one index are the same name.
proof fn lemma_same_index_same_name(ps: Seq<Package>, a: Seq<char>, b: Seq<char>)
    requires
        has_name(ps, a),
        has_name(ps, b),
        index_of_name(ps, a) == index_of_name(ps, b),
    ensures
        a == b,
{
    let i = index_of_name(ps, a);
    assert(ps[i].fmri.name@ == a);
    assert(ps[index_of_name(ps, b)].fmri.name@ == b);
}

proof fn lemma_edges_to_absent(ps: Seq<Package>, d: Seq<Edge>, t: int, x: RevDependType)
    requires
        forall|i: int| 0 <= i < d.len() && (#[trigger] d[i]).1 == x ==> !(has_name(ps, d[i].0.name@) && index_of_name(ps, d[i].0.name@) == t),
    ensures
        occurrences(edges_to(ps, d, t), x) == 0,
    decreases d.len(),
{
    if d.len() > 0 {
        assert forall|i: int| 0 <= i < d.drop_last().len() && (#[trigger] d.drop_last()[i]).1 == x
            implies !(has_name(ps, d.drop_last()[i].0.name@) && index_of_name(ps, d.drop_last()[i].0.name@) == t) by {
            assert(d.drop_last()[i] == d[i]);
        }
        lemma_edges_to_absent(ps, d.drop_last(), t, x);
        let rest = edges_to(ps, d.drop_last(), t);
        let e = d.last();
        if has_name(ps, e.0.name@) && index_of_name(ps, e.0.name@) == t {
            assert(e.1 != x);
            assert(edges_to(ps, d, t).drop_last() == rest);
        } else {
            assert(edges_to(ps, d, t) == rest);
        }
    }
}

/// Every edge of `d` that goes to the package `x` names and records what `x`
/// records goes to the very identity of `x`.
pub open spec fn one_identity(d: Seq<Edge>, x: Edge) -> bool {
    forall|i: int| 0 <= i < d.len() && (#[trigger] d[i]).0.name@ == x.0.name@ && d[i].1 == x.1 ==> d[i].0.same(x.0)
}

proof fn lemma_edges_to_once(ps: Seq<Package>, d: Seq<Edge>, k: int)
    requires
        edges_distinct(d),
        0 <= k < d.len(),
        has_name(ps, d[k].0.name@),
        one_identity(d, d[k]),
    ensures
        occurrences(edges_to(ps, d, index_of_name(ps, d[k].0.name@)), d[k].1) == 1,
    decreases d.len(),
{
    let t = index_of_name(ps, d[k].0.name@);
    let x = d[k].1;
    let rest = edges_to(ps, d.drop_last(), t);
    let e = d.last();
    if k == d.len() - 1 {
        assert forall|i: int| 0 <= i < d.drop_last().len() && (#[trigger] d.drop_last()[i]).1 == x
            implies !(has_name(ps, d.drop_last()[i].0.name@) && index_of_name(ps, d.drop_last()[i].0.name@) == t) by {
            assert(d.drop_last()[i] == d[i]);
            if has_name(ps, d[i].0.name@) && index_of_name(ps, d[i].0.name@) == t {
                lemma_same_index_same_name(ps, d[i].0.name@, d[k].0.name@);
                assert(same_edge(d[i], d[k]));
            }
        }
        lemma_edges_to_absent(ps, d.drop_last(), t, x);
        assert(edges_to(ps, d, t) == rest.push(x));
        assert(edges_to(ps, d, t).drop_last() == rest);
    } else {
        let dl = d.drop_last();
        assert(dl[k] == d[k]);
        assert forall|i: int, j: int| 0 <= i < dl.len() && 0 <= j < dl.len() && i != j implies !same_edge(#[trigger] dl[i], #[trigger] dl[j]) by {
            assert(dl[i] == d[i] && dl[j] == d[j]);
        }
        assert forall|y: int| 0 <= y < dl.len() && (#[trigger] dl[y]).0.name@ == dl[k].0.name@ && dl[y].1 == dl[k].1
            implies dl[y].0.same(dl[k].0) by {
            assert(dl[y] == d[y]);
        }
        lemma_edges_to_once(ps, dl, k);
        if has_name(ps, e.0.name@) && index_of_name(ps, e.0.name@) == t {
            if e.1 == x {
                lemma_same_index_same_name(ps, e.0.name@, d[k].0.name@);
                assert(same_edge(d[d.len() - 1], d[k]));
            }
            assert(edges_to(ps, d, t).drop_last() == rest);
        } else {
            assert(edges_to(ps, d, t) == rest);
        }
    }
}

/// Distribution is total: each reverse edge of each runtime dependency of
/// each stored version ends up recorded at the package that its target names,
/// or, where no package has that name, reported as a missing dependency.
/// Where every runtime dependency that records the same edge towards that
/// package names it by one identity, the edge is recorded exactly once.
/// A `RequireAny` dependency gives one edge per candidate.
pub proof fn lemma_distribution_total(before: Components, after: Components, s: int, v: int, j: int, m: int)
    requires
        before.wf(),
        before.distributed(after),
        0 <= s < before.packages@.len(),
        0 <= v < before.packages@[s].versions@.len(),
        0 <= j < before.packages@[s].versions@[v].runtime@.len(),
        0 <= m < dep_edges(before.packages@[s].versions@[v].runtime@[j], s as usize).len(),
    ensures
        ({
            let ps = before.packages@;
            let dep = ps[s].versions@[v].runtime@[j];
            let e = dep_edges(dep, s as usize)[m];
            let missing = unresolved(ps, dedup_edges(all_edges(ps)));
            &&& (dep matches DependTypes::RequireAny(l) ==> dep_edges(dep, s as usize).len() == l@.len())
            &&& has_name(ps, e.0.name@) ==> after.packages@[index_of_name(ps, e.0.name@)].runtime_dependents@.contains(e.1)
            &&& has_name(ps, e.0.name@) && one_identity(all_edges(ps), e)
                ==> occurrences(edges_to(ps, dedup_edges(all_edges(ps)), index_of_name(ps, e.0.name@)), e.1) == 1
            &&& !has_name(ps, e.0.name@) ==> exists|k: int| 0 <= k < missing.len() && same_edge(#[trigger] missing[k], e)
                && reports_missing(after.problems@[before.problems@.len() + k], missing[k], ps)
        }),
{
    let ps = before.packages@;
    let dep = ps[s].versions@[v].runtime@[j];
    let e = dep_edges(dep, s as usize)[m];
    let all = all_edges(ps);
    let d = dedup_edges(all);
    lemma_in_all_edges(ps, s, v, j, m);
    let idx = choose|idx: int| 0 <= idx < all.len() && #[trigger] all[idx] == e;
    lemma_dedup_covers(all, idx);
    let k = choose|k: int| 0 <= k < d.len() && same_edge(#[trigger] d[k], all[idx]);
    assert(d[k].0.name@ == e.0.name@);
    if has_name(ps, e.0.name@) {
        let t = index_of_name(ps, e.0.name@);
        lemma_edges_to_holds(ps, d, k);
        if one_identity(all, e) {
            lemma_dedup_distinct(all);
            lemma_dedup_from(all);
            assert forall|y: int| 0 <= y < d.len() && (#[trigger] d[y]).0.name@ == d[k].0.name@ && d[y].1 == d[k].1
                implies d[y].0.same(d[k].0) by {
                let z = choose|z: int| 0 <= z < all.len() && #[trigger] d[y] == all[z];
                assert(all[z].0.same(e.0));
            }
            lemma_edges_to_once(ps, d, k);
        }
        let x = choose|x: int| 0 <= x < edges_to(ps, d, t).len() && edges_to(ps, d, t)[x] == d[k].1;
        let a = ps[t].runtime_dependents@;
        assert(after.packages@[t].runtime_dependents@ == a + edges_to(ps, d, t));
        assert(after.packages@[t].runtime_dependents@[a.len() + x] == e.1);
    } else {
        lemma_unresolved_holds(ps, d, k);
        let missing = unresolved(ps, d);
        let x = choose|x: int| 0 <= x < missing.len() && #[trigger] missing[x] == d[k];
        assert(same_edge(missing[x], e));
        assert(reports_missing(after.problems@[before.problems@.len() + x], missing[x], ps));
    }
}

impl Components {
    /// `after` is this registry with the reverse edges of every runtime
    /// dependency distributed: each distinct edge recorded at its target, or
    /// reported where the target does not exist.
    pub open spec fn distributed(&self, after: Components) -> bool {
        let ps = self.packages@;
        let d = dedup_edges(all_edges(ps));
        let missing = unresolved(ps, d);
        &&& after.components == self.components
        &&& after.packages@.len() == ps.len()
        &&& forall|t: int| 0 <= t < ps.len() ==> (#[trigger] after.packages@[t]) == (Package {
            runtime_dependents: after.packages@[t].runtime_dependents, ..ps[t] })
        &&& forall|t: int| 0 <= t < ps.len() ==> (#[trigger] after.packages@[t]).runtime_dependents@
            == ps[t].runtime_dependents@ + edges_to(ps, d, t)
        &&& after.problems@.len() == self.problems@.len() + missing.len()
        &&& after.problems@.take(self.problems@.len() as int) == self.problems@
        &&& forall|k: int| 0 <= k < missing.len() ==> reports_missing(#[trigger] after.problems@[self.problems@.len() + k], missing[k], ps)
    }

    fn missing_report(&self, e: &Edge) -> (r: Problem)
        requires
            e.1.source_spec() < self.packages@.len(),
        ensures
            reports_missing(r, *e, self.packages@),
    {
        let f = &e.0;
        let d = match e.1 {
            RevDependType::Require(_) => DependTypes::Require(f.copy()),
            RevDependType::Optional(_) => DependTypes::Optional(f.copy()),
            RevDependType::Incorporate(_) => DependTypes::Incorporate(f.copy()),
            RevDependType::RequireAny(_) => {
                let mut l: Vec<Fmri> = Vec::new();
                l.push(f.copy());
                proof {
                    assert(l@ =~= seq![*f]);
                }
                DependTypes::RequireAny(l)
            },
            RevDependType::ConditionalFmri(_) => DependTypes::Conditional(f.copy(), placeholder()),
            RevDependType::ConditionalPredicate(_) => DependTypes::Conditional(placeholder(), f.copy()),
            RevDependType::Group(_) => DependTypes::Group(f.copy()),
        };
        let src = &self.packages[e.1.source()];
        if src.renamed {
            Problem::NonExistingRequiredByRenamed(d, DependencyTypes::Runtime, src.fmri.copy())
        } else {
            Problem::NonExistingRequired(d, DependencyTypes::Runtime, Some(src.fmri.copy()), None)
        }
    }

    /// Records the reverse edge of every runtime dependency at the package it
    /// names, each distinct edge once; an edge whose target does not exist is
    /// reported instead.
    pub fn distribute_reverse_runtime_dependencies(&mut self)
        requires
            old(self).wf(),
        ensures
            final(self).wf(),
            old(self).distributed(*final(self)),
    {
        let all = collect_edges(&self.packages);
        let d = dedup(&all);
        let ghost ps = self.packages@;
        let ghost np = ps.len() as int;
        proof {
            lemma_all_edges_sources(ps);
            lemma_dedup_from(all@);
            assert forall|k: int| 0 <= k < d@.len() implies (#[trigger] d@[k]).1.source_spec() < np by {
                let j = choose|j: int| 0 <= j < all@.len() && #[trigger] d@[k] == all@[j];
                assert(all@[j].1.source_spec() < np);
            }
            assert(d@.take(0) =~= Seq::<Edge>::empty());
            assert forall|t: int| 0 <= t < np implies (#[trigger] self.packages@[t]).runtime_dependents@
                =~= ps[t].runtime_dependents@ + edges_to(ps, d@.take(0), t) by {}
        }
        let mut k: usize = 0;
        while k < d.len()
            invariant
                old(self).wf(),
                ps == old(self).packages@,
                np == ps.len(),
                d@ == dedup_edges(all_edges(ps)),
                forall|j: int| 0 <= j < d@.len() ==> (#[trigger] d@[j]).1.source_spec() < np,
                k <= d@.len(),
                self.wf(),
                self.components == old(self).components,
                self.packages@.len() == np,
                forall|t: int| 0 <= t < np ==> (#[trigger] self.packages@[t]) == (Package {
                    runtime_dependents: self.packages@[t].runtime_dependents, ..ps[t] }),
                forall|t: int| 0 <= t < np ==> (#[trigger] self.packages@[t]).runtime_dependents@
                    == ps[t].runtime_dependents@ + edges_to(ps, d@.take(k as int), t),
                self.problems@.len() == old(self).problems@.len() + unresolved(ps, d@.take(k as int)).len(),
                forall|j: int| 0 <= j < old(self).problems@.len() ==> self.problems@[j] == old(self).problems@[j],
                forall|j: int| 0 <= j < unresolved(ps, d@.take(k as int)).len() ==> reports_missing(
                    #[trigger] self.problems@[old(self).problems@.len() + j], unresolved(ps, d@.take(k as int))[j], ps),
            decreases d@.len() - k,
        {
            let e = &d[k];
            proof {
                assert(d@.take(k as int + 1).drop_last() =~= d@.take(k as int));
                assert(names_unique(self.packages@));
            }
            match crate::components::find_by_name(&self.packages, &e.0.name) {
                Some(t) => {
                    let ghost before = *self;
                    self.packages[t].runtime_dependents.push(e.1);
                    proof {
                        assert(has_name(ps, e.0.name@)) by {
                            assert(ps[t as int].fmri.name@ == e.0.name@);
                        }
                        assert(index_of_name(ps, e.0.name@) == t as int) by {
                            let q = index_of_name(ps, e.0.name@);
                            assert(before.packages@[q].fmri.name@ == e.0.name@);
                        }
                        assert forall|x: int| 0 <= x < np implies (#[trigger] self.packages@[x]).runtime_dependents@
                            == ps[x].runtime_dependents@ + edges_to(ps, d@.take(k as int + 1), x) by {
                            if x == t as int {
                                assert(ps[x].runtime_dependents@ + edges_to(ps, d@.take(k as int), x).push(e.1)
                                    =~= (ps[x].runtime_dependents@ + edges_to(ps, d@.take(k as int), x)).push(e.1));
                            } else {
                                assert(before.packages@[x] == self.packages@[x]);
                            }
                        }
                        assert(unresolved(ps, d@.take(k as int + 1)) == unresolved(ps, d@.take(k as int)));
                        let nc = self.components@.len() as int;
                        assert forall|x: int| 0 <= x < np implies Components::package_links_ok(#[trigger] self.packages@[x], np, nc) by {
                            assert(Components::package_links_ok(before.packages@[x], np, nc));
                            if x == t as int {
                                let a = self.packages@[x].runtime_dependents@;
                                assert forall|m: int| 0 <= m < a.len() implies (#[trigger] a[m]).source_spec() < np by {
                                    if m < a.len() - 1 {
                                        assert(a[m] == before.packages@[x].runtime_dependents@[m]);
                                    }
                                }
                            }
                        }
                        assert forall|a: int, b: int| 0 <= a < np && 0 <= b < np && a != b
                            implies (#[trigger] self.packages@[a]).fmri.name@ != (#[trigger] self.packages@[b]).fmri.name@ by {
                            assert(before.packages@[a].fmri.name@ != before.packages@[b].fmri.name@);
                        }
                        assert forall|x: int| 0 <= x < np implies (#[trigger] self.packages@[x]).versions@.len() >= 1 by {
                            assert(before.packages@[x].versions@.len() >= 1);
                        }
                    }
                },
                None => {
                    let p = self.missing_report(e);
                    let ghost before = *self;
                    self.problems.add_problem(p);
                    proof {
                        assert(!has_name(ps, e.0.name@)) by {
                            if has_name(ps, e.0.name@) {
                                let q = index_of_name(ps, e.0.name@);
                                assert(before.packages@[q].fmri.name@ == e.0.name@);
                            }
                        }
                        assert(unresolved(ps, d@.take(k as int + 1)) == unresolved(ps, d@.take(k as int)).push(*e));
                        assert forall|x: int| 0 <= x < np implies (#[trigger] self.packages@[x]).runtime_dependents@
                            == ps[x].runtime_dependents@ + edges_to(ps, d@.take(k as int + 1), x) by {
                            assert(edges_to(ps, d@.take(k as int + 1), x) == edges_to(ps, d@.take(k as int), x));
                        }
                    }
                },
            }
            k += 1;
        }
        proof {
            assert(d@.take(d@.len() as int) =~= d@);
            assert(self.problems@.take(old(self).problems@.len() as int) =~= old(self).problems@);
        }
    }
}

} // verus!
