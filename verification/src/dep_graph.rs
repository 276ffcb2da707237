//! A graph of binary packages and the relations between them: which
//! packages satisfy a dependency, and which names a set of packages leans on.

use vstd::prelude::*;

use crate::arch::Arch;
use crate::deps::{
    comparable_version, compare_versions, constraint_holds, debian_version_order, ConstraintOperator, Dependency,
    SingleDependency, VersionOrder,
};
use crate::error::Error;
use crate::package::{Package, PackageType};
use crate::text::str_eq;

verus! {

/// A package's position in the graph.
pub type Id = usize;

/// A package and the packages that satisfy one of its relations.
pub type Edge = (Id, Vec<Id>);

// ---------------------------------------------------------------------------
// Whether a package satisfies a dependency.

/// The versions a dependency constrains to can be compared.
pub open spec fn dep_comparable(d: SingleDependency) -> bool {
    forall|k: int|
        0 <= k < d.version_constraints@.len() ==> comparable_version(
            #[trigger] d.version_constraints@[k].version@,
        )
}

/// A name, architectures and version meet a dependency: the name is the
/// dependency's, its architecture (unless `any`) is among them, and every
/// version constraint holds.
pub open spec fn values_match(d: SingleDependency, name: Seq<char>, arches: Seq<Arch>, version: Seq<char>) -> bool {
    &&& d.package@ == name
    &&& match d.arch {
        Some(a) => (a.spec_kernel() is None && a.spec_cpu() is None) || arches.contains(a),
        None => true,
    }
    &&& forall|k: int|
        0 <= k < d.version_constraints@.len() ==> constraint_holds(
            (#[trigger] d.version_constraints@[k]).spec(),
            version,
        )
}

/// A dependency on an explicit `any` architecture (no kernel and no cpu
/// fixed) is met exactly where the same dependency without an architecture
/// is, whatever the architectures offered.
pub proof fn law_any_arch_is_no_arch(d: SingleDependency, name: Seq<char>, arches: Seq<Arch>, version: Seq<char>, p: Package)
    requires
        d.arch is Some,
        d.arch->0.spec_kernel() is None,
        d.arch->0.spec_cpu() is None,
    ensures
        values_match(d, name, arches, version) == values_match(SingleDependency { arch: None, ..d }, name, arches, version),
        satisfies_spec(p, d) == satisfies_spec(p, SingleDependency { arch: None, ..d }),
{
    let e = SingleDependency { arch: None, ..d };
    assert forall|k: int| 0 <= k < provides_of(p).len() implies values_match(
        d,
        (#[trigger] provides_of(p)[k]).alternate@[0].package@,
        p.arches@,
        provided_version(p, provides_of(p)[k]),
    ) == values_match(e, provides_of(p)[k].alternate@[0].package@, p.arches@, provided_version(p, provides_of(p)[k])) by {}
}

/// A dependency with a fixed architecture (a kernel or a cpu) is met only
/// by names offered for that architecture; one without is met regardless
/// of architecture.
pub proof fn law_arch_qualifier(d: SingleDependency, name: Seq<char>, arches: Seq<Arch>, version: Seq<char>)
    ensures
        d.arch is Some && !(d.arch->0.spec_kernel() is None && d.arch->0.spec_cpu() is None)
            && values_match(d, name, arches, version) ==> arches.contains(d.arch->0),
        d.arch is None ==> values_match(d, name, arches, version) == values_match(d, name, Seq::empty(), version),
{
}

/// The provides of a binary package.
pub open spec fn provides_of(p: Package) -> Seq<Dependency> {
    match p.style {
        PackageType::Binary(b) => b.provides@,
        PackageType::Source(_) => Seq::empty(),
    }
}

/// The version a provided name comes with: its `=` constraint, else the
/// package's own version.
pub open spec fn provided_version(p: Package, pr: Dependency) -> Seq<char> {
    let a = pr.alternate@[0];
    if a.version_constraints@.len() == 0 {
        p.version@
    } else {
        a.version_constraints@[0].version@
    }
}

/// A binary package whose provides each name one package, with no
/// architecture and at most one version, given with `=`; versions can be compared.
pub open spec fn provides_ok(p: Package) -> bool {
    &&& p.style is Binary
    &&& forall|k: int|
        0 <= k < provides_of(p).len() ==> {
            let a = (#[trigger] provides_of(p)[k]).alternate@;
            &&& a.len() == 1
            &&& a[0].arch is None
            &&& a[0].version_constraints@.len() <= 1
            &&& a[0].version_constraints@.len() == 1 ==> a[0].version_constraints@[0].operator
                == ConstraintOperator::Eq
            &&& comparable_version(provided_version(p, provides_of(p)[k]))
        }
}

/// One of the package's provides meets the dependency.
pub open spec fn provides_match(d: SingleDependency, p: Package) -> bool {
    exists|k: int|
        0 <= k < provides_of(p).len() && values_match(
            d,
            (#[trigger] provides_of(p)[k]).alternate@[0].package@,
            p.arches@,
            provided_version(p, provides_of(p)[k]),
        )
}

/// A package satisfies a dependency itself or through what it provides.
pub open spec fn satisfies_spec(p: Package, d: SingleDependency) -> bool {
    values_match(d, p.name@, p.arches@, p.version@) || provides_match(d, p)
}

/// The inputs on which the check can be made: versions that can be
/// compared; a package that does not match by itself is a binary package
/// with well-formed provides; a
/// dependency that is met has no architecture or stage filter (those are not
/// understood).
pub open spec fn can_check(p: Package, d: SingleDependency) -> bool {
    &&& dep_comparable(d)
    &&& comparable_version(p.version@)
    &&& !values_match(d, p.name@, p.arches@, p.version@) ==> provides_ok(p)
    &&& satisfies_spec(p, d) ==> d.arch_filter@.len() == 0 && d.stage_filter@.len() == 0
}

fn contains_arch(arches: &Vec<Arch>, a: Arch) -> (r: bool)
    ensures
        r == arches@.contains(a),
{
    let mut k: usize = 0;
    while k < arches.len()
        invariant
            k <= arches@.len(),
            forall|m: int| 0 <= m < k ==> arches@[m] != a,
        decreases arches@.len() - k,
    {
        if arches[k] == a {
            assert(arches@[k as int] == a);
            return true;
        }
        k = k + 1;
    }
    false
}

/// Whether a name, architectures and version meet a dependency.
pub fn satisfies_values(d: &SingleDependency, name: &str, arches: &Vec<Arch>, version: &str) -> (r: bool)
    requires
        dep_comparable(*d),
        comparable_version(version@),
    ensures
        r == values_match(*d, name@, arches@, version@),
{
    if !str_eq(d.package.as_str(), name) {
        return false;
    }
    if let Some(arch) = d.arch {
        if !arch.is_any() && !contains_arch(arches, arch) {
            return false;
        }
    }
    let mut k: usize = 0;
    while k < d.version_constraints.len()
        invariant
            k <= d.version_constraints@.len(),
            dep_comparable(*d),
            comparable_version(version@),
            forall|m: int|
                0 <= m < k ==> constraint_holds(
                    (#[trigger] d.version_constraints@[m]).spec(),
                    version@,
                ),
        decreases d.version_constraints@.len() - k,
    {
        let c = &d.version_constraints[k];
        assert(comparable_version(d.version_constraints@[k as int].version@));
        if !c.satisfied_by(version) {
            return false;
        }
        k = k + 1;
    }
    true
}

/// Whether one of a package's provides meets a dependency.
pub fn provides_satisfies(d: &SingleDependency, package: &Package) -> (r: bool)
    requires
        dep_comparable(*d),
        provides_ok(*package),
    ensures
        r == provides_match(*d, *package),
{
    let bin = package.bin().unwrap();
    let provides = &bin.provides;
    assert(provides@ == provides_of(*package));
    let mut k: usize = 0;
    while k < provides.len()
        invariant
            k <= provides@.len(),
            provides@ == provides_of(*package),
            dep_comparable(*d),
            provides_ok(*package),
            forall|m: int|
                0 <= m < k ==> !values_match(
                    *d,
                    (#[trigger] provides_of(*package)[m]).alternate@[0].package@,
                    package.arches@,
                    provided_version(*package, provides_of(*package)[m]),
                ),
        decreases provides@.len() - k,
    {
        let pr = &provides[k];
        assert(pr.alternate@.len() == 1);
        let p = &pr.alternate[0];
        let version: &str = if p.version_constraints.len() == 0 {
            package.version.as_str()
        } else {
            p.version_constraints[0].version.as_str()
        };
        assert(version@ == provided_version(*package, provides_of(*package)[k as int]));
        if satisfies_values(d, p.package.as_str(), &package.arches, version) {
            return true;
        }
        k = k + 1;
    }
    false
}

/// Whether a package satisfies a dependency, itself or through what it provides.
pub fn satisfies(p: &Package, d: &SingleDependency) -> (r: bool)
    requires
        can_check(*p, *d),
    ensures
        r == satisfies_spec(*p, *d),
{
    if !satisfies_values(d, p.name.as_str(), &p.arches, p.version.as_str()) && !provides_satisfies(
        d,
        p,
    ) {
        return false;
    }
    true
}

// ---------------------------------------------------------------------------
// The graph.

/// Two packages are the same release of a package: same name, version and
/// architectures.
pub open spec fn same_key(a: Package, b: Package) -> bool {
    a.name@ == b.name@ && a.version@ == b.version@ && a.arches@.to_set() == b.arches@.to_set()
}

/// The last package before `j` (and after `i`) with the key of package `i`,
/// else `i`.
pub open spec fn canon_below(ps: Seq<Package>, i: int, j: int) -> int
    decreases j - i,
{
    if j <= i + 1 {
        i
    } else if same_key(ps[j - 1], ps[i]) {
        j - 1
    } else {
        canon_below(ps, i, j - 1)
    }
}

/// The id by which package `i` is known: that of the last package inserted
/// with its key.
pub open spec fn canon(ps: Seq<Package>, i: int) -> int {
    canon_below(ps, i, ps.len() as int)
}

/// Some package before `jj` known by id `c` satisfies one of the alternatives.
pub open spec fn hit_before(ps: Seq<Package>, alts: Seq<SingleDependency>, c: int, jj: int) -> bool {
    exists|j: int, a: int|
        0 <= j < jj && 0 <= a < alts.len() && canon(ps, j) == c && #[trigger] satisfies_spec(
            ps[j],
            alts[a],
        )
}

/// The ids of the packages that satisfy one of the alternatives.
pub open spec fn flat_set(ps: Seq<Package>, alts: Seq<SingleDependency>) -> Set<int> {
    Set::new(|c: int| hit_before(ps, alts, c, ps.len() as int))
}

/// `v` lists the set `s` in increasing order, each element once.
pub open spec fn sorted_listing(v: Seq<usize>, s: Set<int>) -> bool {
    &&& forall|a: int, b: int| 0 <= a < b < v.len() ==> #[trigger] v[a] < #[trigger] v[b]
    &&& forall|c: int| s.contains(c) <==> exists|k: int| 0 <= k < v.len() && #[trigger] v[k] == c
}

/// Every package can be checked against every alternative.
pub open spec fn all_checkable(ps: Seq<Package>, alts: Seq<SingleDependency>) -> bool {
    forall|j: int, a: int|
        0 <= j < ps.len() && 0 <= a < alts.len() ==> #[trigger] can_check(ps[j], alts[a])
}

/// Packages in insertion order; a package is known by the id of the last
/// package inserted with the same name, version and architectures.
pub struct DepGraph {
    packages: Vec<Package>,
}

impl DepGraph {
    pub closed spec fn packages(&self) -> Seq<Package> {
        self.packages@
    }

    /// An empty graph.
    pub fn new() -> (r: DepGraph)
        ensures
            r.packages() == Seq::<Package>::empty(),
    {
        DepGraph { packages: Vec::new() }
    }

    /// Add a package.
    pub fn insert(&mut self, package: Package) -> (r: Result<(), Error>)
        ensures
            r is Ok,
            final(self).packages() == old(self).packages().push(package),
    {
        self.packages.push(package);
        Ok(())
    }

    /// The package at `id`.
    pub fn get(&self, id: Id) -> (r: &Package)
        requires
            id < self.packages().len(),
        ensures
            *r == self.packages()[id as int],
    {
        &self.packages[id]
    }

    /// The ids of all packages, in order.
    pub fn iter(&self) -> (r: Vec<Id>)
        ensures
            r@.len() == self.packages().len(),
            forall|i: int| 0 <= i < r@.len() ==> #[trigger] r@[i] == i,
    {
        let mut out: Vec<Id> = Vec::new();
        let mut k: usize = 0;
        while k < self.packages.len()
            invariant
                k <= self.packages@.len(),
                out@.len() == k,
                forall|i: int| 0 <= i < k ==> #[trigger] out@[i] == i,
            decreases self.packages@.len() - k,
        {
            out.push(k);
            k = k + 1;
        }
        out
    }

    /// The id package `i` is known by.
    pub fn id_of(&self, i: usize) -> (r: Id)
        requires
            i < self.packages().len(),
        ensures
            r == canon(self.packages(), i as int),
            i <= r < self.packages().len(),
    {
        let mut j = self.packages.len();
        while j > i + 1
            invariant
                i < j <= self.packages@.len(),
                canon(self.packages@, i as int) == canon_below(self.packages@, i as int, j as int),
            decreases j,
        {
            if same_key_of(&self.packages[j - 1], &self.packages[i]) {
                return j - 1;
            }
            j = j - 1;
        }
        i
    }

    /// The ids of the packages satisfying one of the alternatives, in
    /// increasing order, each once.
    pub fn flatten(&self, d: &[SingleDependency]) -> (r: Vec<Id>)
        requires
            all_checkable(self.packages(), d@),
        ensures
            sorted_listing(r@, flat_set(self.packages(), d@)),
    {
        let ps = &self.packages;
        let n = ps.len();
        let mut marks: Vec<bool> = Vec::new();
        let mut c: usize = 0;
        while c < n
            invariant
                c <= n,
                n == ps@.len(),
                marks@.len() == c,
                forall|x: int| 0 <= x < c ==> !#[trigger] marks@[x],
            decreases n - c,
        {
            marks.push(false);
            c = c + 1;
        }
        let mut j: usize = 0;
        while j < n
            invariant
                j <= n,
                n == ps@.len(),
                ps@ == self.packages(),
                all_checkable(ps@, d@),
                marks@.len() == n,
                forall|x: int| 0 <= x < n ==> #[trigger] marks@[x] == hit_before(ps@, d@, x, j as int),
            decreases n - j,
        {
            let id = self.id_of(j);
            let mut a: usize = 0;
            while a < d.len()
                invariant
                    a <= d@.len(),
                    j < n,
                    n == ps@.len(),
                    ps@ == self.packages(),
                    all_checkable(ps@, d@),
                    id == canon(ps@, j as int),
                    id < n,
                    marks@.len() == n,
                    forall|x: int|
                        0 <= x < n ==> #[trigger] marks@[x] == (hit_before(ps@, d@, x, j as int) || (
                        x == id && exists|b: int|
                            0 <= b < a && #[trigger] satisfies_spec(ps@[j as int], d@[b]))),
                decreases d@.len() - a,
            {
                assert(can_check(ps@[j as int], d@[a as int]));
                if satisfies(&ps[j], &d[a]) {
                    marks.set(id, true);
                }
                proof {
                    assert forall|x: int| 0 <= x < n implies #[trigger] marks@[x] == (hit_before(
                        ps@,
                        d@,
                        x,
                        j as int,
                    ) || (x == id && exists|b: int|
                        0 <= b < a + 1 && #[trigger] satisfies_spec(ps@[j as int], d@[b]))) by {
                        if x == id && satisfies_spec(ps@[j as int], d@[a as int]) {
                            assert(0 <= a < a + 1);
                        }
                    }
                }
                a = a + 1;
            }
            proof {
                assert forall|x: int| 0 <= x < n implies #[trigger] marks@[x] == hit_before(
                    ps@,
                    d@,
                    x,
                    j + 1,
                ) by {
                    if hit_before(ps@, d@, x, j + 1) && !hit_before(ps@, d@, x, j as int) {
                        let (jw, aw) = choose|jw: int, aw: int|
                            0 <= jw < j + 1 && 0 <= aw < d@.len() && canon(ps@, jw) == x
                                && #[trigger] satisfies_spec(ps@[jw], d@[aw]);
                        assert(jw == j);
                    }
                    if x == id && exists|b: int|
                        0 <= b < d@.len() && #[trigger] satisfies_spec(ps@[j as int], d@[b]) {
                        let b = choose|b: int|
                            0 <= b < d@.len() && #[trigger] satisfies_spec(ps@[j as int], d@[b]);
                        assert(0 <= j < j + 1 && canon(ps@, j as int) == x);
                    }
                }
            }
            j = j + 1;
        }
        let mut out: Vec<Id> = Vec::new();
        let mut c: usize = 0;
        while c < n
            invariant
                c <= n,
                n == ps@.len(),
                marks@.len() == n,
                forall|x: int| 0 <= x < n ==> #[trigger] marks@[x] == hit_before(ps@, d@, x, n as int),
                forall|a: int, b: int| 0 <= a < b < out@.len() ==> #[trigger] out@[a] < #[trigger] out@[b],
                forall|k: int| 0 <= k < out@.len() ==> #[trigger] out@[k] < c,
                forall|x: int|
                    0 <= x < c ==> (marks@[x] <==> exists|k: int| 0 <= k < out@.len() && #[trigger] out@[k] == x),
                forall|k: int| 0 <= k < out@.len() ==> marks@[#[trigger] out@[k] as int],
            decreases n - c,
        {
            let ghost before = out@;
            if marks[c] {
                out.push(c);
            }
            proof {
                assert forall|x: int|
                    0 <= x < c + 1 implies (marks@[x] <==> exists|k: int|
                    0 <= k < out@.len() && #[trigger] out@[k] == x) by {
                    if x < c {
                        if marks@[x] {
                            let k = choose|k: int| 0 <= k < before.len() && #[trigger] before[k] == x;
                            assert(out@[k] == x);
                        }
                        if exists|k: int| 0 <= k < out@.len() && #[trigger] out@[k] == x {
                            let k = choose|k: int| 0 <= k < out@.len() && #[trigger] out@[k] == x;
                            if k < before.len() {
                                assert(before[k] == x);
                            } else {
                                assert(out@[k] == c);
                            }
                        }
                    } else {
                        if marks@[x] {
                            assert(out@[before.len() as int] == x);
                        }
                        if exists|k: int| 0 <= k < out@.len() && #[trigger] out@[k] == x {
                            let k = choose|k: int| 0 <= k < out@.len() && #[trigger] out@[k] == x;
                            if k < before.len() {
                                assert(before[k] < c);
                            }
                        }
                    }
                }
            }
            c = c + 1;
        }
        proof {
            let s = flat_set(ps@, d@);
            assert forall|x: int| s.contains(x) <==> exists|k: int| 0 <= k < out@.len() && #[trigger] out@[k] == x by {
                if s.contains(x) {
                    let (jw, aw) = choose|jw: int, aw: int|
                        0 <= jw < n && 0 <= aw < d@.len() && canon(ps@, jw) == x
                            && #[trigger] satisfies_spec(ps@[jw], d@[aw]);
                    lemma_canon_bounds(ps@, jw);
                    assert(marks@[x]);
                }
                if exists|k: int| 0 <= k < out@.len() && #[trigger] out@[k] == x {
                    let k = choose|k: int| 0 <= k < out@.len() && #[trigger] out@[k] == x;
                    assert(marks@[out@[k] as int]);
                }
            }
        }
        out
    }
}

/// The id of a package lies between it and the last package.
pub proof fn lemma_canon_bounds(ps: Seq<Package>, i: int)
    requires
        0 <= i < ps.len(),
    ensures
        i <= canon(ps, i) < ps.len(),
{
    lemma_canon_below_bounds(ps, i, ps.len() as int);
}

proof fn lemma_canon_below_bounds(ps: Seq<Package>, i: int, j: int)
    requires
        0 <= i < j,
    ensures
        i <= canon_below(ps, i, j) < j,
    decreases j - i,
{
    if j > i + 1 && !same_key(ps[j - 1], ps[i]) {
        lemma_canon_below_bounds(ps, i, j - 1);
    }
}

proof fn lemma_canon_below_last(ps: Seq<Package>, i: int, j: int)
    requires
        0 <= i < j <= ps.len(),
    ensures
        canon_below(ps, i, j) == i || (i < canon_below(ps, i, j) < j && same_key(
            ps[canon_below(ps, i, j)],
            ps[i],
        )),
        forall|m: int| canon_below(ps, i, j) < m < j && i < m ==> !same_key(#[trigger] ps[m], ps[i]),
    decreases j - i,
{
    if j > i + 1 && !same_key(ps[j - 1], ps[i]) {
        lemma_canon_below_last(ps, i, j - 1);
    }
}

proof fn lemma_canon_shared(ps: Seq<Package>, i: int, j: int)
    requires
        0 <= i < j < ps.len(),
        same_key(ps[j], ps[i]),
    ensures
        canon(ps, j) == canon(ps, i),
{
    let n = ps.len() as int;
    lemma_canon_below_last(ps, i, n);
    lemma_canon_below_last(ps, j, n);
    let ci = canon(ps, i);
    let cj = canon(ps, j);
    if ci < j {
        assert(!same_key(ps[j], ps[i]));
    }
    if ci > j {
        assert(same_key(ps[ci], ps[j]));
        if cj < ci {
            assert(!same_key(ps[ci], ps[j]));
        }
        if cj > ci {
            assert(same_key(ps[cj], ps[i]));
            assert(!same_key(ps[cj], ps[i]));
        }
    } else {
        if cj != j {
            assert(same_key(ps[cj], ps[j]));
            assert(!same_key(ps[cj], ps[i]));
        }
    }
}

/// What the lookup by name, version and architectures gives: a package is
/// known by the id of the last package inserted with its key, and packages
/// with the same key are known by the same id.
pub proof fn law_id_is_last_with_key(ps: Seq<Package>, i: int)
    requires
        0 <= i < ps.len(),
    ensures
        same_key(ps[canon(ps, i)], ps[i]),
        forall|k: int| canon(ps, i) < k < ps.len() ==> !same_key(#[trigger] ps[k], ps[i]),
        forall|j: int| 0 <= j < ps.len() && same_key(#[trigger] ps[j], ps[i]) ==> canon(ps, j) == canon(ps, i),
{
    lemma_canon_below_last(ps, i, ps.len() as int);
    lemma_canon_bounds(ps, i);
    assert forall|j: int| 0 <= j < ps.len() && same_key(#[trigger] ps[j], ps[i]) implies canon(ps, j) == canon(ps, i) by {
        if i < j {
            lemma_canon_shared(ps, i, j);
        } else if j < i {
            lemma_canon_shared(ps, j, i);
        }
    }
}

fn arches_within(a: &Vec<Arch>, b: &Vec<Arch>) -> (r: bool)
    ensures
        r == (forall|x: Arch| a@.contains(x) ==> b@.contains(x)),
{
    let mut k: usize = 0;
    while k < a.len()
        invariant
            k <= a@.len(),
            forall|m: int| 0 <= m < k ==> b@.contains(#[trigger] a@[m]),
        decreases a@.len() - k,
    {
        if !contains_arch(b, a[k]) {
            return false;
        }
        k = k + 1;
    }
    proof {
        assert forall|x: Arch| a@.contains(x) implies b@.contains(x) by {
            let m = choose|m: int| 0 <= m < a@.len() && a@[m] == x;
            assert(b@.contains(a@[m]));
        }
    }
    true
}

fn same_key_of(a: &Package, b: &Package) -> (r: bool)
    ensures
        r == same_key(*a, *b),
{
    let r = a.name == b.name && a.version == b.version && arches_within(&a.arches, &b.arches)
        && arches_within(&b.arches, &a.arches);
    proof {
        if a.name@ == b.name@ && a.version@ == b.version@ {
            if (forall|x: Arch| a.arches@.contains(x) ==> b.arches@.contains(x)) && (forall|x: Arch|
                b.arches@.contains(x) ==> a.arches@.contains(x)) {
                assert(a.arches@.to_set() =~= b.arches@.to_set());
            }
            if a.arches@.to_set() == b.arches@.to_set() {
                assert forall|x: Arch| a.arches@.contains(x) implies b.arches@.contains(x) by {
                    assert(a.arches@.to_set().contains(x));
                }
                assert forall|x: Arch| b.arches@.contains(x) implies a.arches@.contains(x) by {
                    assert(b.arches@.to_set().contains(x));
                }
            }
        }
    }
    r
}

// ---------------------------------------------------------------------------
// What each package's relations lead to.

/// The packages that satisfy each depends, recommends and suggests entry.
pub struct WhatKindaLeaves {
    pub depends: Vec<Edge>,
    pub recommended: Vec<Edge>,
    pub suggests: Vec<Edge>,
}

/// A relation of a binary package: 0 depends, 1 recommends, 2 suggests.
pub open spec fn relation_of(p: Package, which: int) -> Seq<Dependency> {
    match p.style {
        PackageType::Binary(b) => if which == 0 {
            b.depends@
        } else if which == 1 {
            b.recommended@
        } else {
            b.suggests@
        },
        PackageType::Source(_) => Seq::empty(),
    }
}

/// The edges of one relation of packages `i..`: for each entry, the id of
/// the package and the ids satisfying the entry.
pub open spec fn edges_from(ps: Seq<Package>, which: int, i: int) -> Seq<(int, Set<int>)>
    decreases ps.len() - i,
{
    if 0 <= i < ps.len() {
        let rel = relation_of(ps[i], which);
        Seq::new(rel.len(), |k: int| (canon(ps, i), flat_set(ps, rel[k].alternate@)))
            + edges_from(ps, which, i + 1)
    } else {
        Seq::empty()
    }
}

/// Edges as computed, against their model.
pub open spec fn edges_match(v: Seq<Edge>, e: Seq<(int, Set<int>)>) -> bool {
    &&& v.len() == e.len()
    &&& forall|k: int| 0 <= k < v.len() ==> #[trigger] v[k].0 == e[k].0 && sorted_listing(v[k].1@, e[k].1)
}

/// The graph's packages are binary packages whose relations can each be
/// checked against every package, and each depends entry is satisfied by
/// some package.
pub open spec fn what_kinda_ok(ps: Seq<Package>) -> bool {
    &&& forall|i: int| 0 <= i < ps.len() ==> (#[trigger] ps[i]).style is Binary
    &&& forall|i: int, w: int, k: int|
        0 <= i < ps.len() && 0 <= w < 3 && 0 <= k < relation_of(ps[i], w).len() ==> all_checkable(
            ps,
            (#[trigger] relation_of(ps[i], w)[k]).alternate@,
        )
    &&& forall|i: int, k: int|
        0 <= i < ps.len() && 0 <= k < relation_of(ps[i], 0).len() ==> flat_set(
            ps,
            (#[trigger] relation_of(ps[i], 0)[k]).alternate@,
        ) != Set::<int>::empty()
}

impl DepGraph {
    fn push_edges(&self, id: Id, deps: &Vec<Dependency>, out: &mut Vec<Edge>, Ghost(before): Ghost<Seq<(int, Set<int>)>>)
        requires
            edges_match(old(out)@, before),
            forall|k: int| 0 <= k < deps@.len() ==> all_checkable(self.packages(), (#[trigger] deps@[k]).alternate@),
        ensures
            edges_match(
                final(out)@,
                before + Seq::new(
                    deps@.len(),
                    |k: int| (id as int, flat_set(self.packages(), deps@[k].alternate@)),
                ),
            ),
            forall|k: int| 0 <= k < old(out)@.len() ==> #[trigger] final(out)@[k] == old(out)@[k],
            forall|k: int|
                old(out)@.len() <= k < final(out)@.len() ==> (flat_set(
                    self.packages(),
                    deps@[k - old(out)@.len()].alternate@,
                ) != Set::<int>::empty() ==> (#[trigger] final(out)@[k]).1@.len() > 0),
    {
        let ghost n0 = out@.len();
        let mut k: usize = 0;
        while k < deps.len()
            invariant
                k <= deps@.len(),
                out@.len() == n0 + k,
                n0 == old(out)@.len(),
                forall|x: int| 0 <= x < n0 ==> #[trigger] out@[x] == old(out)@[x],
                forall|k: int| 0 <= k < deps@.len() ==> all_checkable(self.packages(), (#[trigger] deps@[k]).alternate@),
                edges_match(
                    out@,
                    before + Seq::new(
                        k as nat,
                        |x: int| (id as int, flat_set(self.packages(), deps@[x].alternate@)),
                    ),
                ),
                forall|x: int|
                    n0 <= x < out@.len() ==> (flat_set(
                        self.packages(),
                        deps@[x - n0].alternate@,
                    ) != Set::<int>::empty() ==> (#[trigger] out@[x]).1@.len() > 0),
            decreases deps@.len() - k,
        {
            let flat = self.flatten(deps[k].alternate.as_slice());
            proof {
                let fs = flat_set(self.packages(), deps@[k as int].alternate@);
                if fs != Set::<int>::empty() {
                    if forall|c: int| !fs.contains(c) {
                        assert(fs =~= Set::<int>::empty());
                    }
                    let c = choose|c: int| fs.contains(c);
                    assert(exists|x: int| 0 <= x < flat@.len() && #[trigger] flat@[x] == c);
                }
            }
            let ghost e0 = before + Seq::new(
                k as nat,
                |x: int| (id as int, flat_set(self.packages(), deps@[x].alternate@)),
            );
            out.push((id, flat));
            proof {
                let e1 = before + Seq::new(
                    (k + 1) as nat,
                    |x: int| (id as int, flat_set(self.packages(), deps@[x].alternate@)),
                );
                assert(e1 =~= e0.push((id as int, flat_set(self.packages(), deps@[k as int].alternate@))));
            }
            k = k + 1;
        }
    }

    /// For every package (in order) and each of its depends, recommends and
    /// suggests entries, the package's id and the ids that satisfy the entry.
    pub fn what_kinda(&self) -> (r: WhatKindaLeaves)
        requires
            what_kinda_ok(self.packages()),
        ensures
            edges_match(r.depends@, edges_from(self.packages(), 0, 0)),
            edges_match(r.recommended@, edges_from(self.packages(), 1, 0)),
            edges_match(r.suggests@, edges_from(self.packages(), 2, 0)),
            forall|k: int| 0 <= k < r.depends@.len() ==> (#[trigger] r.depends@[k]).1@.len() > 0,
    {
        let ps = &self.packages;
        let mut depends: Vec<Edge> = Vec::new();
        let mut recommended: Vec<Edge> = Vec::new();
        let mut suggests: Vec<Edge> = Vec::new();
        let ghost mut e0: Seq<(int, Set<int>)> = Seq::empty();
        let ghost mut e1: Seq<(int, Set<int>)> = Seq::empty();
        let ghost mut e2: Seq<(int, Set<int>)> = Seq::empty();
        let mut i: usize = 0;
        assert(edges_from(ps@, 0, 0) =~= e0 + edges_from(ps@, 0, 0));
        assert(edges_from(ps@, 1, 0) =~= e1 + edges_from(ps@, 1, 0));
        assert(edges_from(ps@, 2, 0) =~= e2 + edges_from(ps@, 2, 0));
        while i < ps.len()
            invariant
                i <= ps@.len(),
                ps@ == self.packages(),
                what_kinda_ok(ps@),
                edges_match(depends@, e0),
                edges_match(recommended@, e1),
                edges_match(suggests@, e2),
                edges_from(ps@, 0, 0) == e0 + edges_from(ps@, 0, i as int),
                edges_from(ps@, 1, 0) == e1 + edges_from(ps@, 1, i as int),
                edges_from(ps@, 2, 0) == e2 + edges_from(ps@, 2, i as int),
                forall|k: int| 0 <= k < depends@.len() ==> (#[trigger] depends@[k]).1@.len() > 0,
            decreases ps@.len() - i,
        {
            let p = &ps[i];
            assert(p.style is Binary);
            let bin = p.bin().unwrap();
            let id = self.id_of(i);
            assert(relation_of(*p, 0) == bin.depends@);
            assert(relation_of(*p, 1) == bin.recommended@);
            assert(relation_of(*p, 2) == bin.suggests@);
            assert forall|k: int| 0 <= k < bin.depends@.len() implies all_checkable(self.packages(), (#[trigger] bin.depends@[k]).alternate@) by {
                assert(relation_of(ps@[i as int], 0)[k] == bin.depends@[k]);
            }
            assert forall|k: int| 0 <= k < bin.recommended@.len() implies all_checkable(self.packages(), (#[trigger] bin.recommended@[k]).alternate@) by {
                assert(relation_of(ps@[i as int], 1)[k] == bin.recommended@[k]);
            }
            assert forall|k: int| 0 <= k < bin.suggests@.len() implies all_checkable(self.packages(), (#[trigger] bin.suggests@[k]).alternate@) by {
                assert(relation_of(ps@[i as int], 2)[k] == bin.suggests@[k]);
            }
            let ghost d0 = depends@.len();
            self.push_edges(id, &bin.depends, &mut depends, Ghost(e0));
            proof {
                assert forall|k: int| 0 <= k < depends@.len() implies (#[trigger] depends@[k]).1@.len() > 0 by {
                    if k >= d0 {
                        assert(relation_of(ps@[i as int], 0)[k - d0] == bin.depends@[k - d0]);
                    }
                }
            }
            self.push_edges(id, &bin.recommended, &mut recommended, Ghost(e1));
            self.push_edges(id, &bin.suggests, &mut suggests, Ghost(e2));
            proof {
                let n0 = Seq::new(bin.depends@.len(), |k: int| (id as int, flat_set(ps@, bin.depends@[k].alternate@)));
                let n1 = Seq::new(bin.recommended@.len(), |k: int| (id as int, flat_set(ps@, bin.recommended@[k].alternate@)));
                let n2 = Seq::new(bin.suggests@.len(), |k: int| (id as int, flat_set(ps@, bin.suggests@[k].alternate@)));
                assert(edges_from(ps@, 0, i as int) == n0 + edges_from(ps@, 0, i + 1));
                assert(edges_from(ps@, 1, i as int) == n1 + edges_from(ps@, 1, i + 1));
                assert(edges_from(ps@, 2, i as int) == n2 + edges_from(ps@, 2, i + 1));
                assert(e0 + n0 + edges_from(ps@, 0, i + 1) =~= e0 + (n0 + edges_from(ps@, 0, i + 1)));
                assert(e1 + n1 + edges_from(ps@, 1, i + 1) =~= e1 + (n1 + edges_from(ps@, 1, i + 1)));
                assert(e2 + n2 + edges_from(ps@, 2, i + 1) =~= e2 + (n2 + edges_from(ps@, 2, i + 1)));
                e0 = e0 + n0;
                e1 = e1 + n1;
                e2 = e2 + n2;
            }
            i = i + 1;
        }
        assert(e0 + Seq::<(int, Set<int>)>::empty() =~= e0);
        assert(e1 + Seq::<(int, Set<int>)>::empty() =~= e1);
        assert(e2 + Seq::<(int, Set<int>)>::empty() =~= e2);
        WhatKindaLeaves { depends, recommended, suggests }
    }
}

// ---------------------------------------------------------------------------
// Looking packages up.

/// The ids of the packages `j..` that satisfy `d`, in package order.
pub open spec fn ids_from(ps: Seq<Package>, d: SingleDependency, j: int) -> Seq<int>
    decreases ps.len() - j,
{
    if 0 <= j < ps.len() {
        if satisfies_spec(ps[j], d) {
            seq![canon(ps, j)] + ids_from(ps, d, j + 1)
        } else {
            ids_from(ps, d, j + 1)
        }
    } else {
        Seq::empty()
    }
}

/// The package named `name` with the greatest version, `best` being the one
/// found before `j` (or -1): a later one wins unless the one found is greater.
pub open spec fn newest_from(ps: Seq<Package>, name: Seq<char>, j: int, best: int) -> int
    decreases ps.len() - j,
{
    if 0 <= j < ps.len() {
        if ps[j].name@ == name {
            if best >= 0 && debian_version_order(ps[best].version@, ps[j].version@)
                == VersionOrder::Greater {
                newest_from(ps, name, j + 1, best)
            } else {
                newest_from(ps, name, j + 1, j)
            }
        } else {
            newest_from(ps, name, j + 1, best)
        }
    } else {
        best
    }
}

impl DepGraph {
    /// The ids of the packages that satisfy `d`, in package order.
    pub fn ids(&self, d: &SingleDependency) -> (r: Vec<Id>)
        requires
            forall|j: int| 0 <= j < self.packages().len() ==> #[trigger] can_check(self.packages()[j], *d),
        ensures
            r@.len() == ids_from(self.packages(), *d, 0).len(),
            forall|k: int| 0 <= k < r@.len() ==> #[trigger] r@[k] == ids_from(self.packages(), *d, 0)[k],
    {
        let ps = &self.packages;
        let mut out: Vec<Id> = Vec::new();
        let mut j: usize = 0;
        while j < ps.len()
            invariant
                j <= ps@.len(),
                ps@ == self.packages(),
                forall|j: int| 0 <= j < ps@.len() ==> #[trigger] can_check(ps@[j], *d),
                ids_from(ps@, *d, 0) == Seq::new(out@.len(), |k: int| out@[k] as int) + ids_from(ps@, *d, j as int),
            decreases ps@.len() - j,
        {
            let ghost before = Seq::new(out@.len(), |k: int| out@[k] as int);
            if satisfies(&ps[j], d) {
                let id = self.id_of(j);
                out.push(id);
                assert(Seq::new(out@.len(), |k: int| out@[k] as int) =~= before.push(id as int));
                assert(before + (seq![id as int] + ids_from(ps@, *d, j + 1)) =~= before.push(id as int) + ids_from(ps@, *d, j + 1));
            }
            j = j + 1;
        }
        assert(Seq::new(out@.len(), |k: int| out@[k] as int) + Seq::<int>::empty() =~= Seq::new(out@.len(), |k: int| out@[k] as int));
        out
    }

    /// The package named `name` with the greatest version (of equal ones, the
    /// last inserted).
    pub fn find_named(&self, name: &str) -> (r: Id)
        requires
            exists|j: int| 0 <= j < self.packages().len() && #[trigger] self.packages()[j].name@ == name@,
            forall|j: int| 0 <= j < self.packages().len() && #[trigger] self.packages()[j].name@ == name@
                ==> comparable_version(self.packages()[j].version@),
        ensures
            r == newest_from(self.packages(), name@, 0, -1),
            r < self.packages().len(),
            self.packages()[r as int].name@ == name@,
    {
        let ps = &self.packages;
        let mut best: Option<usize> = None;
        let mut j: usize = 0;
        while j < ps.len()
            invariant
                j <= ps@.len(),
                ps@ == self.packages(),
                forall|j: int| 0 <= j < ps@.len() && #[trigger] ps@[j].name@ == name@ ==> comparable_version(ps@[j].version@),
                newest_from(ps@, name@, 0, -1) == newest_from(ps@, name@, j as int, match best {
                    Some(b) => b as int,
                    None => -1,
                }),
                match best {
                    Some(b) => b < j && ps@[b as int].name@ == name@,
                    None => forall|k: int| 0 <= k < j ==> ps@[k].name@ != name@,
                },
            decreases ps@.len() - j,
        {
            if str_eq(ps[j].name.as_str(), name) {
                match best {
                    Some(b) => {
                        if compare_versions(ps[b].version.as_str(), ps[j].version.as_str()) != VersionOrder::Greater {
                            best = Some(j);
                        }
                    },
                    None => {
                        best = Some(j);
                    },
                }
            }
            j = j + 1;
        }
        match best {
            Some(b) => b,
            None => {
                proof {
                    let k = choose|k: int| 0 <= k < self.packages().len() && #[trigger] self.packages()[k].name@ == name@;
                    assert(ps@[k].name@ != name@);
                }
                0
            },
        }
    }
}

// ---------------------------------------------------------------------------
// The names a set of packages leans on.

/// Which names the packages depend on, may depend on, recommend, and which
/// names they provide.
pub struct Leaves {
    /// Each provided name with the packages providing it.
    pub aliases: Vec<(String, Vec<String>)>,
    /// Essential packages and sole alternatives of depends.
    pub direct_dep: Vec<String>,
    /// Names among depends alternatives of two or more.
    pub maybe_dep: Vec<String>,
    /// Names recommended.
    pub recommended: Vec<String>,
}

/// Strings as a set of texts.
pub open spec fn name_set(v: Seq<String>) -> Set<Seq<char>> {
    Set::new(|s: Seq<char>| exists|k: int| 0 <= k < v.len() && #[trigger] v[k]@ == s)
}

/// No string occurs twice.
pub open spec fn no_dups(v: Seq<String>) -> bool {
    forall|a: int, b: int| 0 <= a < b < v.len() ==> #[trigger] v[a]@ != #[trigger] v[b]@
}

/// The binary fields of a binary package.
pub open spec fn bin_of(p: Package) -> crate::package::Binary {
    match p.style {
        PackageType::Binary(b) => b,
        PackageType::Source(_) => arbitrary(),
    }
}

/// The names of a list of alternatives, added to `s`.
pub open spec fn add_alts(s: Set<Seq<char>>, alts: Seq<SingleDependency>) -> Set<Seq<char>> {
    s + Set::new(|n: Seq<char>| exists|a: int| 0 <= a < alts.len() && #[trigger] alts[a].package@ == n)
}

/// What the first `k` depends of `p` (and, for `k == 0`, its being
/// essential) add to the direct dependencies.
pub open spec fn add_direct(s: Set<Seq<char>>, p: Package, k: int) -> Set<Seq<char>>
    decreases k,
{
    if k <= 0 {
        if bin_of(p).essential {
            s.insert(p.name@)
        } else {
            s
        }
    } else {
        let s1 = add_direct(s, p, k - 1);
        let d = bin_of(p).depends@[k - 1];
        if d.alternate@.len() == 1 {
            s1.insert(d.alternate@[0].package@)
        } else {
            s1
        }
    }
}

/// What the first `k` depends of `p` add to the possible dependencies.
pub open spec fn add_maybe(s: Set<Seq<char>>, p: Package, k: int) -> Set<Seq<char>>
    decreases k,
{
    if k <= 0 {
        s
    } else {
        let s1 = add_maybe(s, p, k - 1);
        let d = bin_of(p).depends@[k - 1];
        if d.alternate@.len() >= 2 {
            add_alts(s1, d.alternate@)
        } else {
            s1
        }
    }
}

/// What the first `k` recommends of `p` add to the recommended names.
pub open spec fn add_recommended(s: Set<Seq<char>>, p: Package, k: int) -> Set<Seq<char>>
    decreases k,
{
    if k <= 0 {
        s
    } else {
        add_alts(add_recommended(s, p, k - 1), bin_of(p).recommended@[k - 1].alternate@)
    }
}

/// `m` with `n` among the providers of `name`.
pub open spec fn add_alias(m: Map<Seq<char>, Set<Seq<char>>>, name: Seq<char>, n: Seq<char>) -> Map<Seq<char>, Set<Seq<char>>> {
    m.insert(name, (if m.contains_key(name) { m[name] } else { Set::empty() }).insert(n))
}

/// What the first `k` provides of `p` add to the aliases.
pub open spec fn add_provides(m: Map<Seq<char>, Set<Seq<char>>>, p: Package, k: int) -> Map<Seq<char>, Set<Seq<char>>>
    decreases k,
{
    if k <= 0 {
        m
    } else {
        add_alias(add_provides(m, p, k - 1), bin_of(p).provides@[k - 1].alternate@[0].package@, p.name@)
    }
}

pub open spec fn direct_upto(ps: Seq<Package>, i: int) -> Set<Seq<char>>
    decreases i,
{
    if i <= 0 {
        Set::empty()
    } else {
        add_direct(direct_upto(ps, i - 1), ps[i - 1], bin_of(ps[i - 1]).depends@.len() as int)
    }
}

pub open spec fn maybe_upto(ps: Seq<Package>, i: int) -> Set<Seq<char>>
    decreases i,
{
    if i <= 0 {
        Set::empty()
    } else {
        add_maybe(maybe_upto(ps, i - 1), ps[i - 1], bin_of(ps[i - 1]).depends@.len() as int)
    }
}

pub open spec fn recommended_upto(ps: Seq<Package>, i: int) -> Set<Seq<char>>
    decreases i,
{
    if i <= 0 {
        Set::empty()
    } else {
        add_recommended(recommended_upto(ps, i - 1), ps[i - 1], bin_of(ps[i - 1]).recommended@.len() as int)
    }
}

pub open spec fn aliases_upto(ps: Seq<Package>, i: int) -> Map<Seq<char>, Set<Seq<char>>>
    decreases i,
{
    if i <= 0 {
        Map::empty()
    } else {
        add_provides(aliases_upto(ps, i - 1), ps[i - 1], bin_of(ps[i - 1]).provides@.len() as int)
    }
}

/// The model of an alias list: each name with its providers.
pub open spec fn alias_map(v: Seq<(String, Vec<String>)>) -> Map<Seq<char>, Set<Seq<char>>> {
    Map::new(
        |k: Seq<char>| exists|i: int| 0 <= i < v.len() && #[trigger] v[i].0@ == k,
        |k: Seq<char>| name_set(v[choose|i: int| 0 <= i < v.len() && #[trigger] v[i].0@ == k].1@),
    )
}

/// An alias list has each name once, and each provider once per name.
pub open spec fn aliases_wf(v: Seq<(String, Vec<String>)>) -> bool {
    &&& forall|a: int, b: int| 0 <= a < b < v.len() ==> #[trigger] v[a].0@ != #[trigger] v[b].0@
    &&& forall|i: int| 0 <= i < v.len() ==> no_dups(#[trigger] v[i].1@)
}

/// The graph's packages are binary packages, each depends entry has an
/// alternative, and each provides entry names one package without an
/// architecture.
pub open spec fn leaves_ok(ps: Seq<Package>) -> bool {
    forall|i: int| 0 <= i < ps.len() ==> {
        &&& (#[trigger] ps[i]).style is Binary
        &&& forall|k: int| 0 <= k < bin_of(ps[i]).depends@.len() ==> (#[trigger] bin_of(ps[i]).depends@[k]).alternate@.len() > 0
        &&& forall|k: int| 0 <= k < bin_of(ps[i]).provides@.len() ==> {
            &&& (#[trigger] bin_of(ps[i]).provides@[k]).alternate@.len() == 1
            &&& bin_of(ps[i]).provides@[k].alternate@[0].arch is None
        }
    }
}

/// Add a string to a list of distinct strings unless present.
fn insert_name(v: &mut Vec<String>, s: &String)
    requires
        no_dups(old(v)@),
    ensures
        no_dups(final(v)@),
        name_set(final(v)@) == name_set(old(v)@).insert(s@),
{
    let mut k: usize = 0;
    while k < v.len()
        invariant
            k <= v@.len(),
            v@ == old(v)@,
            no_dups(v@),
            forall|m: int| 0 <= m < k ==> v@[m]@ != s@,
        decreases v@.len() - k,
    {
        if v[k] == *s {
            assert(name_set(v@).contains(s@));
            assert(name_set(v@).insert(s@) =~= name_set(v@));
            return;
        }
        k = k + 1;
    }
    let ghost before = v@;
    v.push(s.clone());
    assert(name_set(v@) =~= name_set(before).insert(s@)) by {
        assert forall|x: Seq<char>| name_set(v@).contains(x) == name_set(before).insert(s@).contains(x) by {
            if name_set(before).contains(x) {
                let m = choose|m: int| 0 <= m < before.len() && #[trigger] before[m]@ == x;
                assert(v@[m]@ == x);
            }
            if name_set(v@).contains(x) {
                let m = choose|m: int| 0 <= m < v@.len() && #[trigger] v@[m]@ == x;
                if m < before.len() {
                    assert(before[m]@ == x);
                }
            }
            if x == s@ {
                assert(v@[before.len() as int]@ == x);
            }
        }
    }
}

/// Add the names of some alternatives.
fn insert_alts(v: &mut Vec<String>, alts: &Vec<SingleDependency>)
    requires
        no_dups(old(v)@),
    ensures
        no_dups(final(v)@),
        name_set(final(v)@) == add_alts(name_set(old(v)@), alts@),
{
    let mut a: usize = 0;
    while a < alts.len()
        invariant
            a <= alts@.len(),
            no_dups(v@),
            name_set(v@) == add_alts(name_set(old(v)@), alts@.take(a as int)),
        decreases alts@.len() - a,
    {
        let ghost before = name_set(v@);
        insert_name(v, &alts[a].package);
        proof {
            let t = alts@.take(a + 1);
            assert(add_alts(name_set(old(v)@), t) =~= add_alts(name_set(old(v)@), alts@.take(a as int)).insert(alts@[a as int].package@)) by {
                assert forall|n: Seq<char>| add_alts(name_set(old(v)@), t).contains(n) == add_alts(name_set(old(v)@), alts@.take(a as int)).insert(alts@[a as int].package@).contains(n) by {
                    if exists|b: int| 0 <= b < t.len() && #[trigger] t[b].package@ == n {
                        let b = choose|b: int| 0 <= b < t.len() && #[trigger] t[b].package@ == n;
                        if b < a {
                            assert(alts@.take(a as int)[b].package@ == n);
                        }
                    }
                    if exists|b: int| 0 <= b < alts@.take(a as int).len() && #[trigger] alts@.take(a as int)[b].package@ == n {
                        let b = choose|b: int| 0 <= b < alts@.take(a as int).len() && #[trigger] alts@.take(a as int)[b].package@ == n;
                        assert(t[b].package@ == n);
                    }
                    if n == alts@[a as int].package@ {
                        assert(t[a as int].package@ == n);
                    }
                }
            }
        }
        a = a + 1;
    }
    assert(alts@.take(alts@.len() as int) =~= alts@);
}

proof fn lemma_alias_at(v: Seq<(String, Vec<String>)>, i: int)
    requires
        aliases_wf(v),
        0 <= i < v.len(),
    ensures
        alias_map(v).contains_key(v[i].0@),
        alias_map(v)[v[i].0@] == name_set(v[i].1@),
{
    let k = v[i].0@;
    assert(exists|j: int| 0 <= j < v.len() && #[trigger] v[j].0@ == k);
    let j = choose|j: int| 0 <= j < v.len() && #[trigger] v[j].0@ == k;
    if j != i {
        if j < i {
            assert(v[j].0@ != v[i].0@);
        } else {
            assert(v[i].0@ != v[j].0@);
        }
    }
}

fn copy_names(v: &Vec<String>) -> (r: Vec<String>)
    ensures
        r@ == v@,
{
    let mut out: Vec<String> = Vec::new();
    let mut k: usize = 0;
    while k < v.len()
        invariant
            k <= v@.len(),
            out@ == v@.take(k as int),
        decreases v@.len() - k,
    {
        out.push(v[k].clone());
        assert(out@ =~= v@.take(k + 1));
        k = k + 1;
    }
    assert(v@.take(v@.len() as int) =~= v@);
    out
}

/// Record `provider` among the providers of `name`.
fn insert_alias(v: &mut Vec<(String, Vec<String>)>, name: &String, provider: &String)
    requires
        aliases_wf(old(v)@),
    ensures
        aliases_wf(final(v)@),
        alias_map(final(v)@) == add_alias(alias_map(old(v)@), name@, provider@),
{
    let ghost m0 = alias_map(v@);
    let mut k: usize = 0;
    while k < v.len()
        invariant
            k <= v@.len(),
            v@ == old(v)@,
            m0 == alias_map(old(v)@),
            aliases_wf(v@),
            forall|m: int| 0 <= m < k ==> v@[m].0@ != name@,
        decreases v@.len() - k,
    {
        if v[k].0 == *name {
            let mut names = copy_names(&v[k].1);
            insert_name(&mut names, provider);
            let key = v[k].0.clone();
            let ghost before = v@;
            v.set(k, (key, names));
            proof {
                lemma_alias_at(before, k as int);
                assert forall|a: int, b: int| 0 <= a < b < v@.len() implies #[trigger] v@[a].0@ != #[trigger] v@[b].0@ by {
                    assert(before[a].0@ != before[b].0@);
                }
                assert forall|i: int| 0 <= i < v@.len() implies no_dups(#[trigger] v@[i].1@) by {
                    if i != k {
                        assert(no_dups(before[i].1@));
                    }
                }
                let m1 = alias_map(v@);
                let want = add_alias(m0, name@, provider@);
                assert forall|x: Seq<char>| m1.contains_key(x) == want.contains_key(x) by {
                    if want.contains_key(x) && x != name@ {
                        let j = choose|j: int| 0 <= j < before.len() && #[trigger] before[j].0@ == x;
                        assert(v@[j].0@ == x);
                    }
                    if m1.contains_key(x) {
                        let j = choose|j: int| 0 <= j < v@.len() && #[trigger] v@[j].0@ == x;
                        assert(before[j].0@ == x);
                    }
                    if x == name@ {
                        assert(v@[k as int].0@ == x);
                    }
                }
                assert forall|x: Seq<char>| #[trigger] m1.contains_key(x) implies m1[x] == want[x] by {
                    let j = choose|j: int| 0 <= j < v@.len() && #[trigger] v@[j].0@ == x;
                    lemma_alias_at(v@, j);
                    lemma_alias_at(before, j);
                }
                assert(m1 =~= want);
            }
            return;
        }
        k = k + 1;
    }
    let ghost before = v@;
    let mut names: Vec<String> = Vec::new();
    insert_name(&mut names, provider);
    v.push((name.clone(), names));
    proof {
        assert forall|a: int, b: int| 0 <= a < b < v@.len() implies #[trigger] v@[a].0@ != #[trigger] v@[b].0@ by {
            if b < before.len() {
                assert(before[a].0@ != before[b].0@);
            }
        }
        assert forall|i: int| 0 <= i < v@.len() implies no_dups(#[trigger] v@[i].1@) by {
            if i < before.len() {
                assert(no_dups(before[i].1@));
            }
        }
        assert(name_set(Seq::<String>::empty()) =~= Set::<Seq<char>>::empty());
        let m1 = alias_map(v@);
        let want = add_alias(m0, name@, provider@);
        assert(!m0.contains_key(name@));
        assert forall|x: Seq<char>| m1.contains_key(x) == want.contains_key(x) by {
            if want.contains_key(x) && x != name@ {
                let j = choose|j: int| 0 <= j < before.len() && #[trigger] before[j].0@ == x;
                assert(v@[j].0@ == x);
            }
            if m1.contains_key(x) {
                let j = choose|j: int| 0 <= j < v@.len() && #[trigger] v@[j].0@ == x;
                if j < before.len() {
                    assert(before[j].0@ == x);
                }
            }
            if x == name@ {
                assert(v@[before.len() as int].0@ == x);
            }
        }
        assert forall|x: Seq<char>| #[trigger] m1.contains_key(x) implies m1[x] == want[x] by {
            let j = choose|j: int| 0 <= j < v@.len() && #[trigger] v@[j].0@ == x;
            lemma_alias_at(v@, j);
            if j < before.len() {
                lemma_alias_at(before, j);
            }
        }
        assert(m1 =~= want);
    }
}

impl DepGraph {
    /// The names the packages depend on directly (essential packages, and
    /// depends with one alternative), may depend on (depends with several
    /// alternatives), recommend, and provide (with their providers).
    pub fn sloppy_leaves(&self) -> (r: Leaves)
        requires
            leaves_ok(self.packages()),
        ensures
            name_set(r.direct_dep@) == direct_names(self.packages()),
            name_set(r.maybe_dep@) == maybe_names(self.packages()),
            name_set(r.recommended@) == recommended_names(self.packages()),
            alias_map(r.aliases@) == provided_names(self.packages()),
            no_dups(r.direct_dep@),
            no_dups(r.maybe_dep@),
            no_dups(r.recommended@),
            aliases_wf(r.aliases@),
    {
        let ps = &self.packages;
        let mut direct_dep: Vec<String> = Vec::new();
        let mut maybe_dep: Vec<String> = Vec::new();
        let mut recommended: Vec<String> = Vec::new();
        let mut aliases: Vec<(String, Vec<String>)> = Vec::new();
        assert(name_set(direct_dep@) =~= Set::<Seq<char>>::empty());
        assert(alias_map(aliases@) =~= Map::<Seq<char>, Set<Seq<char>>>::empty());
        let mut i: usize = 0;
        while i < ps.len()
            invariant
                i <= ps@.len(),
                ps@ == self.packages(),
                leaves_ok(ps@),
                no_dups(direct_dep@),
                no_dups(maybe_dep@),
                no_dups(recommended@),
                aliases_wf(aliases@),
                name_set(direct_dep@) == direct_upto(ps@, i as int),
                name_set(maybe_dep@) == maybe_upto(ps@, i as int),
                name_set(recommended@) == recommended_upto(ps@, i as int),
                alias_map(aliases@) == aliases_upto(ps@, i as int),
            decreases ps@.len() - i,
        {
            let v = &ps[i];
            let ghost p = ps@[i as int];
            assert(v.style is Binary);
            let bin = v.bin().unwrap();
            assert(*bin == bin_of(p));
            let name = &v.name;
            if bin.essential {
                insert_name(&mut direct_dep, name);
            }
            assert(name_set(direct_dep@) == add_direct(direct_upto(ps@, i as int), p, 0));
            let mut k: usize = 0;
            while k < bin.provides.len()
                invariant
                    k <= bin.provides@.len(),
                    *bin == bin_of(p),
                    leaves_ok(ps@),
                    i < ps@.len(),
                    p == ps@[i as int],
                    name@ == p.name@,
                    aliases_wf(aliases@),
                    alias_map(aliases@) == add_provides(aliases_upto(ps@, i as int), p, k as int),
                decreases bin.provides@.len() - k,
            {
                assert(bin.provides@[k as int].alternate@.len() == 1);
                insert_alias(&mut aliases, &bin.provides[k].alternate[0].package, name);
                k = k + 1;
            }
            let mut k: usize = 0;
            while k < bin.depends.len()
                invariant
                    k <= bin.depends@.len(),
                    *bin == bin_of(p),
                    leaves_ok(ps@),
                    i < ps@.len(),
                    p == ps@[i as int],
                    no_dups(direct_dep@),
                    no_dups(maybe_dep@),
                    name_set(direct_dep@) == add_direct(direct_upto(ps@, i as int), p, k as int),
                    name_set(maybe_dep@) == add_maybe(maybe_upto(ps@, i as int), p, k as int),
                decreases bin.depends@.len() - k,
            {
                let d = &bin.depends[k];
                assert(d.alternate@.len() > 0);
                if d.alternate.len() == 1 {
                    insert_name(&mut direct_dep, &d.alternate[0].package);
                } else {
                    insert_alts(&mut maybe_dep, &d.alternate);
                }
                k = k + 1;
            }
            let mut k: usize = 0;
            while k < bin.recommended.len()
                invariant
                    k <= bin.recommended@.len(),
                    *bin == bin_of(p),
                    no_dups(recommended@),
                    name_set(recommended@) == add_recommended(recommended_upto(ps@, i as int), p, k as int),
                decreases bin.recommended@.len() - k,
            {
                insert_alts(&mut recommended, &bin.recommended[k].alternate);
                k = k + 1;
            }
            i = i + 1;
        }
        proof {
            lemma_leaves_direct(ps@);
        }
        Leaves { aliases, direct_dep, maybe_dep, recommended }
    }
}

// ---------------------------------------------------------------------------
// The leaves, described directly.

/// Entry `k` of the depends of `p` has the single alternative `s`.
pub open spec fn sole_dep_at(p: Package, k: int, s: Seq<char>) -> bool {
    0 <= k < bin_of(p).depends@.len() && bin_of(p).depends@[k].alternate@.len() == 1
        && bin_of(p).depends@[k].alternate@[0].package@ == s
}

/// `p` makes `s` a direct dependency: `p` is essential and named `s`, or
/// one of its depends has `s` as its only alternative.
pub open spec fn direct_from(p: Package, s: Seq<char>) -> bool {
    (bin_of(p).essential && p.name@ == s) || exists|k: int| #[trigger] sole_dep_at(p, k, s)
}

/// Entry `k` of the depends of `p` has several alternatives, `s` among them.
pub open spec fn choice_dep_at(p: Package, k: int, s: Seq<char>) -> bool {
    0 <= k < bin_of(p).depends@.len() && bin_of(p).depends@[k].alternate@.len() >= 2 && exists|a: int|
        0 <= a < bin_of(p).depends@[k].alternate@.len() && #[trigger] bin_of(p).depends@[k].alternate@[a].package@ == s
}

/// Entry `k` of the recommends of `p` has `s` among its alternatives.
pub open spec fn recommends_at(p: Package, k: int, s: Seq<char>) -> bool {
    0 <= k < bin_of(p).recommended@.len() && exists|a: int|
        0 <= a < bin_of(p).recommended@[k].alternate@.len() && #[trigger] bin_of(p).recommended@[k].alternate@[a].package@ == s
}

proof fn lemma_add_direct(st: Set<Seq<char>>, p: Package, k: int, s: Seq<char>)
    requires
        0 <= k <= bin_of(p).depends@.len(),
    ensures
        add_direct(st, p, k).contains(s) <==> (st.contains(s) || (bin_of(p).essential && p.name@ == s)
            || exists|j: int| j < k && #[trigger] sole_dep_at(p, j, s)),
    decreases k,
{
    if k > 0 {
        lemma_add_direct(st, p, k - 1, s);
        if exists|j: int| j < k && #[trigger] sole_dep_at(p, j, s) {
            let j = choose|j: int| j < k && #[trigger] sole_dep_at(p, j, s);
            if j < k - 1 {
                assert(j < k - 1 && sole_dep_at(p, j, s));
            }
        }
        if exists|j: int| j < k - 1 && #[trigger] sole_dep_at(p, j, s) {
            let j = choose|j: int| j < k - 1 && #[trigger] sole_dep_at(p, j, s);
            assert(j < k && sole_dep_at(p, j, s));
        }
        let d = bin_of(p).depends@[k - 1];
        if d.alternate@.len() == 1 && d.alternate@[0].package@ == s {
            assert(sole_dep_at(p, k - 1, s));
        }
    }
}

proof fn lemma_add_alts(st: Set<Seq<char>>, alts: Seq<SingleDependency>, s: Seq<char>)
    ensures
        add_alts(st, alts).contains(s) <==> (st.contains(s) || exists|a: int| 0 <= a < alts.len() && #[trigger] alts[a].package@ == s),
{
}

proof fn lemma_add_maybe(st: Set<Seq<char>>, p: Package, k: int, s: Seq<char>)
    requires
        0 <= k <= bin_of(p).depends@.len(),
    ensures
        add_maybe(st, p, k).contains(s) <==> (st.contains(s) || exists|j: int| j < k && #[trigger] choice_dep_at(p, j, s)),
    decreases k,
{
    if k > 0 {
        lemma_add_maybe(st, p, k - 1, s);
        let d = bin_of(p).depends@[k - 1];
        lemma_add_alts(add_maybe(st, p, k - 1), d.alternate@, s);
        if exists|j: int| j < k && #[trigger] choice_dep_at(p, j, s) {
            let j = choose|j: int| j < k && #[trigger] choice_dep_at(p, j, s);
            if j < k - 1 {
                assert(j < k - 1 && choice_dep_at(p, j, s));
            }
        }
        if exists|j: int| j < k - 1 && #[trigger] choice_dep_at(p, j, s) {
            let j = choose|j: int| j < k - 1 && #[trigger] choice_dep_at(p, j, s);
            assert(j < k && choice_dep_at(p, j, s));
        }
        if d.alternate@.len() >= 2 && exists|a: int| 0 <= a < d.alternate@.len() && #[trigger] d.alternate@[a].package@ == s {
            assert(choice_dep_at(p, k - 1, s));
        }
    }
}

proof fn lemma_add_recommended(st: Set<Seq<char>>, p: Package, k: int, s: Seq<char>)
    requires
        0 <= k <= bin_of(p).recommended@.len(),
    ensures
        add_recommended(st, p, k).contains(s) <==> (st.contains(s) || exists|j: int| j < k && #[trigger] recommends_at(p, j, s)),
    decreases k,
{
    if k > 0 {
        lemma_add_recommended(st, p, k - 1, s);
        let d = bin_of(p).recommended@[k - 1];
        lemma_add_alts(add_recommended(st, p, k - 1), d.alternate@, s);
        if exists|j: int| j < k && #[trigger] recommends_at(p, j, s) {
            let j = choose|j: int| j < k && #[trigger] recommends_at(p, j, s);
            if j < k - 1 {
                assert(j < k - 1 && recommends_at(p, j, s));
            }
        }
        if exists|j: int| j < k - 1 && #[trigger] recommends_at(p, j, s) {
            let j = choose|j: int| j < k - 1 && #[trigger] recommends_at(p, j, s);
            assert(j < k && recommends_at(p, j, s));
        }
        if exists|a: int| 0 <= a < d.alternate@.len() && #[trigger] d.alternate@[a].package@ == s {
            assert(recommends_at(p, k - 1, s));
        }
    }
}

/// The direct dependencies are exactly the names of essential packages and
/// the sole alternatives of depends; the possible dependencies exactly the
/// alternatives of depends with several; the recommended names exactly the
/// alternatives of recommends.
pub proof fn law_leaves_described(ps: Seq<Package>, i: int, s: Seq<char>)
    requires
        0 <= i <= ps.len(),
    ensures
        direct_upto(ps, i).contains(s) <==> exists|j: int| 0 <= j < i && #[trigger] direct_from(ps[j], s),
        maybe_upto(ps, i).contains(s) <==> exists|j: int, k: int| 0 <= j < i && #[trigger] choice_dep_at(ps[j], k, s),
        recommended_upto(ps, i).contains(s) <==> exists|j: int, k: int| 0 <= j < i && #[trigger] recommends_at(ps[j], k, s),
    decreases i,
{
    if i > 0 {
        law_leaves_described(ps, i - 1, s);
        let p = ps[i - 1];
        lemma_add_direct(direct_upto(ps, i - 1), p, bin_of(p).depends@.len() as int, s);
        lemma_add_maybe(maybe_upto(ps, i - 1), p, bin_of(p).depends@.len() as int, s);
        lemma_add_recommended(recommended_upto(ps, i - 1), p, bin_of(p).recommended@.len() as int, s);
        if exists|j: int| 0 <= j < i && #[trigger] direct_from(ps[j], s) {
            let j = choose|j: int| 0 <= j < i && #[trigger] direct_from(ps[j], s);
            if j == i - 1 {
                if !(bin_of(p).essential && p.name@ == s) {
                    let k = choose|k: int| #[trigger] sole_dep_at(p, k, s);
                    assert(k < bin_of(p).depends@.len() && sole_dep_at(p, k, s));
                }
            } else {
                assert(0 <= j < i - 1 && direct_from(ps[j], s));
            }
        }
        if exists|j: int| 0 <= j < i - 1 && #[trigger] direct_from(ps[j], s) {
            let j = choose|j: int| 0 <= j < i - 1 && #[trigger] direct_from(ps[j], s);
            assert(0 <= j < i && direct_from(ps[j], s));
        }
        if exists|j: int| j < bin_of(p).depends@.len() && #[trigger] sole_dep_at(p, j, s) {
            let j = choose|j: int| j < bin_of(p).depends@.len() && #[trigger] sole_dep_at(p, j, s);
            assert(direct_from(ps[i - 1], s));
        }
        if bin_of(p).essential && p.name@ == s {
            assert(direct_from(ps[i - 1], s));
        }
        if exists|j: int, k: int| 0 <= j < i && #[trigger] choice_dep_at(ps[j], k, s) {
            let (j, k) = choose|j: int, k: int| 0 <= j < i && #[trigger] choice_dep_at(ps[j], k, s);
            if j == i - 1 {
                assert(k < bin_of(p).depends@.len() && choice_dep_at(p, k, s));
            } else {
                assert(0 <= j < i - 1 && choice_dep_at(ps[j], k, s));
            }
        }
        if exists|j: int, k: int| 0 <= j < i - 1 && #[trigger] choice_dep_at(ps[j], k, s) {
            let (j, k) = choose|j: int, k: int| 0 <= j < i - 1 && #[trigger] choice_dep_at(ps[j], k, s);
            assert(0 <= j < i && choice_dep_at(ps[j], k, s));
        }
        if exists|k: int| k < bin_of(p).depends@.len() && #[trigger] choice_dep_at(p, k, s) {
            let k = choose|k: int| k < bin_of(p).depends@.len() && #[trigger] choice_dep_at(p, k, s);
            assert(choice_dep_at(ps[i - 1], k, s));
        }
        if exists|j: int, k: int| 0 <= j < i && #[trigger] recommends_at(ps[j], k, s) {
            let (j, k) = choose|j: int, k: int| 0 <= j < i && #[trigger] recommends_at(ps[j], k, s);
            if j == i - 1 {
                assert(k < bin_of(p).recommended@.len() && recommends_at(p, k, s));
            } else {
                assert(0 <= j < i - 1 && recommends_at(ps[j], k, s));
            }
        }
        if exists|j: int, k: int| 0 <= j < i - 1 && #[trigger] recommends_at(ps[j], k, s) {
            let (j, k) = choose|j: int, k: int| 0 <= j < i - 1 && #[trigger] recommends_at(ps[j], k, s);
            assert(0 <= j < i && recommends_at(ps[j], k, s));
        }
        if exists|k: int| k < bin_of(p).recommended@.len() && #[trigger] recommends_at(p, k, s) {
            let k = choose|k: int| k < bin_of(p).recommended@.len() && #[trigger] recommends_at(p, k, s);
            assert(recommends_at(ps[i - 1], k, s));
        }
    }
}

/// The names of essential packages and the sole alternatives of depends.
pub open spec fn direct_names(ps: Seq<Package>) -> Set<Seq<char>> {
    Set::new(|s: Seq<char>| exists|j: int| 0 <= j < ps.len() && #[trigger] direct_from(ps[j], s))
}

/// The alternatives of depends that offer several.
pub open spec fn maybe_names(ps: Seq<Package>) -> Set<Seq<char>> {
    Set::new(|s: Seq<char>| exists|j: int, k: int| 0 <= j < ps.len() && #[trigger] choice_dep_at(ps[j], k, s))
}

/// The alternatives of recommends.
pub open spec fn recommended_names(ps: Seq<Package>) -> Set<Seq<char>> {
    Set::new(|s: Seq<char>| exists|j: int, k: int| 0 <= j < ps.len() && #[trigger] recommends_at(ps[j], k, s))
}

/// Entry `k` of the provides of `p` names `n`.
pub open spec fn provides_at(p: Package, k: int, n: Seq<char>) -> bool {
    0 <= k < bin_of(p).provides@.len() && bin_of(p).provides@[k].alternate@[0].package@ == n
}

/// Each provided name with the names of the packages that provide it.
pub open spec fn provided_names(ps: Seq<Package>) -> Map<Seq<char>, Set<Seq<char>>> {
    Map::new(
        |n: Seq<char>| exists|j: int, k: int| 0 <= j < ps.len() && #[trigger] provides_at(ps[j], k, n),
        |n: Seq<char>| Set::new(|m: Seq<char>| exists|j: int, k: int|
            0 <= j < ps.len() && #[trigger] provides_at(ps[j], k, n) && ps[j].name@ == m),
    )
}

proof fn lemma_add_provides(m: Map<Seq<char>, Set<Seq<char>>>, p: Package, k: int, n: Seq<char>, q: Seq<char>)
    requires
        0 <= k <= bin_of(p).provides@.len(),
    ensures
        add_provides(m, p, k).contains_key(n) <==> (m.contains_key(n) || exists|j: int| j < k && #[trigger] provides_at(p, j, n)),
        add_provides(m, p, k).contains_key(n) ==> (add_provides(m, p, k)[n].contains(q) <==> ((m.contains_key(n) && m[n].contains(q))
            || ((exists|j: int| j < k && #[trigger] provides_at(p, j, n)) && p.name@ == q))),
    decreases k,
{
    if k > 0 {
        lemma_add_provides(m, p, k - 1, n, q);
        if exists|j: int| j < k && #[trigger] provides_at(p, j, n) {
            let j = choose|j: int| j < k && #[trigger] provides_at(p, j, n);
            if j < k - 1 {
                assert(j < k - 1 && provides_at(p, j, n));
            }
        }
        if exists|j: int| j < k - 1 && #[trigger] provides_at(p, j, n) {
            let j = choose|j: int| j < k - 1 && #[trigger] provides_at(p, j, n);
            assert(j < k && provides_at(p, j, n));
        }
        if bin_of(p).provides@[k - 1].alternate@[0].package@ == n {
            assert(provides_at(p, k - 1, n));
        }
    }
}

/// Each provided name maps to exactly the names of the packages that
/// provide it.
pub proof fn law_aliases_described(ps: Seq<Package>, i: int, n: Seq<char>, q: Seq<char>)
    requires
        0 <= i <= ps.len(),
    ensures
        aliases_upto(ps, i).contains_key(n) <==> exists|j: int, k: int| 0 <= j < i && #[trigger] provides_at(ps[j], k, n),
        aliases_upto(ps, i).contains_key(n) ==> (aliases_upto(ps, i)[n].contains(q) <==> exists|j: int, k: int|
            0 <= j < i && #[trigger] provides_at(ps[j], k, n) && ps[j].name@ == q),
    decreases i,
{
    if i > 0 {
        law_aliases_described(ps, i - 1, n, q);
        let p = ps[i - 1];
        lemma_add_provides(aliases_upto(ps, i - 1), p, bin_of(p).provides@.len() as int, n, q);
        if exists|j: int, k: int| 0 <= j < i && #[trigger] provides_at(ps[j], k, n) {
            let (j, k) = choose|j: int, k: int| 0 <= j < i && #[trigger] provides_at(ps[j], k, n);
            if j == i - 1 {
                assert(k < bin_of(p).provides@.len() && provides_at(p, k, n));
            } else {
                assert(0 <= j < i - 1 && provides_at(ps[j], k, n));
            }
        }
        if exists|j: int, k: int| 0 <= j < i - 1 && #[trigger] provides_at(ps[j], k, n) {
            let (j, k) = choose|j: int, k: int| 0 <= j < i - 1 && #[trigger] provides_at(ps[j], k, n);
            assert(0 <= j < i && provides_at(ps[j], k, n));
        }
        if exists|k: int| k < bin_of(p).provides@.len() && #[trigger] provides_at(p, k, n) {
            let k = choose|k: int| k < bin_of(p).provides@.len() && #[trigger] provides_at(p, k, n);
            assert(provides_at(ps[i - 1], k, n));
        }
        if exists|j: int, k: int| 0 <= j < i && #[trigger] provides_at(ps[j], k, n) && ps[j].name@ == q {
            let (j, k) = choose|j: int, k: int| 0 <= j < i && #[trigger] provides_at(ps[j], k, n) && ps[j].name@ == q;
            if j == i - 1 {
                assert(k < bin_of(p).provides@.len() && provides_at(p, k, n));
            } else {
                assert(0 <= j < i - 1 && provides_at(ps[j], k, n) && ps[j].name@ == q);
            }
        }
        if exists|j: int, k: int| 0 <= j < i - 1 && #[trigger] provides_at(ps[j], k, n) && ps[j].name@ == q {
            let (j, k) = choose|j: int, k: int| 0 <= j < i - 1 && #[trigger] provides_at(ps[j], k, n) && ps[j].name@ == q;
            assert(0 <= j < i && provides_at(ps[j], k, n) && ps[j].name@ == q);
        }
    }
}

proof fn lemma_leaves_direct(ps: Seq<Package>)
    ensures
        direct_upto(ps, ps.len() as int) == direct_names(ps),
        maybe_upto(ps, ps.len() as int) == maybe_names(ps),
        recommended_upto(ps, ps.len() as int) == recommended_names(ps),
        aliases_upto(ps, ps.len() as int) == provided_names(ps),
{
    let n = ps.len() as int;
    assert forall|s: Seq<char>| #[trigger] direct_upto(ps, n).contains(s) == direct_names(ps).contains(s) by {
        law_leaves_described(ps, n, s);
    }
    assert forall|s: Seq<char>| #[trigger] maybe_upto(ps, n).contains(s) == maybe_names(ps).contains(s) by {
        law_leaves_described(ps, n, s);
    }
    assert forall|s: Seq<char>| #[trigger] recommended_upto(ps, n).contains(s) == recommended_names(ps).contains(s) by {
        law_leaves_described(ps, n, s);
    }
    assert(direct_upto(ps, n) =~= direct_names(ps));
    assert(maybe_upto(ps, n) =~= maybe_names(ps));
    assert(recommended_upto(ps, n) =~= recommended_names(ps));
    let a = aliases_upto(ps, n);
    let b = provided_names(ps);
    assert forall|k: Seq<char>| #[trigger] a.contains_key(k) <==> b.contains_key(k) by {
        law_aliases_described(ps, n, k, k);
    }
    assert forall|k: Seq<char>| #[trigger] a.contains_key(k) implies a[k] == b[k] by {
        assert forall|q: Seq<char>| #[trigger] a[k].contains(q) == b[k].contains(q) by {
            law_aliases_described(ps, n, k, q);
        }
        assert(a[k] =~= b[k]);
    }
    assert(a =~= b);
}

} // verus!
