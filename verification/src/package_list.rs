//! A plain list of packages, searched by name.

use vstd::prelude::*;

use crate::deps::SingleDependency;
use crate::package::Package;

verus! {

/// The packages of `ps` named `name`, in order.
pub open spec fn named(ps: Seq<Package>, name: Seq<char>) -> Seq<Package>
    decreases ps.len(),
{
    if ps.len() == 0 {
        Seq::empty()
    } else if ps.last().name@ == name {
        named(ps.drop_last(), name).push(ps.last())
    } else {
        named(ps.drop_last(), name)
    }
}

/// Packages, in the order they were added.
pub struct PackageList {
    pkgs: Vec<Package>,
}

impl PackageList {
    pub closed spec fn packages(&self) -> Seq<Package> {
        self.pkgs@
    }

    /// An empty list.
    pub fn new() -> (r: PackageList)
        ensures
            r.packages() == Seq::<Package>::empty(),
    {
        PackageList { pkgs: Vec::new() }
    }

    /// Add a package at the end.
    pub fn push(&mut self, package: Package)
        ensures
            final(self).packages() == old(self).packages().push(package),
    {
        self.pkgs.push(package);
    }

    /// The packages with the name the dependency asks for, in order.
    pub fn find_satisfying(&self, dep: &SingleDependency) -> (r: Vec<&Package>)
        ensures
            r@.len() == named(self.packages(), dep.package@).len(),
            forall|k: int| 0 <= k < r@.len() ==> *#[trigger] r@[k] == named(self.packages(), dep.package@)[k],
    {
        let mut ret: Vec<&Package> = Vec::new();
        let mut k: usize = 0;
        while k < self.pkgs.len()
            invariant
                k <= self.pkgs@.len(),
                ret@.len() == named(self.pkgs@.take(k as int), dep.package@).len(),
                forall|m: int| 0 <= m < ret@.len() ==> *#[trigger] ret@[m] == named(self.pkgs@.take(k as int), dep.package@)[m],
            decreases self.pkgs@.len() - k,
        {
            let pkg = &self.pkgs[k];
            assert(self.pkgs@.take(k + 1).drop_last() =~= self.pkgs@.take(k as int));
            if pkg.name == dep.package {
                ret.push(pkg);
            }
            k = k + 1;
        }
        assert(self.pkgs@.take(self.pkgs@.len() as int) =~= self.pkgs@);
        ret
    }
}

} // verus!
