//! The resource store: the set of emitted artifacts, keyed by name.

use vstd::prelude::*;
use vstd::pervasive::VecAdditionalExecFns;

use crate::resource::{Resource, ResourceOrigin};

verus! {

/// The resource was rendered out of the pot with this id.
pub open spec fn origin_is_pot(r: Resource, pot: Seq<char>) -> bool {
    r.origin is ResourcePot && r.origin->ResourcePot_0@ == pot
}

fn resource_from_pot(r: &Resource, pot: &String) -> (b: bool)
    ensures
        b == origin_is_pot(*r, pot@),
{
    match &r.origin {
        ResourceOrigin::ResourcePot(id) => *id == *pot,
        ResourceOrigin::Module(_) => false,
    }
}

/// Store of emitted resources; names are pairwise distinct.
pub struct ResourceStore {
    pub resources: Vec<Resource>,
}

impl ResourceStore {
    pub open spec fn has_res(self, name: Seq<char>) -> bool {
        exists|i: int| 0 <= i < self.resources@.len() && (#[trigger] self.resources@[i]).name@
            == name
    }

    /// Some stored resource was rendered out of this pot.
    pub open spec fn has_res_of_pot(self, pot: Seq<char>) -> bool {
        exists|i: int| 0 <= i < self.resources@.len() && origin_is_pot(
            #[trigger] self.resources@[i],
            pot,
        )
    }

    pub open spec fn wf(self) -> bool {
        forall|i: int, j: int|
            0 <= i < j < self.resources@.len() ==> (#[trigger] self.resources@[i]).name@ != (
            #[trigger] self.resources@[j]).name@
    }

    pub fn new() -> (r: ResourceStore)
        ensures
            r.resources@ == Seq::<Resource>::empty(),
            r.wf(),
    {
        ResourceStore { resources: Vec::new() }
    }

    /// Insert a resource; an old resource with the same name is replaced.
    pub fn insert(&mut self, r: Resource)
        requires
            old(self).wf(),
        ensures
            final(self).wf(),
            final(self).has_res(r.name@),
            exists|i: int|
                0 <= i < final(self).resources@.len() && #[trigger] final(self).resources@[i] == r,
            // every other resource is kept as it was, and nothing else appears
            forall|i: int|
                0 <= i < old(self).resources@.len() && (#[trigger] old(self).resources@[i]).name@
                    != r.name@ ==> exists|j: int|
                    0 <= j < final(self).resources@.len() && #[trigger] final(self).resources@[j]
                        == old(self).resources@[i],
            forall|j: int|
                0 <= j < final(self).resources@.len() ==> #[trigger] final(self).resources@[j] == r
                    || exists|i: int|
                    0 <= i < old(self).resources@.len() && #[trigger] old(self).resources@[i]
                        == final(self).resources@[j],
    {
        let mut i: usize = 0;
        while i < self.resources.len()
            invariant
                old(self).wf(),
                *self == *old(self),
                i <= self.resources@.len(),
                forall|k: int| 0 <= k < i ==> (#[trigger] self.resources@[k]).name@ != r.name@,
            decreases self.resources@.len() - i,
        {
            if self.resources[i].name == r.name {
                let ghost rg = r;
                self.resources.set(i, r);
                proof {
                    assert(self.resources@ == old(self).resources@.update(i as int, rg));
                    assert(self.resources@[i as int] == rg);
                    assert(self.has_res(rg.name@));
                    assert forall|x: int, y: int|
                        0 <= x < y < self.resources@.len() implies (
                    #[trigger] self.resources@[x]).name@ != (#[trigger] self.resources@[y]).name@ by {
                        if x != i as int && y != i as int {
                            assert(self.resources@[x] == old(self).resources@[x]);
                            assert(self.resources@[y] == old(self).resources@[y]);
                        } else {
                            assert(old(self).resources@[i as int].name@ == rg.name@);
                        }
                    }
                    assert forall|x: int|
                        0 <= x < old(self).resources@.len() && (#[trigger] old(
                            self,
                        ).resources@[x]).name@ != rg.name@ implies exists|j: int|
                        0 <= j < self.resources@.len() && #[trigger] self.resources@[j] == old(
                            self,
                        ).resources@[x] by {
                        assert(x != i as int);
                        assert(self.resources@[x] == old(self).resources@[x]);
                    }
                    assert forall|j: int| #![trigger self.resources@[j]]
                        0 <= j < self.resources@.len() implies self.resources@[j] == rg || exists|
                        x: int,
                    |
                        0 <= x < old(self).resources@.len() && (#[trigger] old(self).resources@[x])
                            == self.resources@[j] by {
                        if j != i as int {
                            assert(old(self).resources@[j] == self.resources@[j]);
                        }
                    }
                }
                return ;
            }
            i += 1;
        }
        let ghost pre = *self;
        self.resources.push(r);
        proof {
            let n = pre.resources@.len() as int;
            assert(self.resources@[n] == r);
            assert(self.has_res(r.name@));
            assert forall|x: int|
                0 <= x < pre.resources@.len() && (#[trigger] pre.resources@[x]).name@ != r.name@
                    implies exists|j: int|
                0 <= j < self.resources@.len() && (#[trigger] self.resources@[j])
                    == pre.resources@[x] by {
                assert(self.resources@[x] == pre.resources@[x]);
            }
            assert forall|j: int| #![trigger self.resources@[j]]
                0 <= j < self.resources@.len() implies self.resources@[j] == r || exists|x: int|
                0 <= x < pre.resources@.len() && (#[trigger] pre.resources@[x])
                    == self.resources@[j] by {
                if j != n {
                    assert(pre.resources@[j] == self.resources@[j]);
                }
            }
            assert forall|x: int, y: int|
                0 <= x < y < self.resources@.len() implies (#[trigger] self.resources@[x]).name@
                != (#[trigger] self.resources@[y]).name@ by {
                if y == n {
                    assert(self.resources@[x] == pre.resources@[x]);
                } else {
                    assert(self.resources@[x] == pre.resources@[x] && self.resources@[y]
                        == pre.resources@[y]);
                }
            }
        }
    }

    /// Remove every resource that was rendered out of this pot: the clearing
    /// step ahead of a re-render. Resources of other origins are kept.
    #[verifier::rlimit(60)]
    pub fn remove_resources_of_pot(&mut self, pot: &String)
        requires
            old(self).wf(),
        ensures
            final(self).wf(),
            !final(self).has_res_of_pot(pot@),
            // what is kept is exactly what did not come from this pot
            forall|i: int|
                0 <= i < old(self).resources@.len() && !origin_is_pot(
                    #[trigger] old(self).resources@[i],
                    pot@,
                ) ==> exists|j: int|
                    0 <= j < final(self).resources@.len() && #[trigger] final(self).resources@[j]
                        == old(self).resources@[i],
    {
        let ghost orig = old(self).resources@;
        let mut i: usize = 0;
        while i < self.resources.len()
            invariant
                old(self).wf(),
                i <= self.resources@.len(),
                forall|k: int|
                    0 <= k < i ==> !origin_is_pot(#[trigger] self.resources@[k], pot@),
                forall|x: int|
                    #![trigger orig[x]]
                    0 <= x < orig.len() && !origin_is_pot(orig[x], pot@) ==> exists|j: int|
                        0 <= j < self.resources@.len() && (#[trigger] self.resources@[j])
                            == orig[x],
                forall|j1: int, j2: int|
                    0 <= j1 < j2 < self.resources@.len() ==> (
                    #[trigger] self.resources@[j1]).name@ != (#[trigger] self.resources@[j2]).name@,
            decreases self.resources@.len() - i,
        {
            if resource_from_pot(&self.resources[i], pot) {
                let ghost prev = self.resources@;
                self.resources.remove(i);
                proof {
                    assert forall|x: int| #![trigger orig[x]]
                        0 <= x < orig.len() && !origin_is_pot(orig[x], pot@) implies exists|j: int|
                        0 <= j < self.resources@.len() && (#[trigger] self.resources@[j])
                            == orig[x] by {
                        let j = choose|j: int|
                            0 <= j < prev.len() && (#[trigger] prev[j]) == orig[x];
                        assert(!origin_is_pot(prev[j], pot@));
                        assert(j != i as int);
                        if j < i {
                            assert(self.resources@[j] == orig[x]);
                        } else {
                            assert(self.resources@[j - 1] == orig[x]);
                        }
                    }
                    assert forall|j1: int, j2: int|
                        0 <= j1 < j2 < self.resources@.len() implies (
                    #[trigger] self.resources@[j1]).name@ != (
                    #[trigger] self.resources@[j2]).name@ by {
                        let p1: int = if j1 < i {
                            j1
                        } else {
                            j1 + 1
                        };
                        let p2: int = if j2 < i {
                            j2
                        } else {
                            j2 + 1
                        };
                        assert(self.resources@[j1] == prev[p1]);
                        assert(self.resources@[j2] == prev[p2]);
                    }
                }
            } else {
                i += 1;
            }
        }
    }
}

/// The resource came out of one of the named pots.
pub open spec fn origin_in_pots(r: Resource, pots: Seq<String>) -> bool {
    exists|k: int| 0 <= k < pots.len() && origin_is_pot(r, (#[trigger] pots[k])@)
}

fn resource_from_any_pot(r: &Resource, pots: &Vec<String>) -> (b: bool)
    ensures
        b == origin_in_pots(*r, pots@),
{
    let mut k: usize = 0;
    while k < pots.len()
        invariant
            k <= pots@.len(),
            forall|l: int| 0 <= l < k ==> !origin_is_pot(*r, (#[trigger] pots@[l])@),
        decreases pots@.len() - k,
    {
        if resource_from_pot(r, &pots[k]) {
            return true;
        }
        k += 1;
    }
    false
}

impl ResourceStore {
    /// Remove every resource rendered out of any of the named pots: the
    /// clearing step ahead of re-rendering them. Resources of other origins
    /// are kept.
    #[verifier::rlimit(60)]
    pub fn remove_resources_of_pots(&mut self, pots: &Vec<String>)
        requires
            old(self).wf(),
        ensures
            final(self).wf(),
            forall|k: int|
                0 <= k < pots@.len() ==> !final(self).has_res_of_pot((#[trigger] pots@[k])@),
            forall|i: int|
                0 <= i < old(self).resources@.len() && !origin_in_pots(
                    #[trigger] old(self).resources@[i],
                    pots@,
                ) ==> exists|j: int|
                    0 <= j < final(self).resources@.len() && #[trigger] final(self).resources@[j]
                        == old(self).resources@[i],
    {
        let ghost orig = old(self).resources@;
        let mut i: usize = 0;
        while i < self.resources.len()
            invariant
                old(self).wf(),
                i <= self.resources@.len(),
                forall|k: int|
                    0 <= k < i ==> !origin_in_pots(#[trigger] self.resources@[k], pots@),
                forall|x: int|
                    #![trigger orig[x]]
                    0 <= x < orig.len() && !origin_in_pots(orig[x], pots@) ==> exists|j: int|
                        0 <= j < self.resources@.len() && (#[trigger] self.resources@[j])
                            == orig[x],
                forall|j1: int, j2: int|
                    0 <= j1 < j2 < self.resources@.len() ==> (
                    #[trigger] self.resources@[j1]).name@ != (#[trigger] self.resources@[j2]).name@,
            decreases self.resources@.len() - i,
        {
            if resource_from_any_pot(&self.resources[i], pots) {
                let ghost prev = self.resources@;
                self.resources.remove(i);
                proof {
                    assert forall|x: int| #![trigger orig[x]]
                        0 <= x < orig.len() && !origin_in_pots(orig[x], pots@) implies exists|
                        j: int,
                    |
                        0 <= j < self.resources@.len() && (#[trigger] self.resources@[j])
                            == orig[x] by {
                        let j = choose|j: int|
                            0 <= j < prev.len() && (#[trigger] prev[j]) == orig[x];
                        assert(!origin_in_pots(prev[j], pots@));
                        assert(j != i as int);
                        if j < i {
                            assert(self.resources@[j] == orig[x]);
                        } else {
                            assert(self.resources@[j - 1] == orig[x]);
                        }
                    }
                    assert forall|j1: int, j2: int|
                        0 <= j1 < j2 < self.resources@.len() implies (
                    #[trigger] self.resources@[j1]).name@ != (
                    #[trigger] self.resources@[j2]).name@ by {
                        let p1: int = if j1 < i {
                            j1
                        } else {
                            j1 + 1
                        };
                        let p2: int = if j2 < i {
                            j2
                        } else {
                            j2 + 1
                        };
                        assert(self.resources@[j1] == prev[p1]);
                        assert(self.resources@[j2] == prev[p2]);
                    }
                }
            } else {
                i += 1;
            }
        }
        proof {
            assert forall|k: int|
                0 <= k < pots@.len() implies !self.has_res_of_pot((#[trigger] pots@[k])@) by {
                if self.has_res_of_pot(pots@[k]@) {
                    let j = choose|j: int|
                        0 <= j < self.resources@.len() && origin_is_pot(
                            #[trigger] self.resources@[j],
                            pots@[k]@,
                        );
                    assert(origin_in_pots(self.resources@[j], pots@));
                }
            }
        }
    }
}

/// Stale-resource removal: once a pot's old resources are gone from the
/// store, inserting the freshly rendered ones leaves exactly those as the
/// pot's resources — position by position, the stale part of the store holds
/// none of the pot's resources and the fresh tail holds all of them.
pub proof fn lemma_stale_resources_removed(
    cleared: Seq<Resource>,
    fresh: Seq<Resource>,
    pot: Seq<char>,
)
    requires
        forall|i: int| 0 <= i < cleared.len() ==> !origin_is_pot(#[trigger] cleared[i], pot),
        forall|j: int| 0 <= j < fresh.len() ==> origin_is_pot(#[trigger] fresh[j], pot),
    ensures
        forall|k: int|
            0 <= k < (cleared + fresh).len() ==> (origin_is_pot(#[trigger] (cleared + fresh)[k], pot)
                <==> k >= cleared.len()),
        forall|j: int| 0 <= j < fresh.len() ==> (cleared + fresh)[cleared.len() + j] == fresh[j],
{
    assert forall|k: int|
        0 <= k < (cleared + fresh).len() implies (origin_is_pot(#[trigger] (cleared + fresh)[k], pot)
        <==> k >= cleared.len()) by {
        if k < cleared.len() {
            assert((cleared + fresh)[k] == cleared[k]);
        } else {
            assert((cleared + fresh)[k] == fresh[k - cleared.len()]);
        }
    }
}

} // verus!
