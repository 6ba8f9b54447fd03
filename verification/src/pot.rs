//! Resource pots: the grouping of modules into output-bundle units, and the
//! registry of such groupings.

use vstd::prelude::*;
use vstd::pervasive::VecAdditionalExecFns;

use crate::ids::{IdRepr, ModuleId};

verus! {

/// Kind of the bundle a pot renders to.
pub enum ResourcePotType {
    Runtime,
    Js,
    Css,
    Html,
    Custom(String),
}

/// A named bundle unit: a set of member module ids (order irrelevant) and
/// the names of the resources produced from it.
pub struct ResourcePot {
    pub id: String,
    pub pot_type: ResourcePotType,
    pub immutable: bool,
    pub modules: Vec<ModuleId>,
    pub resources: Vec<String>,
}

/// `m` is a member of the pot.
pub open spec fn pot_owns(p: ResourcePot, m: IdRepr) -> bool {
    exists|k: int| 0 <= k < p.modules@.len() && (#[trigger] p.modules@[k])@ == m
}

impl ResourcePot {
    pub fn new(id: String, pot_type: ResourcePotType) -> (r: ResourcePot)
        ensures
            r.id == id,
            r.pot_type == pot_type,
            !r.immutable,
            r.modules@ == Seq::<ModuleId>::empty(),
            r.resources@ == Seq::<String>::empty(),
    {
        ResourcePot { id, pot_type, immutable: false, modules: Vec::new(), resources: Vec::new() }
    }

    /// Add a member module.
    pub fn add_module(&mut self, m: ModuleId)
        ensures
            final(self).modules@ == old(self).modules@.push(m),
            final(self).id == old(self).id,
            final(self).pot_type == old(self).pot_type,
            final(self).immutable == old(self).immutable,
            final(self).resources@ == old(self).resources@,
    {
        self.modules.push(m);
    }

    /// Names of the resources this pot produced.
    pub fn resources(&self) -> (r: &Vec<String>)
        ensures
            r == &self.resources,
    {
        &self.resources
    }

    /// Forget the produced resources, ahead of a re-render.
    pub fn clear_resources(&mut self)
        ensures
            final(self).resources@ == Seq::<String>::empty(),
            final(self).id == old(self).id,
            final(self).pot_type == old(self).pot_type,
            final(self).immutable == old(self).immutable,
            final(self).modules@ == old(self).modules@,
    {
        self.resources.clear();
    }
}

/// Registry of resource pots, keyed by pot id. Well-formedness: pot ids are
/// pairwise distinct and no module is a member of two pots.
pub struct ResourcePotMap {
    pub pots: Vec<ResourcePot>,
}

impl ResourcePotMap {
    pub open spec fn has_pot(self, id: Seq<char>) -> bool {
        exists|i: int| 0 <= i < self.pots@.len() && (#[trigger] self.pots@[i]).id@ == id
    }

    pub open spec fn pot_idx(self, id: Seq<char>) -> int {
        choose|i: int| 0 <= i < self.pots@.len() && (#[trigger] self.pots@[i]).id@ == id
    }

    pub open spec fn pot_at(self, id: Seq<char>) -> ResourcePot {
        self.pots@[self.pot_idx(id)]
    }

    pub open spec fn ids_distinct(self) -> bool {
        forall|i: int, j: int|
            0 <= i < j < self.pots@.len() ==> (#[trigger] self.pots@[i]).id@ != (
            #[trigger] self.pots@[j]).id@
    }

    /// No module belongs to more than one resource pot.
    pub open spec fn members_disjoint(self) -> bool {
        forall|i: int, j: int, m: IdRepr|
            0 <= i < j < self.pots@.len() ==> !(#[trigger] pot_owns(self.pots@[i], m)
                && #[trigger] pot_owns(self.pots@[j], m))
    }

    pub open spec fn wf(self) -> bool {
        self.ids_distinct() && self.members_disjoint()
    }

    pub fn new() -> (r: ResourcePotMap)
        ensures
            r.pots@ == Seq::<ResourcePot>::empty(),
            r.wf(),
    {
        ResourcePotMap { pots: Vec::new() }
    }

    fn find_pot(&self, id: &String) -> (r: Option<usize>)
        ensures
            match r {
                Some(i) => i < self.pots@.len() && self.pots@[i as int].id@ == id@,
                None => !self.has_pot(id@),
            },
    {
        let mut i: usize = 0;
        while i < self.pots.len()
            invariant
                i <= self.pots@.len(),
                forall|k: int| 0 <= k < i ==> (#[trigger] self.pots@[k]).id@ != id@,
            decreases self.pots@.len() - i,
        {
            if self.pots[i].id == *id {
                return Some(i);
            }
            i += 1;
        }
        None
    }

    pub fn has_pot_id(&self, id: &String) -> (r: bool)
        ensures
            r == self.has_pot(id@),
    {
        self.find_pot(id).is_some()
    }

    /// Look the pot with this id up.
    pub fn resource_pot<'a>(&'a self, id: &String) -> (r: Option<&'a ResourcePot>)
        requires
            self.wf(),
        ensures
            match r {
                Some(p) => self.has_pot(id@) && *p == self.pot_at(id@) && p.id@ == id@,
                None => !self.has_pot(id@),
            },
    {
        match self.find_pot(id) {
            Some(i) => {
                proof {
                    let j = self.pot_idx(id@);
                    assert(self.pots@[j].id@ == id@);
                    if i as int != j {
                        assert(false);
                    }
                }
                Some(&self.pots[i])
            },
            None => None,
        }
    }

    /// Register a pot. Refused when its id is taken or one of its members
    /// already belongs to a registered pot, which keeps every module in at
    /// most one pot.
    pub fn add_pot(&mut self, pot: ResourcePot) -> (r: Result<(), ()>)
        requires
            old(self).wf(),
        ensures
            final(self).wf(),
            match r {
                Ok(()) => final(self).pots@ == old(self).pots@.push(pot) && !old(self).has_pot(
                    pot.id@,
                ),
                Err(()) => final(self).pots@ == old(self).pots@ && (old(self).has_pot(pot.id@)
                    || exists|i: int, m: IdRepr|
                    0 <= i < old(self).pots@.len() && #[trigger] pot_owns(old(self).pots@[i], m)
                        && pot_owns(pot, m)),
            },
    {
        if self.has_pot_id(&pot.id) {
            return Err(());
        }
        let mut i: usize = 0;
        while i < self.pots.len()
            invariant
                old(self).wf(),
                *self == *old(self),
                i <= self.pots@.len(),
                forall|x: int, m: IdRepr|
                    0 <= x < i ==> !(#[trigger] pot_owns(self.pots@[x], m) && pot_owns(pot, m)),
            decreases self.pots@.len() - i,
        {
            let mut k: usize = 0;
            while k < pot.modules.len()
                invariant
                    old(self).wf(),
                    *self == *old(self),
                    i < self.pots@.len(),
                    k <= pot.modules@.len(),
                    forall|l: int|
                        0 <= l < k ==> !pot_owns(self.pots@[i as int], (#[trigger] pot.modules@[l])@),
                decreases pot.modules@.len() - k,
            {
                if contains_module_id(&self.pots[i].modules, &pot.modules[k]) {
                    proof {
                        let m = pot.modules@[k as int]@;
                        assert(pot_owns(self.pots@[i as int], m));
                        assert(pot_owns(pot, m));
                    }
                    return Err(());
                }
                k += 1;
            }
            proof {
                assert forall|m: IdRepr| !(pot_owns(self.pots@[i as int], m) && pot_owns(
                    pot,
                    m,
                )) by {
                    if pot_owns(pot, m) {
                        let l = choose|l: int|
                            0 <= l < pot.modules@.len() && (#[trigger] pot.modules@[l])@ == m;
                        assert(!pot_owns(self.pots@[i as int], pot.modules@[l]@));
                    }
                }
            }
            i += 1;
        }
        let ghost pre = *self;
        self.pots.push(pot);
        proof {
            let n = pre.pots@.len() as int;
            assert(self.pots@[n] == pot);
            assert forall|x: int, y: int|
                0 <= x < y < self.pots@.len() implies (#[trigger] self.pots@[x]).id@ != (
            #[trigger] self.pots@[y]).id@ by {
                if y == n {
                    if self.pots@[x].id@ == pot.id@ {
                        assert(pre.has_pot(pot.id@));
                    }
                }
            }
            assert forall|x: int, y: int, m: IdRepr|
                0 <= x < y < self.pots@.len() implies !(#[trigger] pot_owns(self.pots@[x], m)
                && #[trigger] pot_owns(self.pots@[y], m)) by {
                if y == n {
                    assert(self.pots@[x] == pre.pots@[x]);
                    assert(!(pot_owns(pre.pots@[x], m) && pot_owns(pot, m)));
                } else {
                    assert(self.pots@[x] == pre.pots@[x] && self.pots@[y] == pre.pots@[y]);
                    assert(!(pot_owns(pre.pots@[x], m) && pot_owns(pre.pots@[y], m)));
                }
            }
        }
        Ok(())
    }

    /// With distinct ids, a pot found at an index is the pot of that id.
    pub proof fn lemma_pot_at_unique(&self, id: Seq<char>, i: int)
        requires
            self.ids_distinct(),
            0 <= i < self.pots@.len(),
            self.pots@[i].id@ == id,
        ensures
            self.has_pot(id),
            self.pot_idx(id) == i,
            self.pot_at(id) == self.pots@[i],
    {
        assert(self.has_pot(id));
        let j = self.pot_idx(id);
        assert(self.pots@[j].id@ == id);
        if i != j {
            assert(false);
        }
    }

    /// Clear the produced-resource list of the pot with this id; every other
    /// pot is untouched.
    pub fn clear_pot_resources(&mut self, id: &String)
        requires
            old(self).wf(),
            old(self).has_pot(id@),
        ensures
            final(self).wf(),
            final(self).pots@ == old(self).pots@.update(
                old(self).pot_idx(id@),
                ResourcePot {
                    resources: final(self).pots@[old(self).pot_idx(id@)].resources,
                    ..old(self).pot_at(id@)
                },
            ),
            final(self).pots@[old(self).pot_idx(id@)].resources@ == Seq::<String>::empty(),
    {
        let i = match self.find_pot(id) {
            Some(i) => i,
            None => {
                proof {
                    assert(false);
                }
                0
            },
        };
        proof {
            let j = self.pot_idx(id@);
            assert(self.pots@[j].id@ == id@);
            if i as int != j {
                assert(false);
            }
        }
        let mut p = self.pots.remove(i);
        p.resources = Vec::new();
        self.pots.insert(i, p);
        proof {
            assert(self.pots@ =~= old(self).pots@.update(i as int, p));
        }
        proof {
            let oldm = *old(self);
            assert forall|x: int, y: int, m: IdRepr|
                0 <= x < y < self.pots@.len() implies !(#[trigger] pot_owns(self.pots@[x], m)
                && #[trigger] pot_owns(self.pots@[y], m)) by {
                assert(pot_owns(self.pots@[x], m) ==> pot_owns(oldm.pots@[x], m));
                assert(pot_owns(self.pots@[y], m) ==> pot_owns(oldm.pots@[y], m));
            }
        }
    }

    /// Record the name of a freshly rendered resource on its pot.
    pub fn push_pot_resource(&mut self, id: &String, name: String)
        requires
            old(self).wf(),
            old(self).has_pot(id@),
        ensures
            final(self).wf(),
            final(self).pots@ == old(self).pots@.update(
                old(self).pot_idx(id@),
                ResourcePot {
                    resources: final(self).pots@[old(self).pot_idx(id@)].resources,
                    ..old(self).pot_at(id@)
                },
            ),
            final(self).pots@[old(self).pot_idx(id@)].resources@ == old(self).pot_at(
                id@,
            ).resources@.push(name),
    {
        let i = match self.find_pot(id) {
            Some(i) => i,
            None => {
                proof {
                    assert(false);
                }
                0
            },
        };
        proof {
            let j = self.pot_idx(id@);
            assert(self.pots@[j].id@ == id@);
            if i as int != j {
                assert(false);
            }
        }
        let mut p = self.pots.remove(i);
        p.resources.push(name);
        let ghost pg = p;
        self.pots.insert(i, p);
        proof {
            assert(self.pots@ =~= old(self).pots@.update(i as int, pg));
        }
        proof {
            let oldm = *old(self);
            assert forall|x: int, y: int, m: IdRepr|
                0 <= x < y < self.pots@.len() implies !(#[trigger] pot_owns(self.pots@[x], m)
                && #[trigger] pot_owns(self.pots@[y], m)) by {
                assert(pot_owns(self.pots@[x], m) ==> pot_owns(oldm.pots@[x], m));
                assert(pot_owns(self.pots@[y], m) ==> pot_owns(oldm.pots@[y], m));
            }
        }
    }
}

fn contains_module_id(v: &Vec<ModuleId>, id: &ModuleId) -> (r: bool)
    ensures
        r == exists|k: int| 0 <= k < v@.len() && (#[trigger] v@[k])@ == id@,
{
    let mut i: usize = 0;
    while i < v.len()
        invariant
            i <= v@.len(),
            forall|k: int| 0 <= k < i ==> (#[trigger] v@[k])@ != id@,
        decreases v@.len() - i,
    {
        if v[i] == *id {
            return true;
        }
        i += 1;
    }
    false
}

impl Clone for ResourcePotType {
    fn clone(&self) -> (r: Self)
        ensures
            r == *self,
    {
        match self {
            ResourcePotType::Runtime => ResourcePotType::Runtime,
            ResourcePotType::Js => ResourcePotType::Js,
            ResourcePotType::Css => ResourcePotType::Css,
            ResourcePotType::Html => ResourcePotType::Html,
            ResourcePotType::Custom(s) => ResourcePotType::Custom(s.clone()),
        }
    }
}

impl Clone for ResourcePot {
    fn clone(&self) -> (r: Self)
        ensures
            r.id == self.id,
            r.pot_type == self.pot_type,
            r.immutable == self.immutable,
            r.modules@ == self.modules@,
            r.resources@ == self.resources@,
    {
        let r = ResourcePot {
            id: self.id.clone(),
            pot_type: self.pot_type.clone(),
            immutable: self.immutable,
            modules: self.modules.clone(),
            resources: self.resources.clone(),
        };
        proof {
            assert(r.modules@ =~= self.modules@);
            assert(r.resources@ =~= self.resources@);
        }
        r
    }
}

} // verus!
