//! The module dependency graph: modules, dependency edges and named entries.
//!
//! The graph is an arena of modules with the edges held beside them; every
//! operation keeps it well formed: module ids are pairwise distinct, there is
//! at most one edge per ordered pair of ids, and every edge's endpoints are
//! modules of the graph (no dangling edges).

use vstd::prelude::*;
use vstd::pervasive::VecAdditionalExecFns;

use crate::ids::{IdRepr, ModuleId};
use crate::module::{Module, ModuleType};

verus! {

/// How a dependency is brought in; part of the metadata needed to
/// reconstruct the import if the edge is moved to another source node.
pub enum EdgeKind {
    Import,
    DynamicImport,
    Require,
}

/// Resolution metadata carried by a dependency edge.
pub struct EdgeMeta {
    /// The specifier as written at the import site.
    pub specifier: String,
    pub kind: EdgeKind,
}

/// A directed dependency edge between two modules of the graph.
pub struct Edge {
    pub from: ModuleId,
    pub to: ModuleId,
    pub meta: EdgeMeta,
}

/// A named entry point of the graph.
pub struct Entry {
    pub id: ModuleId,
    pub name: String,
}

pub struct ModuleGraph {
    pub modules: Vec<Module>,
    pub edges: Vec<Edge>,
    pub entries: Vec<Entry>,
}

pub open spec fn edge_connects(e: Edge, a: IdRepr, b: IdRepr) -> bool {
    e.from@ == a && e.to@ == b
}

/// `b` is `a` with only the execution-order annotations changed: the same
/// modules under the same ids with the same kinds, flags and pot links.
pub open spec fn same_but_order(a: Seq<Module>, b: Seq<Module>) -> bool {
    b.len() == a.len() && forall|i: int|
        0 <= i < a.len() ==> #[trigger] b[i] == (Module {
            execution_order: b[i].execution_order,
            ..a[i]
        })
}

/// `order_seq` witnesses a fresh numbering of `g` starting at its entry
/// points: pairwise distinct module ids, the p-th carrying execution order
/// p, and every entry id that names a module among them.
pub open spec fn orders_from_entries(g: ModuleGraph, order_seq: Seq<IdRepr>) -> bool {
    &&& forall|p: int, q: int| 0 <= p < q < order_seq.len() ==> order_seq[p] != order_seq[q]
    &&& forall|p: int|
        0 <= p < order_seq.len() ==> g.has_mod(#[trigger] order_seq[p]) && g.mod_at(
            order_seq[p],
        ).execution_order == p
    &&& forall|w: int|
        0 <= w < g.entries@.len() && g.has_mod((#[trigger] g.entries@[w]).id@) ==> exists|p: int|
            0 <= p < order_seq.len() && #[trigger] order_seq[p] == g.entries@[w].id@
}

/// Pairwise distinct ids that all name modules cannot outnumber the
/// modules.
proof fn lemma_distinct_present_bound(g: ModuleGraph, ids: Seq<IdRepr>)
    requires
        g.ids_distinct(),
        forall|p: int, q: int| 0 <= p < q < ids.len() ==> ids[p] != ids[q],
        forall|p: int| 0 <= p < ids.len() ==> g.has_mod(#[trigger] ids[p]),
    ensures
        ids.len() <= g.modules@.len(),
{
    broadcast use vstd::set::group_set_axioms;

    let idx = Seq::new(ids.len(), |p: int| g.mod_idx(ids[p]));
    assert forall|p: int, q: int|
        0 <= p < idx.len() && 0 <= q < idx.len() && p != q implies idx[p] != idx[q] by {
        let a = g.mod_idx(ids[p]);
        assert(0 <= a < g.modules@.len() && g.modules@[a].id@ == ids[p]);
        let b = g.mod_idx(ids[q]);
        assert(0 <= b < g.modules@.len() && g.modules@[b].id@ == ids[q]);
        if a == b {
            assert(ids[p] == ids[q]);
            if p < q {
            } else {
            }
            assert(false);
        }
    }
    assert(idx.no_duplicates());
    idx.unique_seq_to_set();
    let range = vstd::set_lib::set_int_range(0, g.modules@.len() as int);
    vstd::set_lib::lemma_int_range(0, g.modules@.len() as int);
    assert(idx.to_set().subset_of(range)) by {
        assert forall|x: int| idx.to_set().contains(x) implies range.contains(x) by {
            let p = choose|p: int| 0 <= p < idx.len() && idx[p] == x;
            assert(0 <= g.mod_idx(ids[p]) < g.modules@.len() && g.modules@[g.mod_idx(ids[p])].id@
                == ids[p]);
        }
    }
    vstd::set_lib::lemma_len_subset(idx.to_set(), range);
}

/// The edge as it stands after the module with id `from_id` is renamed to
/// `to`: endpoints that pointed at it are rewritten, the metadata is kept.
pub open spec fn renamed_edge(e: Edge, from_id: IdRepr, to: ModuleId) -> Edge {
    Edge {
        from: if e.from@ == from_id {
            to
        } else {
            e.from
        },
        to: if e.to@ == from_id {
            to
        } else {
            e.to
        },
        meta: e.meta,
    }
}

impl Clone for EdgeKind {
    fn clone(&self) -> (r: Self)
        ensures
            r == *self,
    {
        match self {
            EdgeKind::Import => EdgeKind::Import,
            EdgeKind::DynamicImport => EdgeKind::DynamicImport,
            EdgeKind::Require => EdgeKind::Require,
        }
    }
}

impl Clone for EdgeMeta {
    fn clone(&self) -> (r: Self)
        ensures
            r == *self,
    {
        EdgeMeta { specifier: self.specifier.clone(), kind: self.kind.clone() }
    }
}

impl Clone for Edge {
    fn clone(&self) -> (r: Self)
        ensures
            r == *self,
    {
        Edge { from: self.from.clone(), to: self.to.clone(), meta: self.meta.clone() }
    }
}

impl ModuleGraph {
    /// Some module of the graph has this id.
    pub open spec fn has_mod(self, id: IdRepr) -> bool {
        exists|i: int| 0 <= i < self.modules@.len() && (#[trigger] self.modules@[i]).id@ == id
    }

    /// Index of the module with this id (meaningful under `ids_distinct`).
    pub open spec fn mod_idx(self, id: IdRepr) -> int {
        choose|i: int| 0 <= i < self.modules@.len() && (#[trigger] self.modules@[i]).id@ == id
    }

    /// The module with this id.
    pub open spec fn mod_at(self, id: IdRepr) -> Module {
        self.modules@[self.mod_idx(id)]
    }

    /// There is a dependency edge from `a` to `b`.
    pub open spec fn has_edge_repr(self, a: IdRepr, b: IdRepr) -> bool {
        exists|i: int| 0 <= i < self.edges@.len() && edge_connects(#[trigger] self.edges@[i], a, b)
    }

    /// `b` has two distinct dependents.
    pub open spec fn two_dependents(self, b: IdRepr) -> bool {
        exists|a1: IdRepr, a2: IdRepr|
            a1 != a2 && #[trigger] self.has_edge_repr(a1, b) && #[trigger] self.has_edge_repr(
                a2,
                b,
            )
    }

    pub open spec fn ids_distinct(self) -> bool {
        forall|i: int, j: int|
            0 <= i < j < self.modules@.len() ==> (#[trigger] self.modules@[i]).id@ != (
            #[trigger] self.modules@[j]).id@
    }

    pub open spec fn edges_unique(self) -> bool {
        forall|i: int, j: int|
            0 <= i < j < self.edges@.len() ==> !((#[trigger] self.edges@[i]).from@ == (
            #[trigger] self.edges@[j]).from@ && self.edges@[i].to@ == self.edges@[j].to@)
    }

    pub open spec fn edges_closed(self) -> bool {
        forall|i: int|
            0 <= i < self.edges@.len() ==> self.has_mod((#[trigger] self.edges@[i]).from@)
                && self.has_mod(self.edges@[i].to@)
    }

    /// The graph invariant: a valid directed graph with no dangling edges.
    pub open spec fn wf(self) -> bool {
        self.ids_distinct() && self.edges_unique() && self.edges_closed()
    }

    /// The parts of the graph the rebuild logic observes, as one value;
    /// two graphs with equal representations are the same graph.
    pub open spec fn repr(self) -> (Seq<Module>, Seq<Edge>, Seq<Entry>) {
        (self.modules@, self.edges@, self.entries@)
    }

    pub fn new() -> (g: ModuleGraph)
        ensures
            g.modules@ == Seq::<Module>::empty(),
            g.edges@ == Seq::<Edge>::empty(),
            g.entries@ == Seq::<Entry>::empty(),
            g.wf(),
    {
        ModuleGraph { modules: Vec::new(), edges: Vec::new(), entries: Vec::new() }
    }

    fn find_module(&self, id: &ModuleId) -> (r: Option<usize>)
        ensures
            match r {
                Some(i) => i < self.modules@.len() && self.modules@[i as int].id@ == id@,
                None => !self.has_mod(id@),
            },
    {
        let mut i: usize = 0;
        while i < self.modules.len()
            invariant
                i <= self.modules@.len(),
                forall|k: int| 0 <= k < i ==> (#[trigger] self.modules@[k]).id@ != id@,
            decreases self.modules@.len() - i,
        {
            if self.modules[i].id == *id {
                return Some(i);
            }
            i += 1;
        }
        None
    }

    pub fn has_module(&self, id: &ModuleId) -> (r: bool)
        ensures
            r == self.has_mod(id@),
    {
        self.find_module(id).is_some()
    }

    /// Look the module with this id up.
    pub fn module<'a>(&'a self, id: &ModuleId) -> (r: Option<&'a Module>)
        requires
            self.wf(),
        ensures
            match r {
                Some(m) => self.has_mod(id@) && *m == self.mod_at(id@) && m.id@ == id@,
                None => !self.has_mod(id@),
            },
    {
        match self.find_module(id) {
            Some(i) => {
                let m = &self.modules[i];
                proof {
                    let j = self.mod_idx(id@);
                    assert(self.modules@[j].id@ == id@);
                    if i as int != j {
                        assert(false);  // two distinct modules with one id
                    }
                }
                Some(m)
            },
            None => None,
        }
    }

    fn find_edge(&self, a: &ModuleId, b: &ModuleId) -> (r: Option<usize>)
        ensures
            match r {
                Some(i) => i < self.edges@.len() && edge_connects(self.edges@[i as int], a@, b@),
                None => !self.has_edge_repr(a@, b@),
            },
    {
        let mut i: usize = 0;
        while i < self.edges.len()
            invariant
                i <= self.edges@.len(),
                forall|k: int| 0 <= k < i ==> !edge_connects(#[trigger] self.edges@[k], a@, b@),
            decreases self.edges@.len() - i,
        {
            if self.edges[i].from == *a && self.edges[i].to == *b {
                return Some(i);
            }
            i += 1;
        }
        None
    }

    /// Whether an edge `a -> b` exists: the sole test for "b is already
    /// handled for a" in the scoper.
    pub fn has_edge(&self, a: &ModuleId, b: &ModuleId) -> (r: bool)
        ensures
            r == self.has_edge_repr(a@, b@),
    {
        self.find_edge(a, b).is_some()
    }

    /// Ids of the dependencies of `id`: the targets of the edges leaving it.
    pub fn dependencies_ids(&self, id: &ModuleId) -> (r: Vec<ModuleId>)
        requires
            self.wf(),
        ensures
            forall|k: int| 0 <= k < r@.len() ==> self.has_edge_repr(id@, (#[trigger] r@[k])@),
            forall|i: int|
                0 <= i < self.edges@.len() && (#[trigger] self.edges@[i]).from@ == id@
                    ==> exists|k: int| 0 <= k < r@.len() && (#[trigger] r@[k])@ == self.edges@[i].to@,
    {
        let mut r: Vec<ModuleId> = Vec::new();
        let mut i: usize = 0;
        while i < self.edges.len()
            invariant
                self.wf(),
                i <= self.edges@.len(),
                forall|k: int| 0 <= k < r@.len() ==> self.has_edge_repr(id@, (#[trigger] r@[k])@),
                forall|e: int|
                    0 <= e < i && (#[trigger] self.edges@[e]).from@ == id@ ==> exists|k: int|
                        0 <= k < r@.len() && (#[trigger] r@[k])@ == self.edges@[e].to@,
            decreases self.edges@.len() - i,
        {
            let ghost prev = r@;
            let matched = self.edges[i].from == *id;
            if matched {
                r.push(self.edges[i].to.clone());
                proof {
                    assert(edge_connects(self.edges@[i as int], id@, r@[r@.len() - 1]@));
                }
            }
            proof {
                assert forall|e: int|
                    0 <= e < i + 1 && (#[trigger] self.edges@[e]).from@ == id@ implies exists|
                    k: int,
                |
                    0 <= k < r@.len() && (#[trigger] r@[k])@ == self.edges@[e].to@ by {
                    if e < i {
                        let k = choose|k: int|
                            0 <= k < prev.len() && (#[trigger] prev[k])@ == self.edges@[e].to@;
                        assert(r@[k]@ == self.edges@[e].to@);
                    } else {
                        assert(r@[r@.len() - 1]@ == self.edges@[e].to@);
                    }
                }
            }
            i += 1;
        }
        r
    }

    /// Ids of the dependents of `id`: the sources of the edges entering it.
    pub fn dependents_ids(&self, id: &ModuleId) -> (r: Vec<ModuleId>)
        requires
            self.wf(),
        ensures
            forall|k: int| 0 <= k < r@.len() ==> self.has_edge_repr((#[trigger] r@[k])@, id@),
            forall|i: int|
                0 <= i < self.edges@.len() && (#[trigger] self.edges@[i]).to@ == id@
                    ==> exists|k: int| 0 <= k < r@.len() && (#[trigger] r@[k])@ == self.edges@[i].from@,
    {
        let mut r: Vec<ModuleId> = Vec::new();
        let mut i: usize = 0;
        while i < self.edges.len()
            invariant
                self.wf(),
                i <= self.edges@.len(),
                forall|k: int| 0 <= k < r@.len() ==> self.has_edge_repr((#[trigger] r@[k])@, id@),
                forall|e: int|
                    0 <= e < i && (#[trigger] self.edges@[e]).to@ == id@ ==> exists|k: int|
                        0 <= k < r@.len() && (#[trigger] r@[k])@ == self.edges@[e].from@,
            decreases self.edges@.len() - i,
        {
            let ghost prev = r@;
            let matched = self.edges[i].to == *id;
            if matched {
                r.push(self.edges[i].from.clone());
                proof {
                    assert(edge_connects(self.edges@[i as int], r@[r@.len() - 1]@, id@));
                }
            }
            proof {
                assert forall|e: int|
                    0 <= e < i + 1 && (#[trigger] self.edges@[e]).to@ == id@ implies exists|k: int|
                    0 <= k < r@.len() && (#[trigger] r@[k])@ == self.edges@[e].from@ by {
                    if e < i {
                        let k = choose|k: int|
                            0 <= k < prev.len() && (#[trigger] prev[k])@ == self.edges@[e].from@;
                        assert(r@[k]@ == self.edges@[e].from@);
                    } else {
                        assert(r@[r@.len() - 1]@ == self.edges@[e].from@);
                    }
                }
            }
            i += 1;
        }
        r
    }

    /// Whether more than one module depends on `id`: the fan-in test that
    /// decides between cloning a dependency and renaming it in place.
    pub fn has_multiple_dependents(&self, id: &ModuleId) -> (r: bool)
        requires
            self.wf(),
        ensures
            r == self.two_dependents(id@),
    {
        let mut count: usize = 0;
        let ghost mut first: int = 0;
        let ghost mut second: int = 0;
        let mut i: usize = 0;
        while i < self.edges.len()
            invariant
                self.wf(),
                i <= self.edges@.len(),
                count <= i,
                count == 0 ==> forall|e: int|
                    0 <= e < i ==> (#[trigger] self.edges@[e]).to@ != id@,
                count >= 1 ==> 0 <= first < i && self.edges@[first].to@ == id@,
                count == 1 ==> forall|e: int|
                    0 <= e < i && (#[trigger] self.edges@[e]).to@ == id@ ==> e == first,
                count >= 2 ==> 0 <= second < i && second != first && self.edges@[second].to@ == id@,
            decreases self.edges@.len() - i,
        {
            if self.edges[i].to == *id {
                if count == 0 {
                    proof {
                        first = i as int;
                    }
                } else if count == 1 {
                    proof {
                        second = i as int;
                    }
                }
                count += 1;
            }
            i += 1;
        }
        proof {
            if count >= 2 {
                let a1 = self.edges@[first].from@;
                let a2 = self.edges@[second].from@;
                assert(self.has_edge_repr(a1, id@));
                assert(self.has_edge_repr(a2, id@));
                if first < second {
                    assert(a1 != a2);
                } else {
                    assert(a2 != a1);
                }
            } else {
                if self.two_dependents(id@) {
                    let (a1, a2) = choose|a1: IdRepr, a2: IdRepr|
                        a1 != a2 && #[trigger] self.has_edge_repr(a1, id@)
                            && #[trigger] self.has_edge_repr(a2, id@);
                    let e1 = choose|e: int|
                        0 <= e < self.edges@.len() && edge_connects(
                            #[trigger] self.edges@[e],
                            a1,
                            id@,
                        );
                    let e2 = choose|e: int|
                        0 <= e < self.edges@.len() && edge_connects(
                            #[trigger] self.edges@[e],
                            a2,
                            id@,
                        );
                    assert(e1 != e2);
                    assert(count >= 1);
                    assert(e1 == first && e2 == first);  // from the count == 1 invariant
                    assert(false);
                }
            }
        }
        count >= 2
    }

    /// Insert a module under a fresh id.
    pub fn add_module(&mut self, m: Module)
        requires
            old(self).wf(),
            !old(self).has_mod(m.id@),
        ensures
            final(self).modules@ == old(self).modules@.push(m),
            final(self).edges@ == old(self).edges@,
            final(self).entries@ == old(self).entries@,
            final(self).wf(),
    {
        self.modules.push(m);
        proof {
            assert forall|i: int|
                0 <= i < self.edges@.len() implies self.has_mod(
                (#[trigger] self.edges@[i]).from@,
            ) && self.has_mod(self.edges@[i].to@) by {
                let oldg = *old(self);
                assert(oldg.has_mod(oldg.edges@[i].from@));
                let a = oldg.mod_idx(oldg.edges@[i].from@);
                assert(self.modules@[a].id@ == self.edges@[i].from@);
                assert(oldg.has_mod(oldg.edges@[i].to@));
                let b = oldg.mod_idx(oldg.edges@[i].to@);
                assert(self.modules@[b].id@ == self.edges@[i].to@);
            }
        }
    }

    /// Add the edge `a -> b`, which must not exist yet, carrying `meta`.
    pub fn add_edge(&mut self, a: &ModuleId, b: &ModuleId, meta: EdgeMeta)
        requires
            old(self).wf(),
            old(self).has_mod(a@),
            old(self).has_mod(b@),
            !old(self).has_edge_repr(a@, b@),
        ensures
            final(self).modules@ == old(self).modules@,
            final(self).entries@ == old(self).entries@,
            final(self).edges@.len() == old(self).edges@.len() + 1,
            final(self).edges@ == old(self).edges@.push(
                final(self).edges@[old(self).edges@.len() as int],
            ),
            edge_connects(final(self).edges@[old(self).edges@.len() as int], a@, b@),
            final(self).edges@[old(self).edges@.len() as int].meta == meta,
            final(self).wf(),
    {
        let e = Edge { from: a.clone(), to: b.clone(), meta };
        self.edges.push(e);
        proof {
            let n = old(self).edges@.len() as int;
            assert(self.edges@ =~= old(self).edges@.push(self.edges@[n]));
            assert forall|i: int|
                0 <= i < self.edges@.len() implies self.has_mod(
                (#[trigger] self.edges@[i]).from@,
            ) && self.has_mod(self.edges@[i].to@) by {
                let oldg = *old(self);
                if i < n {
                    let x = oldg.mod_idx(oldg.edges@[i].from@);
                    assert(self.modules@[x].id@ == self.edges@[i].from@);
                    let y = oldg.mod_idx(oldg.edges@[i].to@);
                    assert(self.modules@[y].id@ == self.edges@[i].to@);
                } else {
                    let x = oldg.mod_idx(a@);
                    assert(self.modules@[x].id@ == a@);
                    let y = oldg.mod_idx(b@);
                    assert(self.modules@[y].id@ == b@);
                }
            }
            assert forall|i: int, j: int| 0 <= i < j < self.edges@.len() implies !((
            #[trigger] self.edges@[i]).from@ == (#[trigger] self.edges@[j]).from@
                && self.edges@[i].to@ == self.edges@[j].to@) by {
                if j == n && self.edges@[i].from@ == a@ && self.edges@[i].to@ == b@ {
                    assert(old(self).has_edge_repr(a@, b@));
                }
            }
        }
    }

    /// Remove the edge `a -> b` and hand back its metadata; `None`, with the
    /// graph untouched, when there is no such edge.
    pub fn remove_edge(&mut self, a: &ModuleId, b: &ModuleId) -> (r: Option<EdgeMeta>)
        requires
            old(self).wf(),
        ensures
            final(self).modules@ == old(self).modules@,
            final(self).entries@ == old(self).entries@,
            final(self).wf(),
            !final(self).has_edge_repr(a@, b@),
            match r {
                Some(meta) => exists|i: int|
                    0 <= i < old(self).edges@.len() && edge_connects(
                        #[trigger] old(self).edges@[i],
                        a@,
                        b@,
                    ) && meta == old(self).edges@[i].meta && final(self).edges@ == old(
                        self,
                    ).edges@.remove(i),
                None => final(self).edges@ == old(self).edges@ && !old(self).has_edge_repr(a@, b@),
            },
    {
        match self.find_edge(a, b) {
            Some(i) => {
                let e = self.edges.remove(i);
                proof {
                    let oldg = *old(self);
                    assert(oldg.edges@[i as int].meta == e.meta);
                    assert forall|k: int|
                        0 <= k < self.edges@.len() implies exists|j: int|
                        0 <= j < oldg.edges@.len() && oldg.edges@[j] == #[trigger] self.edges@[k]
                            && (if k < i as int {
                            j == k
                        } else {
                            j == k + 1
                        }) by {
                        if k < i as int {
                            assert(self.edges@[k] == oldg.edges@[k]);
                        } else {
                            assert(self.edges@[k] == oldg.edges@[k + 1]);
                        }
                    }
                    assert forall|k: int|
                        0 <= k < self.edges@.len() implies !edge_connects(
                        #[trigger] self.edges@[k],
                        a@,
                        b@,
                    ) by {
                        if k < i as int {
                            assert(self.edges@[k] == oldg.edges@[k]);
                        } else {
                            assert(self.edges@[k] == oldg.edges@[k + 1]);
                        }
                    }
                    assert forall|x: int, y: int| 0 <= x < y < self.edges@.len() implies !((
                    #[trigger] self.edges@[x]).from@ == (#[trigger] self.edges@[y]).from@
                        && self.edges@[x].to@ == self.edges@[y].to@) by {
                        let px: int = if x < i as int {
                            x
                        } else {
                            x + 1
                        };
                        let py: int = if y < i as int {
                            y
                        } else {
                            y + 1
                        };
                        assert(self.edges@[x] == oldg.edges@[px]);
                        assert(self.edges@[y] == oldg.edges@[py]);
                    }
                    assert forall|k: int|
                        0 <= k < self.edges@.len() implies self.has_mod(
                        (#[trigger] self.edges@[k]).from@,
                    ) && self.has_mod(self.edges@[k].to@) by {
                        let pk: int = if k < i as int {
                            k
                        } else {
                            k + 1
                        };
                        assert(self.edges@[k] == oldg.edges@[pk]);
                        let x = oldg.mod_idx(oldg.edges@[pk].from@);
                        assert(self.modules@[x].id@ == self.edges@[k].from@);
                        let y = oldg.mod_idx(oldg.edges@[pk].to@);
                        assert(self.modules@[y].id@ == self.edges@[k].to@);
                    }
                }
                Some(e.meta)
            },
            None => None,
        }
    }

    /// Rename the module with id `old_id` to the fresh id `new_id`, fixing
    /// every edge that touches it in the same step, so that no dangling edge
    /// is ever observable.
    pub fn rename_module(&mut self, old_id: &ModuleId, new_id: ModuleId)
        requires
            old(self).wf(),
            old(self).has_mod(old_id@),
            !old(self).has_mod(new_id@),
        ensures
            final(self).entries@ == old(self).entries@,
            final(self).modules@ == old(self).modules@.update(
                old(self).mod_idx(old_id@),
                Module { id: new_id, ..old(self).mod_at(old_id@) },
            ),
            final(self).edges@.len() == old(self).edges@.len(),
            forall|i: int|
                0 <= i < old(self).edges@.len() ==> final(self).edges@[i] == renamed_edge(
                    #[trigger] old(self).edges@[i],
                    old_id@,
                    new_id,
                ),
            final(self).wf(),
            final(self).has_mod(new_id@),
            !final(self).has_mod(old_id@),
    {
        let k = match self.find_module(old_id) {
            Some(k) => k,
            None => {
                proof {
                    assert(false);
                }
                0
            },
        };
        proof {
            let j = self.mod_idx(old_id@);
            assert(self.modules@[j].id@ == old_id@);
            if k as int != j {
                assert(false);  // ids are distinct
            }
        }
        let m = self.modules[k].clone();
        let renamed = Module { id: new_id.clone(), ..m };
        self.modules.set(k, renamed);
        let ghost mid = *self;
        proof {
            assert(mid.modules@ == old(self).modules@.update(
                old(self).mod_idx(old_id@),
                Module { id: new_id, ..old(self).mod_at(old_id@) },
            ));
        }
        let mut i: usize = 0;
        while i < self.edges.len()
            invariant
                self.modules@ == mid.modules@,
                self.entries@ == mid.entries@,
                i <= self.edges@.len(),
                self.edges@.len() == mid.edges@.len(),
                forall|e: int|
                    0 <= e < i ==> self.edges@[e] == renamed_edge(
                        #[trigger] mid.edges@[e],
                        old_id@,
                        new_id,
                    ),
                forall|e: int| i <= e < self.edges@.len() ==> self.edges@[e] == mid.edges@[e],
            decreases self.edges@.len() - i,
        {
            let e = self.edges[i].clone();
            let from = if e.from == *old_id {
                new_id.clone()
            } else {
                e.from
            };
            let to = if e.to == *old_id {
                new_id.clone()
            } else {
                e.to
            };
            self.edges.set(i, Edge { from, to, meta: e.meta });
            i += 1;
        }
        proof {
            let oldg = *old(self);
            let kk = oldg.mod_idx(old_id@);
            // every module id other than the renamed one is untouched
            assert forall|x: int|
                0 <= x < oldg.modules@.len() && x != kk implies self.modules@[x]
                == oldg.modules@[x] && (#[trigger] self.modules@[x]).id@ != old_id@ by {
                if oldg.modules@[x].id@ == old_id@ {
                    assert(oldg.modules@[kk].id@ == old_id@);
                    assert(false);  // two modules with one id
                }
            }
            assert forall|x: int|
                0 <= x < self.modules@.len() implies (#[trigger] self.modules@[x]).id@
                != new_id@ || x == kk by {
                if x != kk && oldg.modules@[x].id@ == new_id@ {
                    assert(oldg.has_mod(new_id@));
                }
            }
            assert(self.modules@[kk].id@ == new_id@);
            assert(self.has_mod(new_id@));
            assert(!self.has_mod(old_id@)) by {
                if self.has_mod(old_id@) {
                    let x = choose|x: int|
                        0 <= x < self.modules@.len() && (#[trigger] self.modules@[x]).id@
                            == old_id@;
                    assert(x != kk);
                }
            }
            // no old endpoint equals the fresh id, so renaming is injective
            assert forall|e: int|
                0 <= e < oldg.edges@.len() implies (#[trigger] oldg.edges@[e]).from@ != new_id@
                && oldg.edges@[e].to@ != new_id@ by {
                if oldg.edges@[e].from@ == new_id@ {
                    assert(oldg.has_mod(oldg.edges@[e].from@));
                }
                if oldg.edges@[e].to@ == new_id@ {
                    assert(oldg.has_mod(oldg.edges@[e].to@));
                }
            }
            assert forall|x: int, y: int| 0 <= x < y < self.edges@.len() implies !((
            #[trigger] self.edges@[x]).from@ == (#[trigger] self.edges@[y]).from@
                && self.edges@[x].to@ == self.edges@[y].to@) by {
                let ex = oldg.edges@[x];
                let ey = oldg.edges@[y];
                assert(self.edges@[x] == renamed_edge(ex, old_id@, new_id));
                assert(self.edges@[y] == renamed_edge(ey, old_id@, new_id));
                if self.edges@[x].from@ == self.edges@[y].from@ && self.edges@[x].to@
                    == self.edges@[y].to@ {
                    assert(ex.from@ == ey.from@ && ex.to@ == ey.to@);
                }
            }
            assert forall|e: int|
                0 <= e < self.edges@.len() implies self.has_mod(
                (#[trigger] self.edges@[e]).from@,
            ) && self.has_mod(self.edges@[e].to@) by {
                let oe = oldg.edges@[e];
                assert(self.edges@[e] == renamed_edge(oe, old_id@, new_id));
                let a = oldg.mod_idx(oe.from@);
                if oe.from@ == old_id@ {
                    assert(self.edges@[e].from@ == new_id@);
                } else {
                    assert(a != kk ==> self.modules@[a] == oldg.modules@[a]);
                    if a == kk {
                        assert(oldg.modules@[kk].id@ == old_id@);
                        assert(false);
                    }
                    assert(self.modules@[a].id@ == oe.from@);
                }
                let b = oldg.mod_idx(oe.to@);
                if oe.to@ == old_id@ {
                    assert(self.edges@[e].to@ == new_id@);
                } else {
                    if b == kk {
                        assert(oldg.modules@[kk].id@ == old_id@);
                        assert(false);
                    }
                    assert(self.modules@[b].id@ == oe.to@);
                }
            }
        }
    }

    /// Replace the kind of the module with this id.
    pub fn update_module_type(&mut self, id: &ModuleId, ty: ModuleType)
        requires
            old(self).wf(),
            old(self).has_mod(id@),
        ensures
            final(self).modules@ == old(self).modules@.update(
                old(self).mod_idx(id@),
                Module { module_type: ty, ..old(self).mod_at(id@) },
            ),
            final(self).edges@ == old(self).edges@,
            final(self).entries@ == old(self).entries@,
            final(self).wf(),
    {
        let k = match self.find_module(id) {
            Some(k) => k,
            None => {
                proof {
                    assert(false);
                }
                0
            },
        };
        proof {
            let j = self.mod_idx(id@);
            assert(self.modules@[j].id@ == id@);
            if k as int != j {
                assert(false);
            }
        }
        let m = self.modules[k].clone();
        self.modules.set(k, Module { module_type: ty, ..m });
        proof {
            self.lemma_same_ids_wf(*old(self));
        }
    }

    /// Set or clear the pot back-reference of the module with this id.
    pub fn set_resource_pot(&mut self, id: &ModuleId, pot: Option<String>)
        requires
            old(self).wf(),
            old(self).has_mod(id@),
        ensures
            final(self).modules@ == old(self).modules@.update(
                old(self).mod_idx(id@),
                Module { resource_pot: pot, ..old(self).mod_at(id@) },
            ),
            final(self).edges@ == old(self).edges@,
            final(self).entries@ == old(self).entries@,
            final(self).wf(),
    {
        let k = match self.find_module(id) {
            Some(k) => k,
            None => {
                proof {
                    assert(false);
                }
                0
            },
        };
        proof {
            let j = self.mod_idx(id@);
            assert(self.modules@[j].id@ == id@);
            if k as int != j {
                assert(false);
            }
        }
        let m = self.modules[k].clone();
        self.modules.set(k, Module { resource_pot: pot, ..m });
        proof {
            self.lemma_same_ids_wf(*old(self));
        }
    }

    /// The graph after a change that kept every module id in place and did
    /// not touch the edges is still well formed.
    proof fn lemma_same_ids_wf(&self, prev: ModuleGraph)
        requires
            prev.wf(),
            self.edges@ == prev.edges@,
            self.modules@.len() == prev.modules@.len(),
            forall|i: int|
                0 <= i < prev.modules@.len() ==> (#[trigger] self.modules@[i]).id@
                    == prev.modules@[i].id@,
        ensures
            self.wf(),
            forall|x: IdRepr| self.has_mod(x) == prev.has_mod(x),
    {
        assert forall|x: IdRepr| self.has_mod(x) == prev.has_mod(x) by {
            if prev.has_mod(x) {
                let i = prev.mod_idx(x);
                assert(self.modules@[i].id@ == x);
            }
            if self.has_mod(x) {
                let i = choose|i: int|
                    0 <= i < self.modules@.len() && (#[trigger] self.modules@[i]).id@ == x;
                assert(prev.modules@[i].id@ == x);
            }
        }
        assert forall|e: int|
            0 <= e < self.edges@.len() implies self.has_mod((#[trigger] self.edges@[e]).from@)
            && self.has_mod(self.edges@[e].to@) by {
            assert(prev.has_mod(prev.edges@[e].from@) && prev.has_mod(prev.edges@[e].to@));
        }
    }

    /// Equal module sequences answer every lookup alike.
    pub proof fn lemma_mod_at_eq(&self, other: ModuleGraph)
        requires
            self.modules@ == other.modules@,
            self.ids_distinct(),
        ensures
            forall|x: IdRepr| self.has_mod(x) == other.has_mod(x),
            forall|x: IdRepr| #[trigger] self.has_mod(x) ==> self.mod_at(x) == other.mod_at(x),
    {
        assert forall|x: IdRepr| self.has_mod(x) == other.has_mod(x) by {
            if self.has_mod(x) {
                let i = choose|i: int|
                    0 <= i < self.modules@.len() && (#[trigger] self.modules@[i]).id@ == x;
                assert(other.modules@[i].id@ == x);
            }
            if other.has_mod(x) {
                let i = choose|i: int|
                    0 <= i < other.modules@.len() && (#[trigger] other.modules@[i]).id@ == x;
                assert(self.modules@[i].id@ == x);
            }
        }
        assert forall|x: IdRepr| #[trigger] self.has_mod(x) implies self.mod_at(x) == other.mod_at(
            x,
        ) by {
            let i = self.mod_idx(x);
            assert(self.modules@[i].id@ == x);
            let j = other.mod_idx(x);
            assert(other.modules@[j].id@ == x);
            if i != j {
                assert(self.modules@[i].id@ != self.modules@[j].id@);
            }
        }
    }

    /// With distinct ids, a module found at an index is the module of that
    /// id.
    pub proof fn lemma_mod_at_unique(&self, id: IdRepr, i: int)
        requires
            self.ids_distinct(),
            0 <= i < self.modules@.len(),
            self.modules@[i].id@ == id,
        ensures
            self.has_mod(id),
            self.mod_idx(id) == i,
            self.mod_at(id) == self.modules@[i],
    {
        assert(self.has_mod(id));
        let j = self.mod_idx(id);
        assert(self.modules@[j].id@ == id);
        if i != j {
            assert(false);
        }
    }

    /// How edge existence changes when one edge is removed.
    pub proof fn lemma_remove_has_edge(&self, pre: ModuleGraph, i: int)
        requires
            pre.edges_unique(),
            0 <= i < pre.edges@.len(),
            self.edges@ == pre.edges@.remove(i),
        ensures
            forall|a: IdRepr, b: IdRepr|
                !(a == pre.edges@[i].from@ && b == pre.edges@[i].to@) ==> #[trigger] self.has_edge_repr(a, b)
                    == pre.has_edge_repr(a, b),
            !self.has_edge_repr(pre.edges@[i].from@, pre.edges@[i].to@),
    {
        let ra = pre.edges@[i].from@;
        let rb = pre.edges@[i].to@;
        assert forall|a: IdRepr, b: IdRepr|
            !(a == ra && b == rb) implies #[trigger] self.has_edge_repr(a, b) == pre.has_edge_repr(
            a,
            b,
        ) by {
            if pre.has_edge_repr(a, b) {
                let e = choose|e: int|
                    0 <= e < pre.edges@.len() && edge_connects(#[trigger] pre.edges@[e], a, b);
                if e < i {
                    assert(self.edges@[e] == pre.edges@[e]);
                } else {
                    assert(e != i);
                    assert(self.edges@[e - 1] == pre.edges@[e]);
                }
            }
            if self.has_edge_repr(a, b) {
                let e = choose|e: int|
                    0 <= e < self.edges@.len() && edge_connects(#[trigger] self.edges@[e], a, b);
                if e < i {
                    assert(pre.edges@[e] == self.edges@[e]);
                } else {
                    assert(pre.edges@[e + 1] == self.edges@[e]);
                }
            }
        }
        if self.has_edge_repr(ra, rb) {
            let e = choose|e: int|
                0 <= e < self.edges@.len() && edge_connects(#[trigger] self.edges@[e], ra, rb);
            if e < i {
                assert(pre.edges@[e] == self.edges@[e]);
            } else {
                assert(pre.edges@[e + 1] == self.edges@[e]);
            }
        }
    }

    /// How edge existence changes when one edge is appended.
    pub proof fn lemma_push_has_edge(&self, pre: ModuleGraph, e: Edge)
        requires
            self.edges@ == pre.edges@.push(e),
        ensures
            forall|a: IdRepr, b: IdRepr|
                #[trigger] self.has_edge_repr(a, b) == (pre.has_edge_repr(a, b) || (a == e.from@
                    && b == e.to@)),
    {
        assert forall|a: IdRepr, b: IdRepr|
            #[trigger] self.has_edge_repr(a, b) == (pre.has_edge_repr(a, b) || (a == e.from@ && b
                == e.to@)) by {
            let n = pre.edges@.len() as int;
            if pre.has_edge_repr(a, b) {
                let k = choose|k: int|
                    0 <= k < pre.edges@.len() && edge_connects(#[trigger] pre.edges@[k], a, b);
                assert(self.edges@[k] == pre.edges@[k]);
                assert(self.has_edge_repr(a, b));
            }
            if a == e.from@ && b == e.to@ {
                assert(edge_connects(self.edges@[n], a, b));
                assert(self.has_edge_repr(a, b));
            }
            if self.has_edge_repr(a, b) {
                let k = choose|k: int|
                    0 <= k < self.edges@.len() && edge_connects(#[trigger] self.edges@[k], a, b);
                if k < n {
                    assert(pre.edges@[k] == self.edges@[k]);
                }
            }
        }
    }

    /// Recompute the execution-order annotations for the whole graph: the
    /// modules reachable from the entry points are renumbered in
    /// breadth-first order, so a dependency reached earlier runs earlier.
    /// Nothing else about the graph changes, and the new numbering is a
    /// dependency-respecting ordering from the entries.
    pub fn update_execution_order_for_modules(&mut self)
        requires
            old(self).wf(),
        ensures
            final(self).wf(),
            final(self).edges@ == old(self).edges@,
            final(self).entries@ == old(self).entries@,
            same_but_order(old(self).modules@, final(self).modules@),
            exists|order_seq: Seq<IdRepr>| #[trigger] orders_from_entries(*final(self), order_seq),
    {
        let ghost g0 = *old(self);
        let mut queue: Vec<ModuleId> = Vec::new();
        let mut ei: usize = 0;
        while ei < self.entries.len()
            invariant
                g0 == *old(self),
                *self == *old(self),
                ei <= self.entries@.len(),
                queue@.len() == ei,
                forall|w: int| 0 <= w < ei ==> (#[trigger] queue@[w])@ == self.entries@[w].id@,
            decreases self.entries@.len() - ei,
        {
            queue.push(self.entries[ei].id.clone());
            ei += 1;
        }
        let mut visited: Vec<ModuleId> = Vec::new();
        let mut order: usize = 0;
        let ghost mut numbered: Seq<IdRepr> = Seq::empty();
        let mut head: usize = 0;
        // bounded as in the scoper: the visited set is what ends the walk
        let mut fuel: u64 = u64::MAX;
        while head < queue.len() && fuel > 0
            invariant
                g0 == *old(self),
                g0.wf(),
                self.wf(),
                self.edges@ == g0.edges@,
                self.entries@ == g0.entries@,
                same_but_order(g0.modules@, self.modules@),
                head <= queue@.len(),
                head as int + fuel as int == u64::MAX as int,
                g0.entries@.len() <= queue@.len(),
                forall|w: int|
                    0 <= w < g0.entries@.len() ==> (#[trigger] queue@[w])@ == g0.entries@[w].id@,
                order == numbered.len(),
                forall|p: int, q: int| 0 <= p < q < numbered.len() ==> numbered[p] != numbered[q],
                forall|p: int|
                    0 <= p < numbered.len() ==> self.has_mod(#[trigger] numbered[p])
                        && self.mod_at(numbered[p]).execution_order == p,
                forall|w: int|
                    0 <= w < head && w < g0.entries@.len() && self.has_mod(
                        (#[trigger] g0.entries@[w]).id@,
                    ) ==> exists|p: int|
                        0 <= p < numbered.len() && #[trigger] numbered[p] == g0.entries@[w].id@,
                forall|v: int|
                    0 <= v < visited@.len() && self.has_mod((#[trigger] visited@[v])@)
                        ==> exists|p: int|
                        0 <= p < numbered.len() && #[trigger] numbered[p] == visited@[v]@,
                forall|p: int|
                    #![trigger numbered[p]]
                    0 <= p < numbered.len() ==> exists|v: int|
                        0 <= v < visited@.len() && (#[trigger] visited@[v])@ == numbered[p],
            decreases fuel,
        {
            fuel = fuel - 1;
            let cur_id = queue[head].clone();
            head = head + 1;
            let ghost self_top = *self;
            let ghost numbered_top = numbered;
            if contains_entry_id(&visited, &cur_id) {
                proof {
                    assert forall|w: int|
                        0 <= w < head && w < g0.entries@.len() && self.has_mod(
                            (#[trigger] g0.entries@[w]).id@,
                        ) implies exists|p: int|
                        0 <= p < numbered.len() && #[trigger] numbered[p]
                            == g0.entries@[w].id@ by {
                        if w == head as int - 1 {
                            assert(queue@[w]@ == g0.entries@[w].id@);
                            assert(g0.entries@[w].id@ == cur_id@);
                            let v = choose|v: int|
                                0 <= v < visited@.len() && (#[trigger] visited@[v])@ == cur_id@;
                        }
                    }
                }
                continue;
            }
            match self.find_module(&cur_id) {
                Some(k) => {
                    proof {
                        // the id was never numbered: everything numbered was
                        // visited, and this id was not
                        assert forall|p: int|
                            0 <= p < numbered.len() implies numbered[p] != cur_id@ by {
                            let v = choose|v: int|
                                0 <= v < visited@.len() && (#[trigger] visited@[v])@
                                    == numbered[p];
                        }
                        assert forall|p: int, q: int|
                            0 <= p < q < numbered.push(cur_id@).len() implies numbered.push(
                            cur_id@,
                        )[p] != numbered.push(cur_id@)[q] by {
                            if q < numbered.len() {
                            } else {
                                assert(numbered.push(cur_id@)[q] == cur_id@);
                            }
                        }
                        assert forall|p: int|
                            0 <= p < numbered.push(cur_id@).len() implies self.has_mod(
                            #[trigger] numbered.push(cur_id@)[p],
                        ) by {
                            if p == numbered.len() {
                                assert(self.modules@[k as int].id@ == cur_id@);
                            }
                        }
                        // numbering stays within the address space
                        lemma_distinct_present_bound(*self, numbered.push(cur_id@));
                        assert(order + 1 <= self.modules@.len());
                    }
                    let ghost pre = *self;
                    let m = self.modules[k].clone();
                    self.modules.set(k, Module { execution_order: order, ..m });
                    proof {
                        assert forall|j: int|
                            0 <= j < g0.modules@.len() implies #[trigger] self.modules@[j] == (
                        Module {
                            execution_order: self.modules@[j].execution_order,
                            ..g0.modules@[j]
                        }) by {
                            if j != k as int {
                                assert(self.modules@[j] == pre.modules@[j]);
                            }
                        }
                        self.lemma_same_ids_wf(pre);
                        assert(self.modules@[k as int].id@ == cur_id@);
                        self.lemma_mod_at_unique(cur_id@, k as int);
                        let ghost prev_numbered = numbered;
                        numbered = numbered.push(cur_id@);
                        assert forall|p: int|
                            0 <= p < numbered.len() implies self.has_mod(#[trigger] numbered[p])
                            && self.mod_at(numbered[p]).execution_order == p by {
                            if p < prev_numbered.len() {
                                assert(numbered[p] == prev_numbered[p]);
                                let w0 = pre.mod_idx(prev_numbered[p]);
                                assert(pre.modules@[w0].id@ == prev_numbered[p]);
                                if w0 == k as int {
                                    assert(prev_numbered[p] == cur_id@);
                                    assert(false);
                                }
                                assert(self.modules@[w0] == pre.modules@[w0]);
                                self.lemma_mod_at_unique(prev_numbered[p], w0);
                                pre.lemma_mod_at_unique(prev_numbered[p], w0);
                            } else {
                                assert(numbered[p] == cur_id@);
                                assert(self.mod_at(cur_id@) == self.modules@[k as int]);
                            }
                        }
                        // where the new number came from: the queue slot it
                        // was dequeued off
                        let t: int = head as int - 1;
                        assert(queue@[t]@ == cur_id@);
                        assert(numbered[numbered.len() - 1] == cur_id@);
                    }
                    let modules_count = self.modules.len();
                    proof {
                        assert(order + 1 <= modules_count);
                        assert(numbered[numbered.len() - 1] == cur_id@);
                    }
                    order = order + 1;
                },
                None => {},
            }
            proof {
                assert(numbered_top.len() <= numbered.len());
                assert(forall|p: int|
                    0 <= p < numbered_top.len() ==> #[trigger] numbered[p] == numbered_top[p]);
                assert(self.edges@ == self_top.edges@);
                assert forall|x: IdRepr| #[trigger] self.has_mod(x) == self_top.has_mod(x) by {
                    if self.has_mod(x) {
                        let i = choose|i: int|
                            0 <= i < self.modules@.len() && (#[trigger] self.modules@[i]).id@ == x;
                        assert(self_top.modules@[i].id@ == x);
                    }
                    if self_top.has_mod(x) {
                        let i = choose|i: int|
                            0 <= i < self_top.modules@.len() && (#[trigger] self_top.modules@[i]).id@
                                == x;
                        assert(self.modules@[i].id@ == x);
                    }
                }
            }
            let deps = self.dependencies_ids(&cur_id);
            proof {
                if !self.has_mod(cur_id@) {
                    if deps@.len() > 0 {
                        assert(self.has_edge_repr(cur_id@, deps@[0]@));
                        let e = choose|e: int|
                            0 <= e < self.edges@.len() && edge_connects(
                                #[trigger] self.edges@[e],
                                cur_id@,
                                deps@[0]@,
                            );
                        assert(self.has_mod(self.edges@[e].from@));
                        assert(false);
                    }
                }
            }
            let mut di: usize = 0;
            while di < deps.len()
                invariant
                    self.wf(),
                    head <= queue@.len(),
                    g0.entries@.len() <= queue@.len(),
                    numbered.len() <= usize::MAX,
                    forall|w: int|
                        0 <= w < g0.entries@.len() ==> (#[trigger] queue@[w])@
                            == g0.entries@[w].id@,
                    di <= deps@.len(),
                    forall|k2: int|
                        0 <= k2 < deps@.len() ==> self.has_edge_repr(
                            cur_id@,
                            (#[trigger] deps@[k2])@,
                        ),
                    self.has_mod(cur_id@) ==> exists|p: int|
                        0 <= p < numbered.len() && #[trigger] numbered[p] == cur_id@,
                decreases deps@.len() - di,
            {
                queue.push(deps[di].clone());
                di += 1;
            }
            let ghost visited_top = visited@;
            visited.push(cur_id.clone());
            proof {
                assert(visited@[visited@.len() - 1]@ == cur_id@);
                assert forall|v: int|
                    0 <= v < visited@.len() && self.has_mod((#[trigger] visited@[v])@)
                        implies exists|p: int|
                    0 <= p < numbered.len() && #[trigger] numbered[p] == visited@[v]@ by {
                    if v == visited@.len() - 1 {
                        assert(visited@[v]@ == cur_id@);
                        assert(numbered[numbered.len() - 1] == cur_id@);
                    } else {
                        assert(visited@[v] == visited_top[v]);
                        assert(self_top.has_mod(visited@[v]@));
                        let p = choose|p: int|
                            0 <= p < numbered_top.len() && #[trigger] numbered_top[p]
                                == visited_top[v]@;
                        assert(numbered[p] == numbered_top[p]);
                    }
                }
                assert forall|p: int|
                    #![trigger numbered[p]]
                    0 <= p < numbered.len() implies exists|v: int|
                    0 <= v < visited@.len() && (#[trigger] visited@[v])@ == numbered[p] by {
                    if p < numbered_top.len() {
                        assert(numbered[p] == numbered_top[p]);
                        let v = choose|v: int|
                            0 <= v < visited_top.len() && (#[trigger] visited_top[v])@
                                == numbered_top[p];
                        assert(visited@[v] == visited_top[v]);
                    } else {
                        assert(numbered[p] == cur_id@);
                        assert(visited@[visited@.len() - 1]@ == numbered[p]);
                    }
                }
                assert forall|w: int|
                    0 <= w < head && w < g0.entries@.len() && self.has_mod(
                        (#[trigger] g0.entries@[w]).id@,
                    ) implies exists|p: int|
                    0 <= p < numbered.len() && #[trigger] numbered[p] == g0.entries@[w].id@ by {
                    if w == head as int - 1 {
                        assert(queue@[w]@ == g0.entries@[w].id@);
                        assert(g0.entries@[w].id@ == cur_id@);
                        assert(numbered[numbered.len() - 1] == cur_id@);
                    } else {
                        assert(self_top.has_mod(g0.entries@[w].id@));
                        let p = choose|p: int|
                            0 <= p < numbered_top.len() && #[trigger] numbered_top[p]
                                == g0.entries@[w].id@;
                        assert(numbered[p] == numbered_top[p]);
                    }
                }
            }
        }
        let queue_count = queue.len();
        proof {
            assert(g0.entries@.len() <= head) by {
                if fuel == 0 {
                    assert(head as int == u64::MAX as int);
                    assert(queue_count <= usize::MAX);
                    assert(g0.entries@.len() <= queue_count);
                } else {
                    assert(head >= queue_count);
                }
            }
            assert(orders_from_entries(*self, numbered));
        }
    }

    /// Register a named entry point.
    pub fn add_entry(&mut self, id: ModuleId, name: String)
        requires
            old(self).wf(),
        ensures
            final(self).modules@ == old(self).modules@,
            final(self).edges@ == old(self).edges@,
            final(self).entries@ == old(self).entries@.push(Entry { id, name }),
            final(self).wf(),
    {
        self.entries.push(Entry { id, name });
    }
}

fn contains_entry_id(v: &Vec<ModuleId>, id: &ModuleId) -> (r: bool)
    ensures
        r == exists|k: int| 0 <= k < v@.len() && (#[trigger] v@[k])@ == id@,
{
    let mut i: usize = 0;
    while i < v.len()
        invariant
            i <= v@.len(),
            forall|k: int| 0 <= k < i ==> (#[trigger] v@[k])@ != id@,
        decreases v@.len() - i,
    {
        if v[i] == *id {
            return true;
        }
        i += 1;
    }
    false
}

} // verus!
