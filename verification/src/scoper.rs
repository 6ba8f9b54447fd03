//! Dynamic-input scoping: duplicate the subgraph reachable from an entry so
//! that the same module can be compiled differently under different build
//! scopes.

use vstd::prelude::*;

use crate::graph::{renamed_edge, Edge, EdgeKind, EdgeMeta, Entry, ModuleGraph};
use crate::ids::{scoped_repr, IdRepr, ModuleId};
use crate::module::{qualifies_for_scoping, Module, ModuleType};

verus! {

/// A registered dynamic input: only entries whose descriptor carries a scope
/// take part in scoping.
pub struct DynamicInput {
    pub name: String,
    pub scope: Option<String>,
}

/// Every module that the scoper may not touch (neither a script nor a
/// stylesheet) survives unchanged: type gating.
pub open spec fn keeps_unscoped_kinds(before: ModuleGraph, after: ModuleGraph) -> bool {
    forall|i: int|
        0 <= i < before.modules@.len() && !qualifies_for_scoping(
            (#[trigger] before.modules@[i]).module_type,
        ) ==> exists|j: int|
            0 <= j < after.modules@.len() && #[trigger] after.modules@[j] == before.modules@[i]
}

/// Every dependency edge already points at its target's scoped id: the state
/// a graph is in once scoping under this scope has run to completion.
pub open spec fn scope_settled(g: ModuleGraph, scope: Seq<char>) -> bool {
    forall|i: int|
        0 <= i < g.edges@.len() ==> scoped_repr((#[trigger] g.edges@[i]).to@, scope)
            == g.edges@[i].to@
}

pub proof fn lemma_keeps_unscoped_refl(a: ModuleGraph, b: ModuleGraph)
    requires
        b.modules@ == a.modules@,
    ensures
        keeps_unscoped_kinds(a, b),
{
    assert forall|i: int|
        0 <= i < a.modules@.len() && !qualifies_for_scoping(
            (#[trigger] a.modules@[i]).module_type,
        ) implies exists|j: int|
        0 <= j < b.modules@.len() && #[trigger] b.modules@[j] == a.modules@[i] by {
        assert(b.modules@[i] == a.modules@[i]);
    }
}

pub proof fn lemma_keeps_unscoped_trans(a: ModuleGraph, b: ModuleGraph, c: ModuleGraph)
    requires
        keeps_unscoped_kinds(a, b),
        keeps_unscoped_kinds(b, c),
    ensures
        keeps_unscoped_kinds(a, c),
{
    assert forall|i: int|
        0 <= i < a.modules@.len() && !qualifies_for_scoping(
            (#[trigger] a.modules@[i]).module_type,
        ) implies exists|j: int|
        0 <= j < c.modules@.len() && #[trigger] c.modules@[j] == a.modules@[i] by {
        let j = choose|j: int|
            0 <= j < b.modules@.len() && #[trigger] b.modules@[j] == a.modules@[i];
        assert(!qualifies_for_scoping(b.modules@[j].module_type));
        let k = choose|k: int|
            0 <= k < c.modules@.len() && #[trigger] c.modules@[k] == b.modules@[j];
    }
}

/// No edge of the graph points at this id: the state of an entry point
/// that no module depends on.
pub open spec fn entry_unparented(g: ModuleGraph, e: IdRepr) -> bool {
    forall|a: IdRepr| !(#[trigger] g.has_edge_repr(a, e))
}

/// The scoping step left the edges alone.
pub open spec fn step_unchanged(pre: ModuleGraph, post: ModuleGraph) -> bool {
    post.edges@ == pre.edges@
}

/// The edge-level effect of the shared (clone) branch.
pub open spec fn step_shared(
    pre: ModuleGraph,
    post: ModuleGraph,
    cur: IdRepr,
    dep: IdRepr,
    s: IdRepr,
) -> bool {
    &&& post.has_edge_repr(cur, s)
    &&& forall|a: IdRepr, b: IdRepr|
        !(a == cur && b == dep) && !(a == cur && b == s) ==> #[trigger] post.has_edge_repr(a, b)
            == pre.has_edge_repr(a, b)
}

/// The edge-level effect of the exclusive (rename) branch.
pub open spec fn step_exclusive(
    pre: ModuleGraph,
    post: ModuleGraph,
    cur: IdRepr,
    dep: IdRepr,
    s: IdRepr,
) -> bool {
    &&& !pre.has_mod(s)
    &&& !post.has_mod(dep)
    &&& post.has_edge_repr(cur, s)
    &&& forall|a: IdRepr, b: IdRepr|
        a != dep && b != dep && a != s && b != s ==> #[trigger] post.has_edge_repr(a, b)
            == pre.has_edge_repr(a, b)
    &&& forall|b: IdRepr|
        b != dep && b != s ==> #[trigger] post.has_edge_repr(s, b) == pre.has_edge_repr(dep, b)
}

/// One scoping step never gives the entry a parent, and never loses an edge
/// from the entry to a scoped id.
proof fn lemma_step_preserves_entry_facts(
    pre: ModuleGraph,
    post: ModuleGraph,
    cur: IdRepr,
    dep: IdRepr,
    scope: Seq<char>,
    entry: IdRepr,
)
    requires
        pre.wf(),
        post.wf(),
        pre.has_edge_repr(cur, dep),
        dep.2 != Some(scope),
        entry.2 != Some(scope),
        forall|a: IdRepr| !(#[trigger] pre.has_edge_repr(a, entry)),
        step_unchanged(pre, post) || step_shared(pre, post, cur, dep, scoped_repr(dep, scope))
            || step_exclusive(pre, post, cur, dep, scoped_repr(dep, scope)),
    ensures
        forall|a: IdRepr| !(#[trigger] post.has_edge_repr(a, entry)),
        forall|y: IdRepr|
            y.2 == Some(scope) && #[trigger] pre.has_edge_repr(entry, y) ==> post.has_edge_repr(
                entry,
                y,
            ),
{
    let s = scoped_repr(dep, scope);
    assert(dep != s);
    assert(entry != s);
    assert(entry != dep) by {
        if entry == dep {
            assert(pre.has_edge_repr(cur, entry));
        }
    }
    if step_unchanged(pre, post) {
        assert forall|a: IdRepr| !(#[trigger] post.has_edge_repr(a, entry)) by {
            if post.has_edge_repr(a, entry) {
                let e = choose|e: int|
                    0 <= e < post.edges@.len() && crate::graph::edge_connects(
                        #[trigger] post.edges@[e],
                        a,
                        entry,
                    );
                assert(crate::graph::edge_connects(pre.edges@[e], a, entry));
                assert(pre.has_edge_repr(a, entry));
            }
        }
        assert forall|y: IdRepr|
            y.2 == Some(scope) && #[trigger] pre.has_edge_repr(entry, y) implies post.has_edge_repr(
            entry,
            y,
        ) by {
            let e = choose|e: int|
                0 <= e < pre.edges@.len() && crate::graph::edge_connects(
                    #[trigger] pre.edges@[e],
                    entry,
                    y,
                );
            assert(crate::graph::edge_connects(post.edges@[e], entry, y));
        }
    } else if step_shared(pre, post, cur, dep, s) {
        assert forall|a: IdRepr| !(#[trigger] post.has_edge_repr(a, entry)) by {
            if post.has_edge_repr(a, entry) {
                assert(!(a == cur && entry == dep) && !(a == cur && entry == s));
                assert(pre.has_edge_repr(a, entry));
            }
        }
        assert forall|y: IdRepr|
            y.2 == Some(scope) && #[trigger] pre.has_edge_repr(entry, y) implies post.has_edge_repr(
            entry,
            y,
        ) by {
            if entry == cur && y == s {
                assert(post.has_edge_repr(cur, s));
            } else {
                assert(y != dep);
                assert(!(entry == cur && y == dep) && !(entry == cur && y == s));
                assert(post.has_edge_repr(entry, y) == pre.has_edge_repr(entry, y));
            }
        }
    } else {
        assert(step_exclusive(pre, post, cur, dep, s));
        assert forall|a: IdRepr| !(#[trigger] post.has_edge_repr(a, entry)) by {
            if post.has_edge_repr(a, entry) {
                if a != dep && a != s {
                    assert(pre.has_edge_repr(a, entry));
                } else if a == dep {
                    let e = choose|e: int|
                        0 <= e < post.edges@.len() && crate::graph::edge_connects(
                            #[trigger] post.edges@[e],
                            dep,
                            entry,
                        );
                    assert(post.has_mod(post.edges@[e].from@));
                } else {
                    assert(post.has_edge_repr(s, entry) == pre.has_edge_repr(dep, entry));
                }
            }
        }
        assert forall|y: IdRepr|
            y.2 == Some(scope) && #[trigger] pre.has_edge_repr(entry, y) implies post.has_edge_repr(
            entry,
            y,
        ) by {
            let e = choose|e: int|
                0 <= e < pre.edges@.len() && crate::graph::edge_connects(
                    #[trigger] pre.edges@[e],
                    entry,
                    y,
                );
            assert(pre.has_mod(pre.edges@[e].to@));
            assert(y != s);
            assert(y != dep);
            assert(post.has_edge_repr(entry, y) == pre.has_edge_repr(entry, y));
        }
    }
}

fn contains_id(v: &Vec<ModuleId>, id: &ModuleId) -> (r: bool)
    ensures
        r == exists|k: int| 0 <= k < v@.len() && (#[trigger] v@[k])@ == id@,
{
    let mut i: usize = 0;
    while i < v.len()
        invariant
            i <= v@.len(),
            forall|k: int| 0 <= k < i ==> (#[trigger] v@[k])@ != id@,
        decreases v@.len() - i,
    {
        if v[i] == *id {
            return true;
        }
        i += 1;
    }
    false
}

/// Handle one dependency edge `cur -> dep` under `scope`, after the caller
/// has checked that no edge `cur -> scoped(dep)` exists yet.
///
/// By fan-in: a dependency shared by several dependents is cloned under the
/// scoped id (the original stays for the other parents, the clone starts
/// with no dependencies of its own); an exclusive dependency is renamed and
/// retagged in place, its edges following atomically. In both cases only a
/// script or stylesheet dependency is touched; any other kind is left
/// entirely alone. Returns the id under which traversal must continue, or
/// `None` when this dependency was left as it stands.
pub fn scope_dependency(
    g: &mut ModuleGraph,
    cur: &ModuleId,
    dep: &ModuleId,
    scope: &String,
) -> (enqueue: Option<ModuleId>)
    requires
        old(g).wf(),
        old(g).has_edge_repr(cur@, dep@),
        !old(g).has_edge_repr(cur@, scoped_repr(dep@, scope@)),
    ensures
        final(g).wf(),
        final(g).entries@ == old(g).entries@,
        keeps_unscoped_kinds(*old(g), *final(g)),
        enqueue is None ==> final(g).repr() == old(g).repr(),
        !qualifies_for_scoping(old(g).mod_at(dep@).module_type) ==> enqueue is None,
        enqueue is Some ==> final(g).has_edge_repr(cur@, scoped_repr(dep@, scope@)),
        forall|b: IdRepr|
            b != dep@ && old(g).has_edge_repr(cur@, b) ==> final(g).has_edge_repr(cur@, b),
        // a shared dependency that already has its scoped copy, and a self
        // dependency, are left in place
        (qualifies_for_scoping(old(g).mod_at(dep@).module_type) && !old(g).two_dependents(dep@)
            && (old(g).has_mod(scoped_repr(dep@, scope@)) || cur@ == dep@)) ==> enqueue is None,
        // every module but the handled dependency is kept as it was
        forall|x: IdRepr|
            x != dep@ && #[trigger] old(g).has_mod(x) ==> final(g).has_mod(x) && final(g).mod_at(x)
                == old(g).mod_at(x),
        // no module appears under any id but the scoped one
        forall|x: IdRepr|
            #[trigger] final(g).has_mod(x) ==> old(g).has_mod(x) || x == scoped_repr(dep@, scope@),
        // shared dependency: cloned, the original and all other edges untouched
        (qualifies_for_scoping(old(g).mod_at(dep@).module_type) && old(g).two_dependents(dep@))
            ==> {
            &&& enqueue is Some
            &&& !final(g).has_edge_repr(cur@, dep@)
            &&& final(g).has_mod(dep@) && final(g).mod_at(dep@) == old(g).mod_at(dep@)
            &&& final(g).has_mod(scoped_repr(dep@, scope@))
            &&& forall|a: IdRepr, b: IdRepr|
                !(a == cur@ && b == dep@) && !(a == cur@ && b == scoped_repr(dep@, scope@))
                    ==> #[trigger] final(g).has_edge_repr(a, b) == old(g).has_edge_repr(a, b)
            // the edge to the scoped copy carries the removed edge's metadata
            &&& exists|e1: int, e2: int|
                0 <= e1 < old(g).edges@.len() && crate::graph::edge_connects(
                    #[trigger] old(g).edges@[e1],
                    cur@,
                    dep@,
                ) && 0 <= e2 < final(g).edges@.len() && crate::graph::edge_connects(
                    #[trigger] final(g).edges@[e2],
                    cur@,
                    scoped_repr(dep@, scope@),
                ) && final(g).edges@[e2].meta == old(g).edges@[e1].meta
            &&& !old(g).has_mod(scoped_repr(dep@, scope@)) ==> {
                &&& final(g).mod_at(scoped_repr(dep@, scope@)).id@ == scoped_repr(dep@, scope@)
                &&& final(g).mod_at(scoped_repr(dep@, scope@)).module_type == ModuleType::Custom(
                    final(g).mod_at(scoped_repr(dep@, scope@)).module_type->Custom_0,
                )
                &&& final(g).mod_at(scoped_repr(dep@, scope@)).module_type->Custom_0@ == scope@
                &&& final(g).mod_at(scoped_repr(dep@, scope@)).external == old(g).mod_at(
                    dep@,
                ).external
                &&& final(g).mod_at(scoped_repr(dep@, scope@)).immutable == old(g).mod_at(
                    dep@,
                ).immutable
                // the clone is reachable only from the parent it was made for
                &&& forall|a: IdRepr|
                    #[trigger] final(g).has_edge_repr(a, scoped_repr(dep@, scope@)) ==> a == cur@
            }
        },
        // exclusive dependency: renamed and retagged in place
        (qualifies_for_scoping(old(g).mod_at(dep@).module_type) && !old(g).two_dependents(dep@)
            && !old(g).has_mod(scoped_repr(dep@, scope@)) && cur@ != dep@) ==> {
            &&& enqueue is Some
            &&& !final(g).has_mod(dep@)
            &&& final(g).has_mod(scoped_repr(dep@, scope@))
            &&& final(g).mod_at(scoped_repr(dep@, scope@)).module_type->Custom_0@ == scope@
            &&& final(g).mod_at(scoped_repr(dep@, scope@)).module_type is Custom
            &&& final(g).mod_at(scoped_repr(dep@, scope@)).external == old(g).mod_at(dep@).external
            &&& final(g).mod_at(scoped_repr(dep@, scope@)).immutable == old(g).mod_at(
                dep@,
            ).immutable
            &&& forall|a: IdRepr, b: IdRepr|
                a != dep@ && b != dep@ && a != scoped_repr(dep@, scope@) && b != scoped_repr(
                    dep@,
                    scope@,
                ) ==> #[trigger] final(g).has_edge_repr(a, b) == old(g).has_edge_repr(a, b)
            &&& forall|a: IdRepr|
                a != dep@ && a != scoped_repr(dep@, scope@)
                    ==> #[trigger] final(g).has_edge_repr(a, scoped_repr(dep@, scope@))
                    == old(g).has_edge_repr(a, dep@)
            &&& forall|b: IdRepr|
                b != dep@ && b != scoped_repr(dep@, scope@)
                    ==> #[trigger] final(g).has_edge_repr(scoped_repr(dep@, scope@), b)
                    == old(g).has_edge_repr(dep@, b)
        },
{
    let ghost g0 = *old(g);
    let scoped_id = dep.scoped(scope);
    proof {
        assert(g0.edges_closed());
        let e = choose|e: int|
            0 <= e < g0.edges@.len() && crate::graph::edge_connects(
                #[trigger] g0.edges@[e],
                cur@,
                dep@,
            );
        assert(g0.has_mod(g0.edges@[e].from@) && g0.has_mod(g0.edges@[e].to@));
        assert(g0.has_mod(cur@));
        assert(g0.has_mod(dep@));
        if dep@ == scoped_repr(dep@, scope@) {
            assert(g0.has_edge_repr(cur@, scoped_repr(dep@, scope@)));
            assert(false);
        }
    }
    let shared = g.has_multiple_dependents(dep);
    let current = match g.module(dep) {
        Some(m) => m.clone(),
        None => {
            proof {
                assert(false);
            }
            Module::new(dep.clone())
        },
    };
    if !current.module_type.is_script() && !current.module_type.is_css() {
        // neither a script nor a stylesheet: scoping stops at this boundary
        proof {
            lemma_keeps_unscoped_refl(g0, *g);
            g.lemma_mod_at_eq(g0);
        }
        return None;
    }
    if shared {
        let meta = match g.remove_edge(cur, dep) {
            Some(meta) => meta,
            None => {
                proof {
                    assert(false);
                }
                EdgeMeta { specifier: String::new(), kind: EdgeKind::Import }
            },
        };
        let ghost g1 = *g;
        proof {
            let i = choose|i: int|
                0 <= i < g0.edges@.len() && crate::graph::edge_connects(
                    #[trigger] g0.edges@[i],
                    cur@,
                    dep@,
                ) && meta == g0.edges@[i].meta && g1.edges@ == g0.edges@.remove(i);
            g1.lemma_remove_has_edge(g0, i);
        }
        let existing = g.has_module(&scoped_id);
        if !existing {
            let clone_ty = current.module_type.to_custom(scope);
            let cloned = Module { id: scoped_id.clone(), module_type: clone_ty, ..current };
            g.add_module(cloned);
            proof {
                assert(g.modules@[g.modules@.len() - 1].id@ == scoped_id@);
                assert(g.has_mod(scoped_id@));
            }
        }
        let ghost g2 = *g;
        proof {
            let kc = g0.mod_idx(cur@);
            assert(g0.modules@[kc].id@ == cur@);
            assert(g2.modules@[kc].id@ == cur@);
            assert(g2.has_mod(cur@));
            if existing {
                let km = choose|x: int|
                    0 <= x < g1.modules@.len() && (#[trigger] g1.modules@[x]).id@ == scoped_id@;
                assert(g2.modules@[km].id@ == scoped_id@);
                assert(g2.has_mod(scoped_id@));
            }
        }
        g.add_edge(cur, &scoped_id, meta);
        proof {
            let n = g2.edges@.len() as int;
            g.lemma_push_has_edge(g2, g.edges@[n]);
            let kd = g0.mod_idx(dep@);
            assert(g.modules@[kd].id@ == dep@);
            g.lemma_mod_at_unique(dep@, kd);
            if !g0.has_mod(scoped_repr(dep@, scope@)) {
                let ks = g0.modules@.len() as int;
                assert(g.modules@[ks].id@ == scoped_repr(dep@, scope@));
                g.lemma_mod_at_unique(scoped_repr(dep@, scope@), ks);
                assert forall|a: IdRepr|
                    #[trigger] g.has_edge_repr(a, scoped_repr(dep@, scope@)) implies a == cur@ by {
                    if a != cur@ {
                        assert(g1.has_edge_repr(a, scoped_repr(dep@, scope@)));
                        assert(g0.has_edge_repr(a, scoped_repr(dep@, scope@)));
                        assert(g0.has_mod(scoped_repr(dep@, scope@)));
                    }
                }
            }
            assert(g2.edges@ == g1.edges@);
            let i2 = choose|i: int|
                0 <= i < g0.edges@.len() && crate::graph::edge_connects(
                    #[trigger] g0.edges@[i],
                    cur@,
                    dep@,
                ) && meta == g0.edges@[i].meta && g1.edges@ == g0.edges@.remove(i);
            let n2 = g2.edges@.len() as int;
            assert(crate::graph::edge_connects(g.edges@[n2], cur@, scoped_repr(dep@, scope@)));
            assert(g.edges@[n2].meta == g0.edges@[i2].meta);
            assert forall|a: IdRepr, b: IdRepr|
                !(a == cur@ && b == dep@) && !(a == cur@ && b == scoped_repr(dep@, scope@))
                    implies #[trigger] g.has_edge_repr(a, b) == g0.has_edge_repr(a, b) by {
                assert(g1.has_edge_repr(a, b) == g0.has_edge_repr(a, b));
                assert(g2.has_edge_repr(a, b) == g1.has_edge_repr(a, b));
            }
            assert(!g.has_edge_repr(cur@, dep@)) by {
                assert(!g1.has_edge_repr(cur@, dep@));
                assert(g2.has_edge_repr(cur@, dep@) == g1.has_edge_repr(cur@, dep@));
            }
            assert forall|b: IdRepr|
                b != dep@ && g0.has_edge_repr(cur@, b) implies g.has_edge_repr(cur@, b) by {
                assert(g1.has_edge_repr(cur@, b) == g0.has_edge_repr(cur@, b));
                assert(g2.has_edge_repr(cur@, b) == g1.has_edge_repr(cur@, b));
            }
            assert(keeps_unscoped_kinds(g0, *g)) by {
                assert forall|i: int|
                    0 <= i < g0.modules@.len() && !qualifies_for_scoping(
                        (#[trigger] g0.modules@[i]).module_type,
                    ) implies exists|j: int|
                    0 <= j < g.modules@.len() && #[trigger] g.modules@[j] == g0.modules@[i] by {
                    assert(g.modules@[i] == g0.modules@[i]);
                }
            }
            assert forall|x: IdRepr|
                x != dep@ && #[trigger] g0.has_mod(x) implies g.has_mod(x) && g.mod_at(x)
                == g0.mod_at(x) by {
                let w = g0.mod_idx(x);
                assert(g0.modules@[w].id@ == x);
                assert(g.modules@[w] == g0.modules@[w]);
                g.lemma_mod_at_unique(x, w);
                g0.lemma_mod_at_unique(x, w);
            }
            assert forall|x: IdRepr|
                #[trigger] g.has_mod(x) implies g0.has_mod(x) || x == scoped_repr(
                dep@,
                scope@,
            ) by {
                let w = choose|w: int|
                    0 <= w < g.modules@.len() && (#[trigger] g.modules@[w]).id@ == x;
                if w < g0.modules@.len() {
                    assert(g0.modules@[w].id@ == x);
                } else {
                    assert(g.modules@[w].id@ == scoped_id@);
                }
            }
        }
        Some(dep.clone())
    } else {
        if g.has_module(&scoped_id) {
            // a scoped copy already exists under this id; renaming onto it
            // would break id uniqueness, so this dependency is left as it is
            proof {
                lemma_keeps_unscoped_refl(g0, *g);
                g.lemma_mod_at_eq(g0);
            }
            return None;
        }
        if *cur == *dep {
            // a self dependency cannot be renamed while it is being walked
            proof {
                lemma_keeps_unscoped_refl(g0, *g);
                g.lemma_mod_at_eq(g0);
            }
            return None;
        }
        let ghost kd = g0.mod_idx(dep@);
        g.rename_module(dep, scoped_id.clone());
        let ghost g1 = *g;
        g.update_module_type(&scoped_id, current.module_type.to_custom(scope));
        proof {
            assert(g0.modules@[kd].id@ == dep@);
            let ks = g1.mod_idx(scoped_id@);
            assert(g1.modules@[kd].id@ == scoped_id@);
            g1.lemma_mod_at_unique(scoped_id@, kd);
            assert(ks == kd);
            assert(g.modules@[kd].id@ == scoped_id@);
            g.lemma_mod_at_unique(scoped_repr(dep@, scope@), kd);
            assert(!g.has_mod(dep@)) by {
                if g.has_mod(dep@) {
                    let x = choose|x: int|
                        0 <= x < g.modules@.len() && (#[trigger] g.modules@[x]).id@ == dep@;
                    assert(g1.modules@[x].id@ == dep@);
                    assert(g1.has_mod(dep@));
                }
            }
            // edge correspondence under the pointwise rename
            assert forall|a: IdRepr, b: IdRepr|
                a != dep@ && b != dep@ && a != scoped_repr(dep@, scope@) && b != scoped_repr(
                    dep@,
                    scope@,
                ) implies #[trigger] g.has_edge_repr(a, b) == g0.has_edge_repr(a, b) by {
                if g0.has_edge_repr(a, b) {
                    let e = choose|e: int|
                        0 <= e < g0.edges@.len() && crate::graph::edge_connects(
                            #[trigger] g0.edges@[e],
                            a,
                            b,
                        );
                    assert(g.edges@[e] == renamed_edge(g0.edges@[e], dep@, scoped_id));
                    assert(crate::graph::edge_connects(g.edges@[e], a, b));
                }
                if g.has_edge_repr(a, b) {
                    let e = choose|e: int|
                        0 <= e < g.edges@.len() && crate::graph::edge_connects(
                            #[trigger] g.edges@[e],
                            a,
                            b,
                        );
                    assert(g.edges@[e] == renamed_edge(g0.edges@[e], dep@, scoped_id));
                    assert(crate::graph::edge_connects(g0.edges@[e], a, b));
                }
            }
            assert forall|a: IdRepr|
                a != dep@ && a != scoped_repr(dep@, scope@) implies #[trigger] g.has_edge_repr(
                a,
                scoped_repr(dep@, scope@),
            ) == g0.has_edge_repr(a, dep@) by {
                if g0.has_edge_repr(a, dep@) {
                    let e = choose|e: int|
                        0 <= e < g0.edges@.len() && crate::graph::edge_connects(
                            #[trigger] g0.edges@[e],
                            a,
                            dep@,
                        );
                    assert(g.edges@[e] == renamed_edge(g0.edges@[e], dep@, scoped_id));
                    assert(g0.edges@[e].from@ != dep@ == true || a == dep@);
                    assert(crate::graph::edge_connects(g.edges@[e], a, scoped_repr(dep@, scope@)));
                }
                if g.has_edge_repr(a, scoped_repr(dep@, scope@)) {
                    let e = choose|e: int|
                        0 <= e < g.edges@.len() && crate::graph::edge_connects(
                            #[trigger] g.edges@[e],
                            a,
                            scoped_repr(dep@, scope@),
                        );
                    assert(g.edges@[e] == renamed_edge(g0.edges@[e], dep@, scoped_id));
                    if g0.edges@[e].to@ != dep@ {
                        assert(g0.has_mod(g0.edges@[e].to@));
                        assert(false);  // the scoped id was fresh
                    }
                    assert(crate::graph::edge_connects(g0.edges@[e], a, dep@));
                }
            }
            assert(g.has_edge_repr(cur@, scoped_repr(dep@, scope@)));
            assert forall|b: IdRepr|
                b != dep@ && g0.has_edge_repr(cur@, b) implies g.has_edge_repr(cur@, b) by {
                if b == scoped_repr(dep@, scope@) {
                    assert(g0.has_mod(b));
                    assert(false);
                }
            }
            assert(keeps_unscoped_kinds(g0, *g)) by {
                assert forall|i: int|
                    0 <= i < g0.modules@.len() && !qualifies_for_scoping(
                        (#[trigger] g0.modules@[i]).module_type,
                    ) implies exists|j: int|
                    0 <= j < g.modules@.len() && #[trigger] g.modules@[j] == g0.modules@[i] by {
                    assert(qualifies_for_scoping(g0.modules@[kd].module_type));
                    assert(i != kd);
                    assert(g.modules@[i] == g0.modules@[i]);
                }
            }
            assert forall|b: IdRepr|
                b != dep@ && b != scoped_repr(dep@, scope@) implies #[trigger] g.has_edge_repr(
                scoped_repr(dep@, scope@),
                b,
            ) == g0.has_edge_repr(dep@, b) by {
                if g0.has_edge_repr(dep@, b) {
                    let e = choose|e: int|
                        0 <= e < g0.edges@.len() && crate::graph::edge_connects(
                            #[trigger] g0.edges@[e],
                            dep@,
                            b,
                        );
                    assert(g.edges@[e] == renamed_edge(g0.edges@[e], dep@, scoped_id));
                    assert(crate::graph::edge_connects(g.edges@[e], scoped_repr(dep@, scope@), b));
                }
                if g.has_edge_repr(scoped_repr(dep@, scope@), b) {
                    let e = choose|e: int|
                        0 <= e < g.edges@.len() && crate::graph::edge_connects(
                            #[trigger] g.edges@[e],
                            scoped_repr(dep@, scope@),
                            b,
                        );
                    assert(g.edges@[e] == renamed_edge(g0.edges@[e], dep@, scoped_id));
                    if g0.edges@[e].from@ != dep@ {
                        assert(g0.has_mod(g0.edges@[e].from@));
                        assert(false);  // the scoped id was fresh
                    }
                    if g0.edges@[e].to@ == dep@ {
                        assert(g.edges@[e].to@ == scoped_repr(dep@, scope@));
                        assert(false);  // b is not the scoped id
                    }
                    assert(crate::graph::edge_connects(g0.edges@[e], dep@, b));
                }
            }
            assert forall|x: IdRepr|
                x != dep@ && #[trigger] g0.has_mod(x) implies g.has_mod(x) && g.mod_at(x)
                == g0.mod_at(x) by {
                let w = g0.mod_idx(x);
                assert(g0.modules@[w].id@ == x);
                if w == kd {
                    assert(g0.modules@[kd].id@ == dep@);
                    assert(false);
                }
                assert(g.modules@[w] == g0.modules@[w]);
                g.lemma_mod_at_unique(x, w);
                g0.lemma_mod_at_unique(x, w);
            }
            assert forall|x: IdRepr|
                #[trigger] g.has_mod(x) implies g0.has_mod(x) || x == scoped_repr(
                dep@,
                scope@,
            ) by {
                let w = choose|w: int|
                    0 <= w < g.modules@.len() && (#[trigger] g.modules@[w]).id@ == x;
                if w == kd {
                    assert(g.modules@[kd].id@ == scoped_repr(dep@, scope@));
                } else {
                    assert(g.modules@[w] == g0.modules@[w]);
                    assert(g0.modules@[w].id@ == x);
                }
            }
        }
        Some(scoped_id)
    }
}

/// Breadth-first traversal from `module_id`, scoping every dependency edge
/// on the way: the visited set guards against cycles, and each dependency is
/// handled by [`scope_dependency`] unless an edge to its scoped id shows it
/// was handled before. Returns whether anything changed; on a graph whose
/// reachable part is already settled under this scope nothing changes and
/// the answer is `false`.
pub fn copy_module_deeply(
    module_id: ModuleId,
    scope: &String,
    module_graph: &mut ModuleGraph,
) -> (copied: bool)
    requires
        old(module_graph).wf(),
    ensures
        final(module_graph).wf(),
        final(module_graph).entries@ == old(module_graph).entries@,
        keeps_unscoped_kinds(*old(module_graph), *final(module_graph)),
        !copied ==> final(module_graph).repr() == old(module_graph).repr(),
        scope_settled(*old(module_graph), scope@) ==> !copied,
        // completeness of the changed flag: a dependency edge of the entry
        // whose target was not yet scoped for it always marks the run as a
        // change (the mark comes before the kind check, so it is set even
        // for a dependency that check then leaves alone)
        forall|i: int|
            0 <= i < old(module_graph).edges@.len() && (#[trigger] old(
                module_graph,
            ).edges@[i]).from@ == module_id@ && !old(module_graph).has_edge_repr(
                module_id@,
                scoped_repr(old(module_graph).edges@[i].to@, scope@),
            ) ==> copied,
        // no module ever appears except under an id carrying this scope's
        // suffix: in particular no dependency of another kind is ever
        // duplicated under its own id
        forall|x: IdRepr|
            #[trigger] final(module_graph).has_mod(x) ==> old(module_graph).has_mod(x) || x.2
                == Some(scope@),
        // for an entry that nothing depends on and that is itself unscoped,
        // every script or stylesheet dependency not yet scoped for it ends
        // with an edge from the entry to its scoped id: the clone or the
        // rename really happened
        (entry_unparented(*old(module_graph), module_id@) && module_id@.2 != Some(scope@))
            ==> forall|i: int|
            0 <= i < old(module_graph).edges@.len() && (#[trigger] old(
                module_graph,
            ).edges@[i]).from@ == module_id@ && qualifies_for_scoping(
                old(module_graph).mod_at(old(module_graph).edges@[i].to@).module_type,
            ) && !old(module_graph).has_edge_repr(
                module_id@,
                scoped_repr(old(module_graph).edges@[i].to@, scope@),
            ) && !old(module_graph).has_mod(
                scoped_repr(old(module_graph).edges@[i].to@, scope@),
            ) ==> final(module_graph).has_edge_repr(
                module_id@,
                scoped_repr(old(module_graph).edges@[i].to@, scope@),
            ),
{
    let ghost g0 = *old(module_graph);
    let ghost hyp = entry_unparented(g0, module_id@) && module_id@.2 != Some(scope@);
    let mut copied = false;
    let mut queue: Vec<ModuleId> = Vec::new();
    let mut head: usize = 0;
    // the entry's own dependencies, read off the pre state
    let deps0 = module_graph.dependencies_ids(&module_id);
    proof {
        if hyp {
            assert forall|j: int|
                0 <= j < deps0@.len() implies module_graph.has_mod((#[trigger] deps0@[j])@)
                && module_graph.mod_at(deps0@[j]@) == g0.mod_at(deps0@[j]@) by {
                assert(module_graph.has_edge_repr(module_id@, deps0@[j]@));
                let e = choose|e: int|
                    0 <= e < module_graph.edges@.len() && crate::graph::edge_connects(
                        #[trigger] module_graph.edges@[e],
                        module_id@,
                        deps0@[j]@,
                    );
                assert(module_graph.has_mod(module_graph.edges@[e].to@));
            }
        }
    }
    let mut di: usize = 0;
    while di < deps0.len()
        invariant
            module_graph.wf(),
            module_graph.entries@ == g0.entries@,
            keeps_unscoped_kinds(g0, *module_graph),
            !copied ==> module_graph.repr() == g0.repr(),
            scope_settled(g0, scope@) ==> !copied,
            forall|x: IdRepr|
                #[trigger] module_graph.has_mod(x) ==> g0.has_mod(x) || x.2 == Some(scope@),
            di <= deps0@.len(),
            head <= queue@.len(),
            forall|j: int|
                di <= j < deps0@.len() ==> module_graph.has_edge_repr(
                    module_id@,
                    (#[trigger] deps0@[j])@,
                ) || module_graph.has_edge_repr(module_id@, scoped_repr(deps0@[j]@, scope@)),
            hyp == (entry_unparented(g0, module_id@) && module_id@.2 != Some(scope@)),
            forall|j: int|
                0 <= j < di && !g0.has_edge_repr(
                    module_id@,
                    scoped_repr((#[trigger] deps0@[j])@, scope@),
                ) ==> copied,
            hyp ==> forall|a: IdRepr| !(#[trigger] module_graph.has_edge_repr(a, module_id@)),
            hyp ==> forall|x: IdRepr|
                x.2 == Some(scope@) && #[trigger] module_graph.has_mod(x) && !g0.has_mod(x)
                    ==> module_graph.has_edge_repr(module_id@, x),
            hyp ==> forall|j: int|
                0 <= j < di && qualifies_for_scoping(
                    g0.mod_at((#[trigger] deps0@[j])@).module_type,
                ) && !g0.has_edge_repr(module_id@, scoped_repr(deps0@[j]@, scope@))
                    && !g0.has_mod(scoped_repr(deps0@[j]@, scope@))
                    ==> module_graph.has_edge_repr(module_id@, scoped_repr(deps0@[j]@, scope@)),
            hyp ==> forall|j: int|
                di <= j < deps0@.len() ==> module_graph.has_edge_repr(
                    module_id@,
                    scoped_repr((#[trigger] deps0@[j])@, scope@),
                ) || (module_graph.has_mod(deps0@[j]@) && module_graph.mod_at(deps0@[j]@)
                    == g0.mod_at(deps0@[j]@)),
        decreases deps0@.len() - di,
    {
        let dep = deps0[di].clone();
        let scoped_probe = dep.scoped(scope);
        if module_graph.has_edge(&module_id, &scoped_probe) {
            proof {
                if !copied {
                    assert(module_graph.edges@ == g0.edges@);
                    assert(g0.has_edge_repr(module_id@, scoped_repr(deps0@[di as int]@, scope@)));
                }
                assert(module_graph.has_edge_repr(
                    module_id@,
                    scoped_repr(deps0@[di as int]@, scope@),
                ));
            }
            di += 1;
            continue;
        }
        proof {
            assert(module_graph.has_edge_repr(module_id@, dep@));
            if scope_settled(g0, scope@) {
                assert(!copied);
                assert(module_graph.edges@ == g0.edges@);
                let e = choose|e: int|
                    0 <= e < module_graph.edges@.len() && crate::graph::edge_connects(
                        #[trigger] module_graph.edges@[e],
                        module_id@,
                        dep@,
                    );
                assert(scoped_repr(g0.edges@[e].to@, scope@) == g0.edges@[e].to@);
                assert(module_graph.has_edge_repr(module_id@, scoped_repr(dep@, scope@)));
                assert(false);
            }
        }
        copied = true;
        let ghost gpre = *module_graph;
        let enq = scope_dependency(module_graph, &module_id, &dep, scope);
        match enq {
            Some(next) => {
                queue.push(next);
            },
            None => {},
        }
        proof {
            lemma_keeps_unscoped_trans(g0, gpre, *module_graph);
            assert forall|j: int|
                di + 1 <= j < deps0@.len() implies module_graph.has_edge_repr(
                module_id@,
                (#[trigger] deps0@[j])@,
            ) || module_graph.has_edge_repr(module_id@, scoped_repr(deps0@[j]@, scope@)) by {
                let b1 = deps0@[j]@;
                let b2 = scoped_repr(deps0@[j]@, scope@);
                if enq is None {
                    assert(module_graph.edges@ == gpre.edges@);
                } else {
                    if b1 == dep@ {
                        assert(module_graph.has_edge_repr(module_id@, scoped_repr(dep@, scope@)));
                    } else {
                        if gpre.has_edge_repr(module_id@, b1) {
                            assert(module_graph.has_edge_repr(module_id@, b1));
                        } else {
                            assert(gpre.has_edge_repr(module_id@, b2));
                            if b2 == dep@ {
                                assert(scoped_repr(dep@, scope@) == dep@);
                                assert(gpre.has_edge_repr(module_id@, dep@));
                                assert(!gpre.has_edge_repr(module_id@, scoped_repr(dep@, scope@)));
                                assert(false);
                            }
                            assert(module_graph.has_edge_repr(module_id@, b2));
                        }
                    }
                }
            }
            if hyp {
                let s_m = scoped_repr(dep@, scope@);
                assert(dep@.2 != Some(scope@)) by {
                    if dep@.2 == Some(scope@) {
                        assert(scoped_repr(dep@, scope@) == dep@);
                    }
                }
                if enq is None {
                    assert(step_unchanged(gpre, *module_graph));
                    module_graph.lemma_mod_at_eq(gpre);
                } else {
                    assert(qualifies_for_scoping(gpre.mod_at(dep@).module_type));
                    if gpre.two_dependents(dep@) {
                        assert(step_shared(gpre, *module_graph, module_id@, dep@, s_m));
                    } else {
                        assert(!(gpre.has_mod(s_m) || module_id@ == dep@));
                        assert(step_exclusive(gpre, *module_graph, module_id@, dep@, s_m));
                    }
                }
                lemma_step_preserves_entry_facts(
                    gpre,
                    *module_graph,
                    module_id@,
                    dep@,
                    scope@,
                    module_id@,
                );
                assert forall|x: IdRepr|
                    x.2 == Some(scope@) && #[trigger] module_graph.has_mod(x) && !g0.has_mod(x)
                        implies module_graph.has_edge_repr(module_id@, x) by {
                    if gpre.has_mod(x) {
                        assert(gpre.has_edge_repr(module_id@, x));
                    } else {
                        assert(enq is Some);
                        assert(x == s_m);
                        assert(module_graph.has_edge_repr(module_id@, s_m));
                    }
                }
                assert forall|j: int|
                    0 <= j < di + 1 && qualifies_for_scoping(
                        g0.mod_at((#[trigger] deps0@[j])@).module_type,
                    ) && !g0.has_edge_repr(module_id@, scoped_repr(deps0@[j]@, scope@))
                        && !g0.has_mod(scoped_repr(deps0@[j]@, scope@))
                        implies module_graph.has_edge_repr(
                        module_id@,
                        scoped_repr(deps0@[j]@, scope@),
                    ) by {
                    let y = scoped_repr(deps0@[j]@, scope@);
                    if j < di {
                        assert(gpre.has_edge_repr(module_id@, y));
                        assert(module_graph.has_edge_repr(module_id@, y));
                    } else {
                        // this very dependency was just handled: the guard
                        // failed, its module still carried its original
                        // kind, and its scoped id was still free
                        assert(gpre.has_mod(deps0@[j]@) && gpre.mod_at(deps0@[j]@) == g0.mod_at(
                            deps0@[j]@,
                        ));
                        assert(qualifies_for_scoping(gpre.mod_at(dep@).module_type));
                        assert(!gpre.has_mod(s_m)) by {
                            if gpre.has_mod(s_m) {
                                assert(gpre.has_edge_repr(module_id@, s_m));
                            }
                        }
                        assert(module_id@ != dep@) by {
                            if module_id@ == dep@ {
                                assert(gpre.has_edge_repr(module_id@, module_id@));
                            }
                        }
                        assert(enq is Some);
                        assert(module_graph.has_edge_repr(module_id@, s_m));
                    }
                }
                assert forall|j: int|
                    di + 1 <= j < deps0@.len() implies module_graph.has_edge_repr(
                    module_id@,
                    scoped_repr((#[trigger] deps0@[j])@, scope@),
                ) || (module_graph.has_mod(deps0@[j]@) && module_graph.mod_at(deps0@[j]@)
                    == g0.mod_at(deps0@[j]@)) by {
                    let y = scoped_repr(deps0@[j]@, scope@);
                    if gpre.has_edge_repr(module_id@, y) {
                        assert(module_graph.has_edge_repr(module_id@, y));
                    } else {
                        assert(gpre.has_mod(deps0@[j]@) && gpre.mod_at(deps0@[j]@) == g0.mod_at(
                            deps0@[j]@,
                        ));
                        if enq is None {
                            assert(module_graph.modules@ == gpre.modules@);
                        } else {
                            if deps0@[j]@ == dep@ {
                                if gpre.two_dependents(dep@) {
                                    assert(module_graph.has_mod(dep@) && module_graph.mod_at(dep@)
                                        == gpre.mod_at(dep@));
                                } else {
                                    assert(module_graph.has_edge_repr(module_id@, s_m));
                                }
                            } else {
                                assert(module_graph.has_mod(deps0@[j]@) && module_graph.mod_at(
                                    deps0@[j]@,
                                ) == gpre.mod_at(deps0@[j]@));
                            }
                        }
                    }
                }
            }
        }
        di += 1;
    }
    proof {
        // every unscoped dependency edge of the entry has set the flag
        assert forall|i: int|
            0 <= i < g0.edges@.len() && (#[trigger] g0.edges@[i]).from@ == module_id@
                && !g0.has_edge_repr(module_id@, scoped_repr(g0.edges@[i].to@, scope@))
                implies copied by {
            let k = choose|k: int|
                0 <= k < deps0@.len() && (#[trigger] deps0@[k])@ == g0.edges@[i].to@;
        }
    }
    // walk on into the rest of the reachable subgraph
    let mut visited: Vec<ModuleId> = Vec::new();
    visited.push(module_id.clone());
    // the traversal terminates through the visited set; the explicit bound
    // below is what convinces the verifier, and is far beyond any graph that
    // fits in memory
    let mut fuel: u64 = u64::MAX;
    while head < queue.len() && fuel > 0
        invariant
            module_graph.wf(),
            module_graph.entries@ == g0.entries@,
            keeps_unscoped_kinds(g0, *module_graph),
            !copied ==> module_graph.repr() == g0.repr(),
            scope_settled(g0, scope@) ==> !copied,
            forall|x: IdRepr|
                #[trigger] module_graph.has_mod(x) ==> g0.has_mod(x) || x.2 == Some(scope@),
            head <= queue.len(),
            hyp == (entry_unparented(g0, module_id@) && module_id@.2 != Some(scope@)),
            forall|i: int|
                0 <= i < g0.edges@.len() && (#[trigger] g0.edges@[i]).from@ == module_id@
                    && !g0.has_edge_repr(module_id@, scoped_repr(g0.edges@[i].to@, scope@))
                    ==> copied,
            hyp ==> forall|a: IdRepr| !(#[trigger] module_graph.has_edge_repr(a, module_id@)),
            hyp ==> forall|j: int|
                0 <= j < deps0@.len() && qualifies_for_scoping(
                    g0.mod_at((#[trigger] deps0@[j])@).module_type,
                ) && !g0.has_edge_repr(module_id@, scoped_repr(deps0@[j]@, scope@))
                    && !g0.has_mod(scoped_repr(deps0@[j]@, scope@))
                    ==> module_graph.has_edge_repr(module_id@, scoped_repr(deps0@[j]@, scope@)),
        decreases fuel,
    {
        fuel = fuel - 1;
        let cur_id = queue[head].clone();
        head = head + 1;
        if contains_id(&visited, &cur_id) {
            continue;
        }
        visited.push(cur_id.clone());
        let deps = module_graph.dependencies_ids(&cur_id);
        let mut di2: usize = 0;
        while di2 < deps.len()
            invariant
                module_graph.wf(),
                module_graph.entries@ == g0.entries@,
                keeps_unscoped_kinds(g0, *module_graph),
                !copied ==> module_graph.repr() == g0.repr(),
                scope_settled(g0, scope@) ==> !copied,
                forall|x: IdRepr|
                    #[trigger] module_graph.has_mod(x) ==> g0.has_mod(x) || x.2 == Some(scope@),
                di2 <= deps@.len(),
                head <= queue@.len(),
                forall|j: int|
                    di2 <= j < deps@.len() ==> module_graph.has_edge_repr(
                        cur_id@,
                        (#[trigger] deps@[j])@,
                    ) || module_graph.has_edge_repr(cur_id@, scoped_repr(deps@[j]@, scope@)),
                hyp == (entry_unparented(g0, module_id@) && module_id@.2 != Some(scope@)),
                forall|i: int|
                    0 <= i < g0.edges@.len() && (#[trigger] g0.edges@[i]).from@ == module_id@
                        && !g0.has_edge_repr(module_id@, scoped_repr(g0.edges@[i].to@, scope@))
                        ==> copied,
                hyp ==> forall|a: IdRepr|
                    !(#[trigger] module_graph.has_edge_repr(a, module_id@)),
                hyp ==> forall|j: int|
                    0 <= j < deps0@.len() && qualifies_for_scoping(
                        g0.mod_at((#[trigger] deps0@[j])@).module_type,
                    ) && !g0.has_edge_repr(module_id@, scoped_repr(deps0@[j]@, scope@))
                        && !g0.has_mod(scoped_repr(deps0@[j]@, scope@))
                        ==> module_graph.has_edge_repr(
                        module_id@,
                        scoped_repr(deps0@[j]@, scope@),
                    ),
            decreases deps@.len() - di2,
        {
            let dep = deps[di2].clone();
            let scoped_probe = dep.scoped(scope);
            if module_graph.has_edge(&cur_id, &scoped_probe) {
                di2 += 1;
                continue;
            }
            proof {
                assert(module_graph.has_edge_repr(cur_id@, dep@));
                if scope_settled(g0, scope@) {
                    assert(!copied);
                    assert(module_graph.edges@ == g0.edges@);
                    let e = choose|e: int|
                        0 <= e < module_graph.edges@.len() && crate::graph::edge_connects(
                            #[trigger] module_graph.edges@[e],
                            cur_id@,
                            dep@,
                        );
                    assert(scoped_repr(g0.edges@[e].to@, scope@) == g0.edges@[e].to@);
                    assert(module_graph.has_edge_repr(cur_id@, scoped_repr(dep@, scope@)));
                    assert(false);
                }
            }
            copied = true;
            let ghost gpre = *module_graph;
            let enq = scope_dependency(module_graph, &cur_id, &dep, scope);
            match enq {
                Some(next) => {
                    queue.push(next);
                },
                None => {},
            }
            proof {
                lemma_keeps_unscoped_trans(g0, gpre, *module_graph);
                assert forall|x: IdRepr|
                    #[trigger] module_graph.has_mod(x) implies g0.has_mod(x) || x.2 == Some(
                    scope@,
                ) by {
                    if !gpre.has_mod(x) {
                        assert(x == scoped_repr(dep@, scope@));
                    }
                }
                assert forall|j: int|
                    di2 + 1 <= j < deps@.len() implies module_graph.has_edge_repr(
                    cur_id@,
                    (#[trigger] deps@[j])@,
                ) || module_graph.has_edge_repr(cur_id@, scoped_repr(deps@[j]@, scope@)) by {
                    let b1 = deps@[j]@;
                    let b2 = scoped_repr(deps@[j]@, scope@);
                    if enq is None {
                        assert(module_graph.edges@ == gpre.edges@);
                    } else {
                        if b1 == dep@ {
                            assert(module_graph.has_edge_repr(
                                cur_id@,
                                scoped_repr(dep@, scope@),
                            ));
                        } else {
                            if gpre.has_edge_repr(cur_id@, b1) {
                                assert(module_graph.has_edge_repr(cur_id@, b1));
                            } else {
                                assert(gpre.has_edge_repr(cur_id@, b2));
                                if b2 == dep@ {
                                    assert(scoped_repr(dep@, scope@) == dep@);
                                    assert(gpre.has_edge_repr(cur_id@, dep@));
                                    assert(!gpre.has_edge_repr(cur_id@, scoped_repr(dep@, scope@)));
                                    assert(false);
                                }
                                assert(module_graph.has_edge_repr(cur_id@, b2));
                            }
                        }
                    }
                }
                if hyp {
                    let s_m = scoped_repr(dep@, scope@);
                    assert(dep@.2 != Some(scope@)) by {
                        if dep@.2 == Some(scope@) {
                            assert(scoped_repr(dep@, scope@) == dep@);
                        }
                    }
                    if enq is None {
                        assert(step_unchanged(gpre, *module_graph));
                    } else {
                        assert(qualifies_for_scoping(gpre.mod_at(dep@).module_type));
                        if gpre.two_dependents(dep@) {
                            assert(step_shared(gpre, *module_graph, cur_id@, dep@, s_m));
                        } else {
                            assert(!(gpre.has_mod(s_m) || cur_id@ == dep@));
                            assert(step_exclusive(gpre, *module_graph, cur_id@, dep@, s_m));
                        }
                    }
                    lemma_step_preserves_entry_facts(
                        gpre,
                        *module_graph,
                        cur_id@,
                        dep@,
                        scope@,
                        module_id@,
                    );
                    assert forall|j: int|
                        0 <= j < deps0@.len() && qualifies_for_scoping(
                            g0.mod_at((#[trigger] deps0@[j])@).module_type,
                        ) && !g0.has_edge_repr(module_id@, scoped_repr(deps0@[j]@, scope@))
                            && !g0.has_mod(scoped_repr(deps0@[j]@, scope@))
                            implies module_graph.has_edge_repr(
                            module_id@,
                            scoped_repr(deps0@[j]@, scope@),
                        ) by {
                        let y = scoped_repr(deps0@[j]@, scope@);
                        assert(gpre.has_edge_repr(module_id@, y));
                    }
                }
            }
            di2 += 1;
        }
    }
    proof {
        if hyp {
            assert forall|i: int|
                0 <= i < g0.edges@.len() && (#[trigger] g0.edges@[i]).from@ == module_id@
                    && qualifies_for_scoping(g0.mod_at(g0.edges@[i].to@).module_type)
                    && !g0.has_edge_repr(module_id@, scoped_repr(g0.edges@[i].to@, scope@))
                    && !g0.has_mod(scoped_repr(g0.edges@[i].to@, scope@)) implies module_graph.has_edge_repr(
                module_id@,
                scoped_repr(g0.edges@[i].to@, scope@),
            ) by {
                let k = choose|k: int|
                    0 <= k < deps0@.len() && (#[trigger] deps0@[k])@ == g0.edges@[i].to@;
            }
        }
    }
    copied
}

/// `w` is the index of the first entry registered under this name.
pub open spec fn entry_match(entries: Seq<Entry>, name: Seq<char>, w: int) -> bool {
    &&& 0 <= w < entries.len()
    &&& entries[w].name@ == name
    &&& forall|v: int| 0 <= v < w ==> (#[trigger] entries[v]).name@ != name
}

/// The scope a dynamic input declares (empty when it declares none).
pub open spec fn scope_of(inp: DynamicInput) -> Seq<char> {
    match inp.scope {
        Some(s) => s@,
        None => Seq::<char>::empty(),
    }
}

fn find_entry_id(g: &ModuleGraph, name: &String) -> (r: Option<ModuleId>)
    ensures
        match r {
            Some(id) => exists|w: int|
                #[trigger] entry_match(g.entries@, name@, w) && g.entries@[w].id@ == id@,
            None => forall|k: int|
                0 <= k < g.entries@.len() ==> (#[trigger] g.entries@[k]).name@ != name@,
        },
{
    let mut i: usize = 0;
    while i < g.entries.len()
        invariant
            i <= g.entries@.len(),
            forall|k: int| 0 <= k < i ==> (#[trigger] g.entries@[k]).name@ != name@,
        decreases g.entries@.len() - i,
    {
        if g.entries[i].name == *name {
            proof {
                assert(entry_match(g.entries@, name@, i as int));
            }
            return Some(g.entries[i].id.clone());
        }
        i += 1;
    }
    None
}

/// For every dynamic input that declares a scope, duplicate the subgraph
/// reachable from the entry registered under the input's name. Returns
/// whether any graph change was made; the surrounding HMR generation step
/// must then run synchronously, because the graph changed structurally.
pub fn handle_dynamic_input(
    module_graph: &mut ModuleGraph,
    dynamic_inputs: &Vec<DynamicInput>,
) -> (handled: bool)
    requires
        old(module_graph).wf(),
    ensures
        final(module_graph).wf(),
        final(module_graph).entries@ == old(module_graph).entries@,
        keeps_unscoped_kinds(*old(module_graph), *final(module_graph)),
        !handled ==> final(module_graph).repr() == old(module_graph).repr(),
        // completeness: a scoped input whose name is registered and whose
        // entry still has an unscoped dependency edge makes the run report
        // a change
        forall|k: int, w: int, i: int|
            #![trigger dynamic_inputs@[k], entry_match(old(module_graph).entries@, dynamic_inputs@[k].name@, w), old(module_graph).edges@[i]]
            0 <= k < dynamic_inputs@.len() && dynamic_inputs@[k].scope is Some && entry_match(
                old(module_graph).entries@,
                dynamic_inputs@[k].name@,
                w,
            ) && 0 <= i < old(module_graph).edges@.len() && old(module_graph).edges@[i].from@
                == old(module_graph).entries@[w].id@ && !old(module_graph).has_edge_repr(
                old(module_graph).entries@[w].id@,
                scoped_repr(old(module_graph).edges@[i].to@, scope_of(dynamic_inputs@[k])),
            ) ==> handled,
        // soundness: the flag can only come from a scoped input whose name
        // is registered; with none, the run reports nothing (and, by the
        // clause above, changes nothing)
        handled ==> exists|k: int|
            0 <= k < dynamic_inputs@.len() && (#[trigger] dynamic_inputs@[k]).scope is Some
                && exists|w: int|
                #[trigger] entry_match(
                    old(module_graph).entries@,
                    dynamic_inputs@[k].name@,
                    w,
                ),
        // and when every matched scoped entry's edges already carry their
        // scoped counterparts, the run reports nothing
        (forall|k: int|
            0 <= k < dynamic_inputs@.len() && (#[trigger] dynamic_inputs@[k]).scope is Some && (
            exists|w: int|
                #[trigger] entry_match(
                    old(module_graph).entries@,
                    dynamic_inputs@[k].name@,
                    w,
                )) ==> scope_settled(*old(module_graph), scope_of(dynamic_inputs@[k])))
            ==> !handled,
        // with a single scoped input, the matched entry's scoping outcome
        // carries to this level: every qualifying dependency edge of an
        // unparented entry ends with its scoped counterpart
        forall|k: int, w: int, i: int|
            #![trigger dynamic_inputs@[k], entry_match(old(module_graph).entries@, dynamic_inputs@[k].name@, w), old(module_graph).edges@[i]]
            0 <= k < dynamic_inputs@.len() && dynamic_inputs@[k].scope is Some && (forall|k2: int|
                0 <= k2 < dynamic_inputs@.len() && k2 != k ==> (
                #[trigger] dynamic_inputs@[k2]).scope is None) && entry_match(
                old(module_graph).entries@,
                dynamic_inputs@[k].name@,
                w,
            ) && entry_unparented(*old(module_graph), old(module_graph).entries@[w].id@) && old(
                module_graph,
            ).entries@[w].id@.2 != Some(scope_of(dynamic_inputs@[k])) && 0 <= i < old(
                module_graph,
            ).edges@.len() && old(module_graph).edges@[i].from@ == old(
                module_graph,
            ).entries@[w].id@ && qualifies_for_scoping(
                old(module_graph).mod_at(old(module_graph).edges@[i].to@).module_type,
            ) && !old(module_graph).has_edge_repr(
                old(module_graph).entries@[w].id@,
                scoped_repr(old(module_graph).edges@[i].to@, scope_of(dynamic_inputs@[k])),
            ) && !old(module_graph).has_mod(
                scoped_repr(old(module_graph).edges@[i].to@, scope_of(dynamic_inputs@[k])),
            ) ==> final(module_graph).has_edge_repr(
                old(module_graph).entries@[w].id@,
                scoped_repr(old(module_graph).edges@[i].to@, scope_of(dynamic_inputs@[k])),
            ),
{
    let ghost g0 = *old(module_graph);
    let mut handled = false;
    let mut ki: usize = 0;
    while ki < dynamic_inputs.len()
        invariant
            module_graph.wf(),
            module_graph.entries@ == g0.entries@,
            keeps_unscoped_kinds(g0, *module_graph),
            !handled ==> module_graph.repr() == g0.repr(),
            ki <= dynamic_inputs@.len(),
            forall|k: int, w: int, i: int|
                #![trigger dynamic_inputs@[k], entry_match(g0.entries@, dynamic_inputs@[k].name@, w), g0.edges@[i]]
                0 <= k < ki && dynamic_inputs@[k].scope is Some && entry_match(
                    g0.entries@,
                    dynamic_inputs@[k].name@,
                    w,
                ) && 0 <= i < g0.edges@.len() && g0.edges@[i].from@ == g0.entries@[w].id@
                    && !g0.has_edge_repr(
                    g0.entries@[w].id@,
                    scoped_repr(g0.edges@[i].to@, scope_of(dynamic_inputs@[k])),
                ) ==> handled,
            handled ==> exists|k: int|
                0 <= k < ki && (#[trigger] dynamic_inputs@[k]).scope is Some && exists|w: int|
                    #[trigger] entry_match(g0.entries@, dynamic_inputs@[k].name@, w),
            (forall|k: int|
                0 <= k < dynamic_inputs@.len() && (#[trigger] dynamic_inputs@[k]).scope is Some
                    && (exists|w: int|
                    #[trigger] entry_match(g0.entries@, dynamic_inputs@[k].name@, w))
                    ==> scope_settled(g0, scope_of(dynamic_inputs@[k]))) ==> !handled,
            forall|k: int, w: int, i: int|
                #![trigger dynamic_inputs@[k], entry_match(g0.entries@, dynamic_inputs@[k].name@, w), g0.edges@[i]]
                0 <= k < ki && dynamic_inputs@[k].scope is Some && (forall|k2: int|
                    0 <= k2 < dynamic_inputs@.len() && k2 != k ==> (
                    #[trigger] dynamic_inputs@[k2]).scope is None) && entry_match(
                    g0.entries@,
                    dynamic_inputs@[k].name@,
                    w,
                ) && entry_unparented(g0, g0.entries@[w].id@) && g0.entries@[w].id@.2 != Some(
                    scope_of(dynamic_inputs@[k]),
                ) && 0 <= i < g0.edges@.len() && g0.edges@[i].from@ == g0.entries@[w].id@
                    && qualifies_for_scoping(g0.mod_at(g0.edges@[i].to@).module_type)
                    && !g0.has_edge_repr(
                    g0.entries@[w].id@,
                    scoped_repr(g0.edges@[i].to@, scope_of(dynamic_inputs@[k])),
                ) && !g0.has_mod(scoped_repr(g0.edges@[i].to@, scope_of(dynamic_inputs@[k])))
                    ==> module_graph.has_edge_repr(
                    g0.entries@[w].id@,
                    scoped_repr(g0.edges@[i].to@, scope_of(dynamic_inputs@[k])),
                ),
            forall|k: int|
                #![trigger dynamic_inputs@[k]]
                ki <= k < dynamic_inputs@.len() && dynamic_inputs@[k].scope is Some && (forall|
                    k2: int,
                |
                    0 <= k2 < dynamic_inputs@.len() && k2 != k ==> (
                    #[trigger] dynamic_inputs@[k2]).scope is None) ==> module_graph.repr()
                    == g0.repr(),
        decreases dynamic_inputs@.len() - ki,
    {
        let ghost handled_before = handled;
        match &dynamic_inputs[ki].scope {
            Some(scope) => {
                match find_entry_id(module_graph, &dynamic_inputs[ki].name) {
                    Some(entry_id) => {
                        let ghost gpre = *module_graph;
                        let res = copy_module_deeply(entry_id, scope, module_graph);
                        handled = handled || res;
                        proof {
                            lemma_keeps_unscoped_trans(g0, gpre, *module_graph);
                            assert forall|w: int, i: int|
                                #![trigger entry_match(g0.entries@, dynamic_inputs@[ki as int].name@, w), g0.edges@[i]]
                                entry_match(g0.entries@, dynamic_inputs@[ki as int].name@, w) && 0
                                    <= i < g0.edges@.len() && g0.edges@[i].from@
                                    == g0.entries@[w].id@ && !g0.has_edge_repr(
                                    g0.entries@[w].id@,
                                    scoped_repr(
                                        g0.edges@[i].to@,
                                        scope_of(dynamic_inputs@[ki as int]),
                                    ),
                                ) implies handled by {
                                if !handled_before {
                                    // the graph was still the pre state, so the
                                    // traversal saw exactly these edges
                                    assert(gpre.repr() == g0.repr());
                                    let w2 = choose|w2: int|
                                        #[trigger] entry_match(
                                            gpre.entries@,
                                            dynamic_inputs@[ki as int].name@,
                                            w2,
                                        ) && gpre.entries@[w2].id@ == entry_id@;
                                    if w2 < w {
                                        assert(g0.entries@[w2].name@
                                            != dynamic_inputs@[ki as int].name@);
                                        assert(false);
                                    }
                                    if w < w2 {
                                        assert(gpre.entries@[w].name@
                                            != dynamic_inputs@[ki as int].name@);
                                        assert(false);
                                    }
                                    assert(entry_id@ == g0.entries@[w].id@);
                                    assert(scope@ == scope_of(dynamic_inputs@[ki as int]));
                                    assert(gpre.edges@[i].from@ == entry_id@);
                                    assert(!gpre.has_edge_repr(
                                        entry_id@,
                                        scoped_repr(gpre.edges@[i].to@, scope@),
                                    )) by {
                                        if gpre.has_edge_repr(
                                            entry_id@,
                                            scoped_repr(gpre.edges@[i].to@, scope@),
                                        ) {
                                            assert(g0.has_edge_repr(
                                                g0.entries@[w].id@,
                                                scoped_repr(g0.edges@[i].to@, scope@),
                                            ));
                                        }
                                    }
                                    assert(res);
                                }
                            }
                            // soundness witness for the flag
                            if res {
                                let wd = choose|w2: int|
                                    #[trigger] entry_match(
                                        gpre.entries@,
                                        dynamic_inputs@[ki as int].name@,
                                        w2,
                                    ) && gpre.entries@[w2].id@ == entry_id@;
                                assert(entry_match(
                                    g0.entries@,
                                    dynamic_inputs@[ki as int].name@,
                                    wd,
                                ));
                            }
                            // a fully settled set of matched entries reports nothing
                            if (forall|k: int|
                                0 <= k < dynamic_inputs@.len() && (
                                #[trigger] dynamic_inputs@[k]).scope is Some && (exists|w: int|
                                    #[trigger] entry_match(
                                        g0.entries@,
                                        dynamic_inputs@[k].name@,
                                        w,
                                    )) ==> scope_settled(g0, scope_of(dynamic_inputs@[k]))) {
                                assert(!handled_before);
                                let we = choose|w2: int|
                                    #[trigger] entry_match(
                                        gpre.entries@,
                                        dynamic_inputs@[ki as int].name@,
                                        w2,
                                    ) && gpre.entries@[w2].id@ == entry_id@;
                                assert(entry_match(
                                    g0.entries@,
                                    dynamic_inputs@[ki as int].name@,
                                    we,
                                ));
                                assert(scope_settled(g0, scope_of(dynamic_inputs@[ki as int])));
                                assert(scope@ == scope_of(dynamic_inputs@[ki as int]));
                                assert(scope_settled(gpre, scope@)) by {
                                    assert forall|e: int|
                                        0 <= e < gpre.edges@.len() implies scoped_repr(
                                        (#[trigger] gpre.edges@[e]).to@,
                                        scope@,
                                    ) == gpre.edges@[e].to@ by {
                                        assert(gpre.edges@[e] == g0.edges@[e]);
                                    }
                                }
                                assert(!res);
                            }
                            // the single scoped input's per-edge outcome
                            assert forall|k: int, w: int, i: int|
                                #![trigger dynamic_inputs@[k], entry_match(g0.entries@, dynamic_inputs@[k].name@, w), g0.edges@[i]]
                                0 <= k < ki + 1 && dynamic_inputs@[k].scope is Some && (forall|
                                    k2: int,
                                |
                                    0 <= k2 < dynamic_inputs@.len() && k2 != k ==> (
                                    #[trigger] dynamic_inputs@[k2]).scope is None) && entry_match(
                                    g0.entries@,
                                    dynamic_inputs@[k].name@,
                                    w,
                                ) && entry_unparented(g0, g0.entries@[w].id@)
                                    && g0.entries@[w].id@.2 != Some(scope_of(dynamic_inputs@[k]))
                                    && 0 <= i < g0.edges@.len() && g0.edges@[i].from@
                                    == g0.entries@[w].id@ && qualifies_for_scoping(
                                    g0.mod_at(g0.edges@[i].to@).module_type,
                                ) && !g0.has_edge_repr(
                                    g0.entries@[w].id@,
                                    scoped_repr(g0.edges@[i].to@, scope_of(dynamic_inputs@[k])),
                                ) && !g0.has_mod(
                                    scoped_repr(g0.edges@[i].to@, scope_of(dynamic_inputs@[k])),
                                ) implies module_graph.has_edge_repr(
                                g0.entries@[w].id@,
                                scoped_repr(g0.edges@[i].to@, scope_of(dynamic_inputs@[k])),
                            ) by {
                                if k < ki {
                                    assert((#[trigger] dynamic_inputs@[ki as int]).scope is None);
                                    assert(false);
                                } else {
                                    // this very input ran, on the untouched pre state
                                    assert(gpre.repr() == g0.repr());
                                    let wf2 = choose|w2: int|
                                        #[trigger] entry_match(
                                            gpre.entries@,
                                            dynamic_inputs@[ki as int].name@,
                                            w2,
                                        ) && gpre.entries@[w2].id@ == entry_id@;
                                    if wf2 < w {
                                        assert(g0.entries@[wf2].name@
                                            != dynamic_inputs@[ki as int].name@);
                                        assert(false);
                                    }
                                    if w < wf2 {
                                        assert(gpre.entries@[w].name@
                                            != dynamic_inputs@[ki as int].name@);
                                        assert(false);
                                    }
                                    assert(entry_id@ == g0.entries@[w].id@);
                                    assert(scope@ == scope_of(dynamic_inputs@[ki as int]));
                                    assert(entry_unparented(gpre, entry_id@)) by {
                                        assert forall|a: IdRepr|
                                            !(#[trigger] gpre.has_edge_repr(a, entry_id@)) by {
                                            if gpre.has_edge_repr(a, entry_id@) {
                                                let e = choose|e: int|
                                                    0 <= e < gpre.edges@.len()
                                                        && crate::graph::edge_connects(
                                                        #[trigger] gpre.edges@[e],
                                                        a,
                                                        entry_id@,
                                                    );
                                                assert(crate::graph::edge_connects(
                                                    g0.edges@[e],
                                                    a,
                                                    entry_id@,
                                                ));
                                                assert(g0.has_edge_repr(a, entry_id@));
                                            }
                                        }
                                    }
                                    gpre.lemma_mod_at_eq(g0);
                                    assert(gpre.edges@[i] == g0.edges@[i]);
                                    assert(g0.has_mod(g0.edges@[i].to@));
                                    assert(qualifies_for_scoping(
                                        gpre.mod_at(gpre.edges@[i].to@).module_type,
                                    ));
                                    assert(!gpre.has_edge_repr(
                                        entry_id@,
                                        scoped_repr(gpre.edges@[i].to@, scope@),
                                    )) by {
                                        if gpre.has_edge_repr(
                                            entry_id@,
                                            scoped_repr(gpre.edges@[i].to@, scope@),
                                        ) {
                                            let e = choose|e: int|
                                                0 <= e < gpre.edges@.len()
                                                    && crate::graph::edge_connects(
                                                    #[trigger] gpre.edges@[e],
                                                    entry_id@,
                                                    scoped_repr(gpre.edges@[i].to@, scope@),
                                                );
                                            assert(g0.has_edge_repr(
                                                g0.entries@[w].id@,
                                                scoped_repr(g0.edges@[i].to@, scope@),
                                            ));
                                        }
                                    }
                                    assert(!gpre.has_mod(
                                        scoped_repr(gpre.edges@[i].to@, scope@),
                                    ));
                                    assert(module_graph.has_edge_repr(
                                        entry_id@,
                                        scoped_repr(gpre.edges@[i].to@, scope@),
                                    ));
                                }
                            }
                            // no later input carries a scope alongside this one
                            assert forall|k: int|
                                #![trigger dynamic_inputs@[k]]
                                ki + 1 <= k < dynamic_inputs@.len() && dynamic_inputs@[k].scope
                                    is Some && (forall|k2: int|
                                    0 <= k2 < dynamic_inputs@.len() && k2 != k ==> (
                                    #[trigger] dynamic_inputs@[k2]).scope is None)
                                    implies module_graph.repr() == g0.repr() by {
                                assert((dynamic_inputs@[ki as int]).scope is None);
                                assert(false);
                            }
                        }
                    },
                    None => {},
                }
            },
            None => {},
        }
        ki += 1;
    }
    handled
}

} // verus!
