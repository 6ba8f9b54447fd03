//! Diff-driven resource regeneration: decide which resource pots are
//! affected by a change, drop their stale artifacts and clear their resource
//! lists, so that only those pots are re-rendered.

use vstd::prelude::*;
use vstd::string::StringExecFns;

use crate::diff::{diff_is_empty, DiffResult, ModuleGroup};
use crate::graph::ModuleGraph;
use crate::ids::{IdRepr, ModuleId};
use crate::module::Module;
use crate::pot::ResourcePotMap;
use crate::store::ResourceStore;

verus! {

/// A broken structural invariant: a lookup that the graph and pot-map
/// invariants say must succeed did not. Fatal to the rebuild.
#[derive(Debug)]
pub enum StructuralError {
    MissingModule(ModuleId),
    ModuleWithoutPot(ModuleId),
    MissingResourcePot(String),
}

/// Id of the pot owning the module with id `u` (empty when it has none).
pub open spec fn pot_of(g: ModuleGraph, u: IdRepr) -> Seq<char> {
    match g.mod_at(u).resource_pot {
        Some(p) => p@,
        None => Seq::<char>::empty(),
    }
}

/// The module exists, is owned by a pot, and that pot is registered.
pub open spec fn updated_ok(g: ModuleGraph, pm: ResourcePotMap, u: ModuleId) -> bool {
    g.has_mod(u@) && g.mod_at(u@).resource_pot is Some && pm.has_pot(pot_of(g, u@))
}

pub open spec fn contains_str(v: Seq<String>, x: Seq<char>) -> bool {
    exists|k: int| 0 <= k < v.len() && (#[trigger] v[k])@ == x
}

fn contains_string(v: &Vec<String>, x: &String) -> (r: bool)
    ensures
        r == contains_str(v@, x@),
{
    let mut i: usize = 0;
    while i < v.len()
        invariant
            i <= v@.len(),
            forall|k: int| 0 <= k < i ==> (#[trigger] v@[k])@ != x@,
        decreases v@.len() - i,
    {
        if v[i] == *x {
            return true;
        }
        i += 1;
    }
    false
}

/// The id is listed as a member of one of the groups.
pub open spec fn in_module_groups(groups: Seq<ModuleGroup>, m: IdRepr) -> bool {
    exists|i: int, k: int|
        0 <= i < groups.len() && 0 <= k < groups[i].modules@.len() && (#[trigger] groups[i].modules@[k])@
            == m
}

/// Clear the pot back-reference of every module belonging to one of the
/// groups, ahead of membership recomputation: every listed module that is in
/// the graph ends with no pot, and modules listed in no group are untouched.
pub fn clear_resource_pot_of_modules_in_module_groups(
    module_groups: &Vec<ModuleGroup>,
    module_graph: &mut ModuleGraph,
)
    requires
        old(module_graph).wf(),
    ensures
        final(module_graph).wf(),
        final(module_graph).edges@ == old(module_graph).edges@,
        final(module_graph).entries@ == old(module_graph).entries@,
        final(module_graph).modules@.len() == old(module_graph).modules@.len(),
        forall|j: int|
            0 <= j < old(module_graph).modules@.len() ==> #[trigger] final(module_graph).modules@[j]
                == old(module_graph).modules@[j] || final(module_graph).modules@[j] == (Module {
                resource_pot: None,
                ..old(module_graph).modules@[j]
            }),
        forall|j: int|
            0 <= j < old(module_graph).modules@.len() && !in_module_groups(
                module_groups@,
                (#[trigger] old(module_graph).modules@[j]).id@,
            ) ==> final(module_graph).modules@[j] == old(module_graph).modules@[j],
        forall|i: int, k: int|
            0 <= i < module_groups@.len() && 0 <= k < module_groups@[i].modules@.len() && old(
                module_graph,
            ).has_mod((#[trigger] module_groups@[i].modules@[k])@) ==> final(module_graph).has_mod(
                module_groups@[i].modules@[k]@,
            ) && final(module_graph).mod_at(module_groups@[i].modules@[k]@).resource_pot is None,
{
    let ghost g0 = *old(module_graph);
    let mut i: usize = 0;
    while i < module_groups.len()
        invariant
            module_graph.wf(),
            module_graph.edges@ == g0.edges@,
            module_graph.entries@ == g0.entries@,
            module_graph.modules@.len() == g0.modules@.len(),
            forall|j: int|
                0 <= j < g0.modules@.len() ==> (#[trigger] module_graph.modules@[j]).id@
                    == g0.modules@[j].id@,
            forall|j: int|
                0 <= j < g0.modules@.len() ==> #[trigger] module_graph.modules@[j]
                    == g0.modules@[j] || module_graph.modules@[j] == (Module {
                    resource_pot: None,
                    ..g0.modules@[j]
                }),
            forall|j: int|
                0 <= j < g0.modules@.len() && !in_module_groups(
                    module_groups@,
                    (#[trigger] g0.modules@[j]).id@,
                ) ==> module_graph.modules@[j] == g0.modules@[j],
            forall|x: int, y: int|
                0 <= x < i && 0 <= y < module_groups@[x].modules@.len() && module_graph.has_mod(
                    (#[trigger] module_groups@[x].modules@[y])@,
                ) ==> module_graph.mod_at(module_groups@[x].modules@[y]@).resource_pot is None,
            i <= module_groups@.len(),
        decreases module_groups@.len() - i,
    {
        let mut k: usize = 0;
        while k < module_groups[i].modules.len()
            invariant
                module_graph.wf(),
                module_graph.edges@ == g0.edges@,
                module_graph.entries@ == g0.entries@,
                module_graph.modules@.len() == g0.modules@.len(),
                forall|j: int|
                    0 <= j < g0.modules@.len() ==> (#[trigger] module_graph.modules@[j]).id@
                        == g0.modules@[j].id@,
                forall|j: int|
                    0 <= j < g0.modules@.len() ==> #[trigger] module_graph.modules@[j]
                        == g0.modules@[j] || module_graph.modules@[j] == (Module {
                        resource_pot: None,
                        ..g0.modules@[j]
                    }),
                forall|j: int|
                    0 <= j < g0.modules@.len() && !in_module_groups(
                        module_groups@,
                        (#[trigger] g0.modules@[j]).id@,
                    ) ==> module_graph.modules@[j] == g0.modules@[j],
                forall|x: int, y: int|
                    0 <= x < i + 1 && 0 <= y < module_groups@[x].modules@.len() && (x < i || y < k)
                        && module_graph.has_mod((#[trigger] module_groups@[x].modules@[y])@)
                        ==> module_graph.mod_at(
                        module_groups@[x].modules@[y]@,
                    ).resource_pot is None,
                i < module_groups@.len(),
                k <= module_groups@[i as int].modules@.len(),
            decreases module_groups@[i as int].modules@.len() - k,
        {
            let ghost gpre = *module_graph;
            if module_graph.has_module(&module_groups[i].modules[k]) {
                module_graph.set_resource_pot(&module_groups[i].modules[k], None);
                proof {
                    let u = module_groups@[i as int].modules@[k as int]@;
                    let idx = gpre.mod_idx(u);
                    assert(gpre.modules@[idx].id@ == u);
                    assert(module_graph.modules@[idx].id@ == u);
                    assert(in_module_groups(module_groups@, u));
                    assert forall|j: int|
                        0 <= j < g0.modules@.len() implies (#[trigger] module_graph.modules@[j]
                        == g0.modules@[j] || module_graph.modules@[j] == (Module {
                        resource_pot: None,
                        ..g0.modules@[j]
                    })) && (module_graph.modules@[j]).id@ == g0.modules@[j].id@ && (
                    !in_module_groups(module_groups@, g0.modules@[j].id@)
                        ==> module_graph.modules@[j] == g0.modules@[j]) by {
                        if j != idx {
                            assert(module_graph.modules@[j] == gpre.modules@[j]);
                        } else {
                            assert(g0.modules@[j].id@ == u);
                        }
                    }
                    assert forall|x: int, y: int|
                        0 <= x < i + 1 && 0 <= y < module_groups@[x].modules@.len() && (x < i || y
                            < k + 1) && module_graph.has_mod(
                            (#[trigger] module_groups@[x].modules@[y])@,
                        ) implies module_graph.mod_at(
                        module_groups@[x].modules@[y]@,
                    ).resource_pot is None by {
                        let m = module_groups@[x].modules@[y]@;
                        let w = choose|w: int|
                            0 <= w < module_graph.modules@.len() && (
                            #[trigger] module_graph.modules@[w]).id@ == m;
                        module_graph.lemma_mod_at_unique(m, w);
                        if w == idx {
                            assert(module_graph.modules@[w].resource_pot is None);
                        } else {
                            assert(module_graph.modules@[w] == gpre.modules@[w]);
                            assert(gpre.modules@[w].id@ == m);
                            gpre.lemma_mod_at_unique(m, w);
                            if x < i || y < k {
                                assert(gpre.mod_at(m).resource_pot is None);
                            } else {
                                assert(x == i && y == k);
                                assert(w == idx);  // the cleared module is the listed one
                            }
                        }
                    }
                }
            } else {
                proof {
                    let m = module_groups@[i as int].modules@[k as int]@;
                    assert forall|x: int, y: int|
                        0 <= x < i + 1 && 0 <= y < module_groups@[x].modules@.len() && (x < i || y
                            < k + 1) && module_graph.has_mod(
                            (#[trigger] module_groups@[x].modules@[y])@,
                        ) implies module_graph.mod_at(
                        module_groups@[x].modules@[y]@,
                    ).resource_pot is None by {
                        if x == i && y == k {
                            assert(!module_graph.has_mod(m));
                        }
                    }
                }
            }
            k += 1;
        }
        i += 1;
    }
    proof {
        assert forall|i: int, k: int|
            0 <= i < module_groups@.len() && 0 <= k < module_groups@[i].modules@.len() && g0.has_mod(
                (#[trigger] module_groups@[i].modules@[k])@,
            ) implies module_graph.has_mod(module_groups@[i].modules@[k]@) && module_graph.mod_at(
            module_groups@[i].modules@[k]@,
        ).resource_pot is None by {
            let m = module_groups@[i].modules@[k]@;
            let w = g0.mod_idx(m);
            assert(g0.modules@[w].id@ == m);
            assert(module_graph.modules@[w].id@ == m);
            assert(module_graph.has_mod(m));
        }
    }
}

/// Decide which resource pots must be re-rendered after a change, and drop
/// what is stale. The execution-order annotations of the whole graph are
/// recomputed first, unconditionally: content-only edits can reorder
/// side-effecting statements. `grouped_pot_ids` is what the grouping
/// collaborator yielded for a non-empty diff; on an empty diff the
/// membership recomputation was skipped, the list is ignored, and the
/// affected pots are exactly those owning the explicitly updated modules;
/// on a structural diff every pot the collaborator named stays affected.
/// Every pot owning an updated module has its emitted resources dropped
/// from the store and its resource list cleared. On a broken invariant the
/// error names it and only the execution order has been touched.
#[verifier::rlimit(60)]
pub fn regenerate_resources_for_affected_module_groups(
    diff_result: &DiffResult,
    updated_module_ids: &Vec<ModuleId>,
    grouped_pot_ids: Vec<String>,
    module_graph: &mut ModuleGraph,
    resource_pot_map: &mut ResourcePotMap,
    resources_map: &mut ResourceStore,
) -> (r: Result<Vec<String>, StructuralError>)
    requires
        old(module_graph).wf(),
        old(resource_pot_map).wf(),
        old(resources_map).wf(),
    ensures
        final(module_graph).wf(),
        final(module_graph).edges@ == old(module_graph).edges@,
        final(module_graph).entries@ == old(module_graph).entries@,
        crate::graph::same_but_order(old(module_graph).modules@, final(module_graph).modules@),
        final(resource_pot_map).wf(),
        final(resources_map).wf(),
        r is Ok <==> (forall|k: int|
            0 <= k < updated_module_ids@.len() ==> updated_ok(
                *final(module_graph),
                *old(resource_pot_map),
                #[trigger] updated_module_ids@[k],
            )),
        r is Err ==> *final(resource_pot_map) == *old(resource_pot_map) && *final(resources_map)
            == *old(resources_map),
        r matches Ok(affected) ==> {
            // every updated module's own pot is re-rendered ...
            &&& forall|k: int|
                0 <= k < updated_module_ids@.len() ==> contains_str(
                    affected@,
                    pot_of(*final(module_graph), (#[trigger] updated_module_ids@[k])@),
                )
            // ... and, on an empty diff, nothing else is: the short-circuit
            &&& diff_is_empty(*diff_result) ==> forall|x: Seq<char>|
                contains_str(affected@, x) ==> exists|k: int|
                    0 <= k < updated_module_ids@.len() && pot_of(
                        *final(module_graph),
                        (#[trigger] updated_module_ids@[k])@,
                    ) == x
            // on a structural diff, the collaborator's pots are all kept ...
            &&& !diff_is_empty(*diff_result) ==> forall|x: Seq<char>|
                contains_str(grouped_pot_ids@, x) ==> contains_str(affected@, x)
            // ... and nothing beyond them and the updated modules' pots
            &&& forall|x: Seq<char>|
                contains_str(affected@, x) ==> contains_str(grouped_pot_ids@, x) || exists|k: int|
                    0 <= k < updated_module_ids@.len() && pot_of(
                        *final(module_graph),
                        (#[trigger] updated_module_ids@[k])@,
                    ) == x
            // nothing is listed twice beyond what the collaborator handed in
            &&& diff_is_empty(*diff_result) ==> forall|x: int, y: int|
                0 <= x < y < affected@.len() ==> (#[trigger] affected@[x])@ != (
                #[trigger] affected@[y])@
            &&& !diff_is_empty(*diff_result) ==> forall|x: int, y: int|
                0 <= x < y < affected@.len() && grouped_pot_ids@.len() <= y ==> (
                #[trigger] affected@[x])@ != (#[trigger] affected@[y])@
            // stale artifacts of the re-rendered pots are gone from the store
            &&& forall|k: int|
                0 <= k < updated_module_ids@.len() ==> !final(resources_map).has_res_of_pot(
                    pot_of(*final(module_graph), (#[trigger] updated_module_ids@[k])@),
                )
            // and their resource lists in the pot map are cleared
            &&& forall|k: int|
                0 <= k < updated_module_ids@.len() ==> final(resource_pot_map).has_pot(
                    pot_of(*final(module_graph), (#[trigger] updated_module_ids@[k])@),
                ) && final(resource_pot_map).pot_at(
                    pot_of(*final(module_graph), updated_module_ids@[k]@),
                ).resources@.len() == 0
        },
{
    // step one, always: refresh the dependency-respecting ordering
    module_graph.update_execution_order_for_modules();
    let ghost gx = *module_graph;
    // validate first, so that a broken invariant leaves everything untouched
    let mut k: usize = 0;
    while k < updated_module_ids.len()
        invariant
            module_graph.wf(),
            *module_graph == gx,
            gx.edges@ == old(module_graph).edges@,
            gx.entries@ == old(module_graph).entries@,
            crate::graph::same_but_order(old(module_graph).modules@, gx.modules@),
            *resource_pot_map == *old(resource_pot_map),
            *resources_map == *old(resources_map),
            old(resource_pot_map).wf(),
            old(resources_map).wf(),
            k <= updated_module_ids@.len(),
            forall|l: int|
                0 <= l < k ==> updated_ok(
                    *module_graph,
                    *old(resource_pot_map),
                    #[trigger] updated_module_ids@[l],
                ),
        decreases updated_module_ids@.len() - k,
    {
        match module_graph.module(&updated_module_ids[k]) {
            None => {
                return Err(StructuralError::MissingModule(updated_module_ids[k].clone()));
            },
            Some(m) => {
                match &m.resource_pot {
                    None => {
                        return Err(
                            StructuralError::ModuleWithoutPot(updated_module_ids[k].clone()),
                        );
                    },
                    Some(pid) => {
                        if !resource_pot_map.has_pot_id(pid) {
                            return Err(StructuralError::MissingResourcePot(pid.clone()));
                        }
                    },
                }
            },
        }
        k += 1;
    }
    // the affected pots: the regrouped ones (none on an empty diff), plus
    // the pot of every updated module
    let mut affected: Vec<String> = if diff_result.is_empty() {
        Vec::new()
    } else {
        grouped_pot_ids
    };
    let ghost aff0 = affected@;
    let mut pots_of_updated: Vec<String> = Vec::new();
    let mut i: usize = 0;
    while i < updated_module_ids.len()
        invariant
            module_graph.wf(),
            *module_graph == gx,
            gx.edges@ == old(module_graph).edges@,
            gx.entries@ == old(module_graph).entries@,
            crate::graph::same_but_order(old(module_graph).modules@, gx.modules@),
            *resource_pot_map == *old(resource_pot_map),
            *resources_map == *old(resources_map),
            old(resource_pot_map).wf(),
            old(resources_map).wf(),
            i <= updated_module_ids@.len(),
            !diff_is_empty(*diff_result) ==> aff0 == grouped_pot_ids@,
            forall|x: Seq<char>| contains_str(aff0, x) ==> contains_str(affected@, x),
            aff0.len() <= affected@.len(),
            forall|x: int, y: int|
                0 <= x < y < affected@.len() && aff0.len() <= y ==> (#[trigger] affected@[x])@ != (
                #[trigger] affected@[y])@,
            forall|l: int|
                0 <= l < updated_module_ids@.len() ==> updated_ok(
                    *module_graph,
                    *old(resource_pot_map),
                    #[trigger] updated_module_ids@[l],
                ),
            forall|l: int|
                0 <= l < i ==> contains_str(
                    affected@,
                    pot_of(*module_graph, (#[trigger] updated_module_ids@[l])@),
                ),
            forall|l: int|
                0 <= l < i ==> contains_str(
                    pots_of_updated@,
                    pot_of(*module_graph, (#[trigger] updated_module_ids@[l])@),
                ),
            forall|l: int|
                0 <= l < pots_of_updated@.len() ==> old(resource_pot_map).has_pot(
                    (#[trigger] pots_of_updated@[l])@,
                ),
            diff_is_empty(*diff_result) ==> aff0 == Seq::<String>::empty(),
            forall|x: Seq<char>|
                contains_str(affected@, x) ==> contains_str(aff0, x) || exists|l: int|
                    0 <= l < i && pot_of(*module_graph, (#[trigger] updated_module_ids@[l])@) == x,
        decreases updated_module_ids@.len() - i,
    {
        let pid = match module_graph.module(&updated_module_ids[i]) {
            Some(m) => {
                match &m.resource_pot {
                    Some(p) => p.clone(),
                    None => vstd::pervasive::unreached(),
                }
            },
            None => vstd::pervasive::unreached(),
        };
        let ghost prev_aff = affected@;
        if !contains_string(&affected, &pid) {
            affected.push(pid.clone());
        }
        proof {
            assert(contains_str(affected@, pid@)) by {
                if prev_aff.len() < affected@.len() {
                    assert(affected@[affected@.len() - 1]@ == pid@);
                }
            }
            assert forall|l: int|
                0 <= l < i implies contains_str(
                affected@,
                pot_of(*module_graph, (#[trigger] updated_module_ids@[l])@),
            ) by {
                let y = pot_of(*module_graph, updated_module_ids@[l]@);
                let w = choose|w: int| 0 <= w < prev_aff.len() && (#[trigger] prev_aff[w])@ == y;
                assert(affected@[w]@ == y);
            }
            assert forall|x: Seq<char>| contains_str(aff0, x) implies contains_str(
                affected@,
                x,
            ) by {
                let w = choose|w: int| 0 <= w < prev_aff.len() && (#[trigger] prev_aff[w])@ == x;
                assert(affected@[w]@ == x);
            }
            assert forall|x: int, y: int|
                0 <= x < y < affected@.len() && aff0.len() <= y implies (
            #[trigger] affected@[x])@ != (#[trigger] affected@[y])@ by {
                if y == prev_aff.len() as int {
                    assert(affected@[y]@ == pid@);
                    assert(affected@[x] == prev_aff[x]);
                    assert(!contains_str(prev_aff, pid@));
                } else {
                    assert(affected@[x] == prev_aff[x] && affected@[y] == prev_aff[y]);
                }
            }
            assert forall|x: Seq<char>|
                contains_str(affected@, x) implies contains_str(aff0, x) || exists|l: int|
                0 <= l < i + 1 && pot_of(*module_graph, (#[trigger] updated_module_ids@[l])@)
                    == x by {
                let w = choose|w: int| 0 <= w < affected@.len() && (#[trigger] affected@[w])@ == x;
                if w < prev_aff.len() {
                    assert(contains_str(prev_aff, x));
                } else {
                    assert(affected@[w]@ == pid@);
                    assert(pot_of(*module_graph, updated_module_ids@[i as int]@) == x);
                }
            }
        }
        let ghost prev_pots = pots_of_updated@;
        pots_of_updated.push(pid);
        proof {
            assert(pots_of_updated@[pots_of_updated@.len() - 1]@ == pot_of(
                *module_graph,
                updated_module_ids@[i as int]@,
            ));
            assert forall|l: int|
                0 <= l < i + 1 implies contains_str(
                pots_of_updated@,
                pot_of(*module_graph, (#[trigger] updated_module_ids@[l])@),
            ) by {
                let y = pot_of(*module_graph, updated_module_ids@[l]@);
                if l < i {
                    let w = choose|w: int|
                        0 <= w < prev_pots.len() && (#[trigger] prev_pots[w])@ == y;
                    assert(pots_of_updated@[w]@ == y);
                } else {
                    assert(pots_of_updated@[pots_of_updated@.len() - 1]@ == y);
                }
            }
            assert forall|l: int|
                0 <= l < pots_of_updated@.len() implies old(resource_pot_map).has_pot(
                (#[trigger] pots_of_updated@[l])@,
            ) by {
                if l < prev_pots.len() {
                    assert(pots_of_updated@[l] == prev_pots[l]);
                } else {
                    assert(pots_of_updated@[l]@ == pot_of(
                        *module_graph,
                        updated_module_ids@[i as int]@,
                    ));
                    assert(updated_ok(
                        *module_graph,
                        *old(resource_pot_map),
                        updated_module_ids@[i as int],
                    ));
                }
            }
        }
        i += 1;
    }
    // drop every stale artifact of the pots about to be re-rendered, and
    // forget their resource lists
    resources_map.remove_resources_of_pots(&pots_of_updated);
    let ghost aff_final = affected@;
    let mut j: usize = 0;
    while j < pots_of_updated.len()
        invariant
            old(resource_pot_map).wf(),
            resource_pot_map.wf(),
            resources_map.wf(),
            *module_graph == gx,
            gx.edges@ == old(module_graph).edges@,
            gx.entries@ == old(module_graph).entries@,
            crate::graph::same_but_order(old(module_graph).modules@, gx.modules@),
            module_graph.wf(),
            affected@ == aff_final,
            diff_is_empty(*diff_result) ==> aff0 == Seq::<String>::empty(),
            !diff_is_empty(*diff_result) ==> aff0 == grouped_pot_ids@,
            forall|x: Seq<char>| contains_str(aff0, x) ==> contains_str(aff_final, x),
            aff0.len() <= aff_final.len(),
            forall|x: int, y: int|
                0 <= x < y < aff_final.len() && aff0.len() <= y ==> (#[trigger] aff_final[x])@ != (
                #[trigger] aff_final[y])@,
            forall|l: int|
                0 <= l < j ==> resource_pot_map.has_pot((#[trigger] pots_of_updated@[l])@)
                    && resource_pot_map.pot_at(pots_of_updated@[l]@).resources@.len() == 0,
            forall|x: Seq<char>|
                contains_str(aff_final, x) ==> contains_str(aff0, x) || exists|l: int|
                    0 <= l < updated_module_ids@.len() && pot_of(
                        *module_graph,
                        (#[trigger] updated_module_ids@[l])@,
                    ) == x,
            forall|l: int|
                0 <= l < updated_module_ids@.len() ==> contains_str(
                    aff_final,
                    pot_of(*module_graph, (#[trigger] updated_module_ids@[l])@),
                ),
            forall|l: int|
                0 <= l < updated_module_ids@.len() ==> contains_str(
                    pots_of_updated@,
                    pot_of(*module_graph, (#[trigger] updated_module_ids@[l])@),
                ),
            forall|l: int|
                0 <= l < pots_of_updated@.len() ==> !resources_map.has_res_of_pot(
                    (#[trigger] pots_of_updated@[l])@,
                ),
            resource_pot_map.pots@.len() == old(resource_pot_map).pots@.len(),
            forall|p: int|
                0 <= p < old(resource_pot_map).pots@.len()
                    ==> (#[trigger] resource_pot_map.pots@[p]).id@ == old(
                    resource_pot_map,
                ).pots@[p].id@,
            j <= pots_of_updated@.len(),
            forall|l: int|
                0 <= l < pots_of_updated@.len() ==> old(resource_pot_map).has_pot(
                    (#[trigger] pots_of_updated@[l])@,
                ),
        decreases pots_of_updated@.len() - j,
    {
        proof {
            let x = pots_of_updated@[j as int]@;
            let w = old(resource_pot_map).pot_idx(x);
            assert(old(resource_pot_map).pots@[w].id@ == x);
            assert(resource_pot_map.pots@[w].id@ == x);
            assert(resource_pot_map.has_pot(x));
        }
        let ghost prev_pm = *resource_pot_map;
        resource_pot_map.clear_pot_resources(&pots_of_updated[j]);
        proof {
            let pj = pots_of_updated@[j as int]@;
            let idx = prev_pm.pot_idx(pj);
            assert forall|l: int|
                0 <= l < j + 1 implies resource_pot_map.has_pot(
                (#[trigger] pots_of_updated@[l])@,
            ) && resource_pot_map.pot_at(pots_of_updated@[l]@).resources@.len() == 0 by {
                let x = pots_of_updated@[l]@;
                let w0 = old(resource_pot_map).pot_idx(x);
                assert(old(resource_pot_map).pots@[w0].id@ == x);
                assert(prev_pm.pots@[w0].id@ == x);
                prev_pm.lemma_pot_at_unique(x, w0);
                assert(resource_pot_map.pots@[w0].id@ == x);
                resource_pot_map.lemma_pot_at_unique(x, w0);
                if w0 == idx {
                    assert(resource_pot_map.pots@[w0].resources@.len() == 0);
                } else {
                    assert(resource_pot_map.pots@[w0] == prev_pm.pots@[w0]);
                    if l < j {
                        assert(prev_pm.pot_at(x).resources@.len() == 0);
                    } else {
                        assert(x == pj);
                        assert(prev_pm.pot_idx(pj) == w0);  // ids are distinct
                        assert(false);
                    }
                }
            }
            assert forall|p: int|
                0 <= p < old(resource_pot_map).pots@.len()
                    implies (#[trigger] resource_pot_map.pots@[p]).id@ == old(
                resource_pot_map,
            ).pots@[p].id@ by {
                if p != idx {
                    assert(resource_pot_map.pots@[p] == prev_pm.pots@[p]);
                } else {
                    assert(resource_pot_map.pots@[p].id@ == prev_pm.pot_at(pj).id@);
                    assert(prev_pm.pots@[idx].id@ == pj);
                }
            }
        }
        j += 1;
    }
    proof {
        assert forall|l: int|
            0 <= l < updated_module_ids@.len() implies !resources_map.has_res_of_pot(
            pot_of(*module_graph, (#[trigger] updated_module_ids@[l])@),
        ) && resource_pot_map.has_pot(pot_of(*module_graph, updated_module_ids@[l]@))
            && resource_pot_map.pot_at(
            pot_of(*module_graph, updated_module_ids@[l]@),
        ).resources@.len() == 0 by {
            assert(contains_str(
                pots_of_updated@,
                pot_of(*module_graph, updated_module_ids@[l]@),
            ));
            let w = choose|w: int|
                0 <= w < pots_of_updated@.len() && (#[trigger] pots_of_updated@[w])@ == pot_of(
                    *module_graph,
                    updated_module_ids@[l]@,
                );
        }
    }
    Ok(affected)
}

/// The rendered text of an update pot: what the render hook yielded, or the
/// literal empty-object text when it yielded nothing.
pub fn update_resource_content(rendered: Option<String>) -> (r: String)
    ensures
        match rendered {
            Some(c) => r == c,
            None => r@ == "{}"@,
        },
{
    match rendered {
        Some(c) => c,
        None => {
            let s = String::from_str("{}");
            s
        },
    }
}

} // verus!
