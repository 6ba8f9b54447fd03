//! HMR update-payload assembly: two transient pots built from only the
//! changed modules, rendered and delivered to a running client.

use vstd::prelude::*;
use vstd::string::StringExecFns;

use crate::graph::ModuleGraph;
use crate::ids::{IdRepr, ModuleId};
use crate::pot::{pot_owns, ResourcePot, ResourcePotType};
use crate::regenerate::StructuralError;

verus! {

/// `x` is the id of a module in `ids` that belongs in an update pot: it
/// exists, is not external, and its immutability matches `imm`.
pub open spec fn update_member_of(g: ModuleGraph, ids: Seq<ModuleId>, x: IdRepr, imm: bool) -> bool {
    (exists|k: int| 0 <= k < ids.len() && (#[trigger] ids[k])@ == x) && g.has_mod(x) && !g.mod_at(
        x,
    ).external && g.mod_at(x).immutable == imm
}

/// Build the two transient update pots from the changed modules: every
/// added module, then every updated one, lands in the immutable pot if it
/// is immutable and in the mutable pot otherwise; external modules are
/// skipped. Neither the graph nor any persistent pot is touched: the pots
/// returned are scratch objects for the update renderer. A module id with
/// no module behind it is a broken invariant and is reported instead.
#[verifier::rlimit(60)]
pub fn render_and_generate_update_resource(
    updated_module_ids: &Vec<ModuleId>,
    diff_result: &crate::diff::DiffResult,
    module_graph: &ModuleGraph,
) -> (r: Result<(ResourcePot, ResourcePot), StructuralError>)
    requires
        module_graph.wf(),
        diff_result.added_modules@.len() + updated_module_ids@.len() <= usize::MAX,
    ensures
        r is Ok <==> (forall|k: int|
            0 <= k < diff_result.added_modules@.len() ==> module_graph.has_mod(
                (#[trigger] diff_result.added_modules@[k])@,
            )) && (forall|k: int|
            0 <= k < updated_module_ids@.len() ==> module_graph.has_mod(
                (#[trigger] updated_module_ids@[k])@,
            )),
        r matches Ok((im, mu)) ==> {
            &&& im.immutable && !mu.immutable
            &&& im.pot_type is Js && mu.pot_type is Js
            &&& im.resources@.len() == 0 && mu.resources@.len() == 0
            &&& forall|x: IdRepr|
                #[trigger] pot_owns(im, x) <==> update_member_of(
                    *module_graph,
                    diff_result.added_modules@ + updated_module_ids@,
                    x,
                    true,
                )
            &&& forall|x: IdRepr|
                #[trigger] pot_owns(mu, x) <==> update_member_of(
                    *module_graph,
                    diff_result.added_modules@ + updated_module_ids@,
                    x,
                    false,
                )
        },
{
    let mut immutable_update_resource_pot = ResourcePot::new(
        String::from_str("__IMMUTABLE_UPDATE_RESOURCE_POT__"),
        ResourcePotType::Js,
    );
    immutable_update_resource_pot.immutable = true;
    let mut mutable_update_resource_pot = ResourcePot::new(
        String::from_str("__MUTABLE_UPDATE_RESOURCE_POT__"),
        ResourcePotType::Js,
    );
    let ghost all = diff_result.added_modules@ + updated_module_ids@;
    let na = diff_result.added_modules.len();
    let total = na + updated_module_ids.len();
    let mut k: usize = 0;
    while k < total
        invariant
            total == all.len(),
            module_graph.wf(),
            na == diff_result.added_modules@.len(),
            all == diff_result.added_modules@ + updated_module_ids@,
            all.len() == na + updated_module_ids@.len(),
            k <= all.len(),
            forall|l: int| 0 <= l < k ==> module_graph.has_mod((#[trigger] all[l])@),
            immutable_update_resource_pot.immutable,
            !mutable_update_resource_pot.immutable,
            immutable_update_resource_pot.pot_type is Js,
            mutable_update_resource_pot.pot_type is Js,
            immutable_update_resource_pot.resources@.len() == 0,
            mutable_update_resource_pot.resources@.len() == 0,
            forall|x: IdRepr|
                #[trigger] pot_owns(immutable_update_resource_pot, x) <==> update_member_of(
                    *module_graph,
                    all.take(k as int),
                    x,
                    true,
                ),
            forall|x: IdRepr|
                #[trigger] pot_owns(mutable_update_resource_pot, x) <==> update_member_of(
                    *module_graph,
                    all.take(k as int),
                    x,
                    false,
                ),
        decreases all.len() - k,
    {
        let id = if k < na {
            &diff_result.added_modules[k]
        } else {
            &updated_module_ids[k - na]
        };
        proof {
            assert(all[k as int] == *id);
        }
        let module = match module_graph.module(id) {
            Some(m) => m,
            None => {
                proof {
                    assert(!module_graph.has_mod(all[k as int]@));
                    if k < na {
                        assert(diff_result.added_modules@[k as int] == all[k as int]);
                    } else {
                        assert(updated_module_ids@[k as int - na] == all[k as int]);
                    }
                }
                return Err(StructuralError::MissingModule(id.clone()));
            },
        };
        let ghost im_pre = immutable_update_resource_pot;
        let ghost mu_pre = mutable_update_resource_pot;
        if !module.external {
            if module.immutable {
                immutable_update_resource_pot.add_module(id.clone());
            } else {
                mutable_update_resource_pot.add_module(id.clone());
            }
        }
        proof {
            assert(all.take(k + 1) == all.take(k as int).push(all[k as int]));
            assert forall|x: IdRepr|
                #[trigger] pot_owns(immutable_update_resource_pot, x) <==> update_member_of(
                    *module_graph,
                    all.take(k + 1),
                    x,
                    true,
                ) by {
                lemma_member_step(*module_graph, all.take(k as int), all[k as int], x, true);
                lemma_owns_step(im_pre, immutable_update_resource_pot, x);
            }
            assert forall|x: IdRepr|
                #[trigger] pot_owns(mutable_update_resource_pot, x) <==> update_member_of(
                    *module_graph,
                    all.take(k + 1),
                    x,
                    false,
                ) by {
                lemma_member_step(*module_graph, all.take(k as int), all[k as int], x, false);
                lemma_owns_step(mu_pre, mutable_update_resource_pot, x);
            }
        }
        k += 1;
    }
    proof {
        assert(all.take(all.len() as int) == all);
        assert forall|l: int|
            0 <= l < diff_result.added_modules@.len() implies module_graph.has_mod(
            (#[trigger] diff_result.added_modules@[l])@,
        ) by {
            assert(all[l] == diff_result.added_modules@[l]);
        }
        assert forall|l: int|
            0 <= l < updated_module_ids@.len() implies module_graph.has_mod(
            (#[trigger] updated_module_ids@[l])@,
        ) by {
            assert(all[l + na] == updated_module_ids@[l]);
        }
    }
    Ok((immutable_update_resource_pot, mutable_update_resource_pot))
}

/// How update-pot membership in a list grows when one id is appended.
proof fn lemma_member_step(g: ModuleGraph, ids: Seq<ModuleId>, nid: ModuleId, x: IdRepr, imm: bool)
    ensures
        update_member_of(g, ids.push(nid), x, imm) <==> update_member_of(g, ids, x, imm) || (nid@
            == x && g.has_mod(x) && !g.mod_at(x).external && g.mod_at(x).immutable == imm),
{
    if update_member_of(g, ids.push(nid), x, imm) {
        let k = choose|k: int| 0 <= k < ids.push(nid).len() && (#[trigger] ids.push(nid)[k])@ == x;
        if k < ids.len() {
            assert(ids[k]@ == x);
        } else {
            assert(ids.push(nid)[k] == nid);
        }
    }
    if update_member_of(g, ids, x, imm) {
        let k = choose|k: int| 0 <= k < ids.len() && (#[trigger] ids[k])@ == x;
        assert(ids.push(nid)[k]@ == x);
    }
    if nid@ == x {
        assert(ids.push(nid)[ids.len() as int]@ == x);
    }
}

/// How pot membership grows when one module is appended (or none).
proof fn lemma_owns_step(pre: ResourcePot, post: ResourcePot, x: IdRepr)
    requires
        post.modules@ == pre.modules@ || exists|m: ModuleId| post.modules@ == pre.modules@.push(m),
    ensures
        post.modules@ == pre.modules@ ==> (pot_owns(post, x) <==> pot_owns(pre, x)),
        forall|m: ModuleId|
            post.modules@ == pre.modules@.push(m) ==> (pot_owns(post, x) <==> pot_owns(pre, x)
                || m@ == x),
{
    assert forall|m: ModuleId|
        post.modules@ == pre.modules@.push(m) implies (pot_owns(post, x) <==> pot_owns(pre, x)
        || m@ == x) by {
        if pot_owns(post, x) {
            let k = choose|k: int|
                0 <= k < post.modules@.len() && (#[trigger] post.modules@[k])@ == x;
            if k < pre.modules@.len() {
                assert(pre.modules@[k]@ == x);
            } else {
                assert(post.modules@[k] == m);
            }
        }
        if pot_owns(pre, x) {
            let k = choose|k: int|
                0 <= k < pre.modules@.len() && (#[trigger] pre.modules@[k])@ == x;
            assert(post.modules@[k]@ == x);
        }
        if m@ == x {
            assert(post.modules@[pre.modules@.len() as int]@ == x);
        }
    }
}

} // verus!
