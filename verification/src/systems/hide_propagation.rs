//! Propagation of the `Hide` component to the children of hidden entities.
use vstd::prelude::*;
use crate::components::EntityId;
use crate::world::{contains_id, extend_ids, lemma_concat_contains, lemma_index_of, Components, EntityRecord, GameData};

verus! {

/// The entity `r` is hidden and lists `x` among its children.
pub open spec fn lists_hidden_child(r: EntityRecord, x: EntityId) -> bool {
    &&& r.components.hide
    &&& r.components.children is Some
    &&& r.components.children.unwrap()@.contains(x)
}

/// Some entity of `es` is hidden and lists `x` among its children.
pub open spec fn has_hidden_parent(es: Seq<EntityRecord>, x: EntityId) -> bool {
    exists|i: int| 0 <= i < es.len() && #[trigger] lists_hidden_child(es[i], x)
}

/// The children of the hidden entities are alive.
pub open spec fn hidden_children_alive(d: &GameData) -> bool {
    forall|i: int, x: EntityId|
        0 <= i < d.entities@.len() && #[trigger] lists_hidden_child(d.entities@[i], x) ==> d.has(x)
}

/// System responsible to add a `HidePropagated` component to each child of
/// entities that have an `Hide` component.
pub fn hide_propagation_system(world: &mut GameData)
    requires
        old(world).wf(),
        hidden_children_alive(old(world)),
    ensures
        final(world).wf(),
        final(world).next_id == old(world).next_id,
        final(world).resources == old(world).resources,
        final(world).entities@.len() == old(world).entities@.len(),
        forall|k: int|
            0 <= k < old(world).entities@.len() ==> #[trigger] final(world).entities@[k] == (
            EntityRecord {
                id: old(world).entities@[k].id,
                components: Components {
                    hide_propagated: old(world).entities@[k].components.hide_propagated
                        || has_hidden_parent(old(world).entities@, old(world).entities@[k].id),
                    ..old(world).entities@[k].components
                },
            }),
{
    let ghost es = world.entities@;
    let mut to_add: Vec<EntityId> = Vec::new();
    let n = world.entities.len();
    let mut i: usize = 0;
    while i < n
        invariant
            n == es.len(),
            world.entities@ == es,
            i <= n,
            forall|x: EntityId|
                to_add@.contains(x) <==> exists|j: int|
                    0 <= j < i && #[trigger] lists_hidden_child(es[j], x),
        decreases n - i,
    {
        let ghost before = to_add@;
        if world.entities[i].components.hide {
            match &world.entities[i].components.children {
                Some(children) => {
                    extend_ids(&mut to_add, children);
                },
                None => {},
            }
        }
        proof {
            assert forall|x: EntityId|
                to_add@.contains(x) <==> exists|j: int|
                    0 <= j < i + 1 && #[trigger] lists_hidden_child(es[j], x) by {
                if es[i as int].components.hide && es[i as int].components.children is Some {
                    lemma_concat_contains(before, es[i as int].components.children.unwrap()@, x);
                }
                if to_add@.contains(x) && !before.contains(x) {
                    assert(lists_hidden_child(es[i as int], x));
                }
                if exists|j: int| 0 <= j < i + 1 && #[trigger] lists_hidden_child(es[j], x) {
                    let j = choose|j: int| 0 <= j < i + 1 && #[trigger] lists_hidden_child(es[j], x);
                    if j < i {
                        assert(before.contains(x));
                    }
                }
            }
        }
        i = i + 1;
    }
    let mut k: usize = 0;
    while k < n
        invariant
            n == es.len(),
            world.entities@.len() == n,
            k <= n,
            forall|x: EntityId| to_add@.contains(x) <==> has_hidden_parent(es, x),
            forall|m: int|
                0 <= m < k ==> #[trigger] world.entities@[m] == (EntityRecord {
                    id: es[m].id,
                    components: Components {
                        hide_propagated: es[m].components.hide_propagated || has_hidden_parent(es, es[m].id),
                        ..es[m].components
                    },
                }),
            forall|m: int| k <= m < n ==> #[trigger] world.entities@[m] == es[m],
            world.next_id == old(world).next_id,
            world.resources == old(world).resources,
        decreases n - k,
    {
        let id = world.entities[k].id;
        if contains_id(&to_add, id) {
            world.entities[k].components.hide_propagated = true;
        }
        k = k + 1;
    }
    proof {
        assert forall|a: int, b: int|
            0 <= a < b < world.entities@.len() implies #[trigger] world.entities@[a].id
                != #[trigger] world.entities@[b].id by {
            assert(es[a].id != es[b].id);
        }
        assert forall|a: int| 0 <= a < world.entities@.len() implies #[trigger] world.entities@[a].id
            < world.next_id by {
            assert(es[a].id < old(world).next_id);
        }
    }
}

} // verus!

verus! {

/// Whether the entity `c` keeps its propagated hiding: it is only lifted when
/// the entity has a parent that is no longer hidden.
pub open spec fn keeps_propagated_hide(d: &GameData, c: Components) -> bool {
    c.hide_propagated && !(c.parent is Some && !d.get(c.parent.unwrap()).hide)
}

/// The parents of the entities with a propagated hiding are alive.
pub open spec fn propagated_parents_alive(d: &GameData) -> bool {
    forall|k: int|
        0 <= k < d.entities@.len() && (#[trigger] d.entities@[k]).components.hide_propagated
            && d.entities@[k].components.parent is Some ==> d.has(
            d.entities@[k].components.parent.unwrap(),
        )
}

/// System responsible to remove all the `HidePropagated` components when the
/// parent is no longer hidden.
pub fn hide_propagated_deletion_system(world: &mut GameData)
    requires
        old(world).wf(),
        propagated_parents_alive(old(world)),
    ensures
        final(world).wf(),
        final(world).next_id == old(world).next_id,
        final(world).resources == old(world).resources,
        final(world).entities@.len() == old(world).entities@.len(),
        forall|k: int|
            0 <= k < old(world).entities@.len() ==> #[trigger] final(world).entities@[k] == (
            EntityRecord {
                id: old(world).entities@[k].id,
                components: Components {
                    hide_propagated: keeps_propagated_hide(
                        old(world),
                        old(world).entities@[k].components,
                    ),
                    ..old(world).entities@[k].components
                },
            }),
{
    let ghost d0 = *world;
    let ghost es = world.entities@;
    let n = world.entities.len();
    let mut k: usize = 0;
    while k < n
        invariant
            n == es.len(),
            d0.entities@ == es,
            d0.wf(),
            propagated_parents_alive(&d0),
            world.entities@.len() == n,
            k <= n,
            forall|m: int|
                0 <= m < k ==> #[trigger] world.entities@[m] == (EntityRecord {
                    id: es[m].id,
                    components: Components {
                        hide_propagated: keeps_propagated_hide(&d0, es[m].components),
                        ..es[m].components
                    },
                }),
            forall|m: int| k <= m < n ==> #[trigger] world.entities@[m] == es[m],
            world.next_id == d0.next_id,
            world.resources == d0.resources,
        decreases n - k,
    {
        if world.entities[k].components.hide_propagated {
            match world.entities[k].components.parent {
                Some(p) => {
                    let j = world.find(p);
                    proof {
                        assert(d0.has(p));
                    }
                    match j {
                        Some(j) => {
                            proof {
                                lemma_index_of(&d0, p, j as int);
                                assert(world.entities@[j as int].components.hide == es[j as int].components.hide);
                            }
                            if !world.entities[j].components.hide {
                                world.entities[k].components.hide_propagated = false;
                            }
                        },
                        None => {
                            proof {
                                let q = choose|q: int| 0 <= q < es.len() && #[trigger] es[q].id == p;
                                assert(world.entities@[q].id == p);
                            }
                        },
                    }
                },
                None => {},
            }
        }
        k = k + 1;
    }
    proof {
        assert forall|a: int, b: int|
            0 <= a < b < world.entities@.len() implies #[trigger] world.entities@[a].id
                != #[trigger] world.entities@[b].id by {
            assert(es[a].id != es[b].id);
        }
        assert forall|a: int| 0 <= a < world.entities@.len() implies #[trigger] world.entities@[a].id
            < world.next_id by {
            assert(es[a].id < d0.next_id);
        }
    }
}

/// What the deletion of propagated hiding does to an entity, stated over the
/// entities themselves: an entity whose parent `j` is still hidden keeps its
/// propagated hiding; one whose parent is shown again loses it; one without a
/// parent keeps it. `d1` is the game once `hide_propagated_deletion_system` ran
/// on `d0`.
pub proof fn law_hiding_lifted_only_under_shown_parents(d0: GameData, d1: GameData, k: int, j: int)
    requires
        d0.wf(),
        d1.entities@.len() == d0.entities@.len(),
        forall|x: int|
            0 <= x < d0.entities@.len() ==> #[trigger] d1.entities@[x] == (EntityRecord {
                id: d0.entities@[x].id,
                components: Components {
                    hide_propagated: keeps_propagated_hide(&d0, d0.entities@[x].components),
                    ..d0.entities@[x].components
                },
            }),
        0 <= k < d0.entities@.len(),
        0 <= j < d0.entities@.len(),
    ensures
        d0.entities@[k].components.parent == Some(d0.entities@[j].id) && d0.entities@[j].components.hide
            ==> d1.entities@[k].components.hide_propagated == d0.entities@[k].components.hide_propagated,
        d0.entities@[k].components.parent == Some(d0.entities@[j].id) && !d0.entities@[j].components.hide
            ==> !d1.entities@[k].components.hide_propagated,
        d0.entities@[k].components.parent is None ==> d1.entities@[k].components.hide_propagated
            == d0.entities@[k].components.hide_propagated,
        d1.entities@[k].components.hide_propagated ==> d0.entities@[k].components.hide_propagated,
{
    lemma_index_of(&d0, d0.entities@[j].id, j);
    assert(d1.entities@[k] == d1.entities@[k]);
}

} // verus!
