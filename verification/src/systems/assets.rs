//! Materials given by reference to the asset manager.
use vstd::prelude::*;
use crate::components::{EntityId, Material};
use crate::systems::animation::opt_material_view;
use crate::world::{Components, EntityRecord, GameData};

verus! {

/// Every material reference of `es` is a material of `materials`.
pub open spec fn material_refs_known(es: Seq<EntityRecord>, materials: Seq<Material>) -> bool {
    forall|k: int|
        0 <= k < es.len() && (#[trigger] es[k]).components.material_ref is Some ==> es[k].components.material_ref.unwrap()
            < materials.len()
}

/// The entity `e1` is `e0` once its material reference was resolved: an entity
/// with a reference and no material gets the material referenced.
pub open spec fn material_resolved(materials: Seq<Material>, e0: EntityRecord, e1: EntityRecord) -> bool {
    &&& e1.id == e0.id
    &&& e1.components == Components { material: e1.components.material, ..e0.components }
    &&& if e0.components.material_ref is Some && e0.components.material is None {
        opt_material_view(e1.components.material) == Some(materials[e0.components.material_ref.unwrap() as int]@)
    } else {
        e1.components.material == e0.components.material
    }
}

/// System responsible to give each entity with a material reference and no
/// material the material referenced.
pub fn asset_ref_resolver_system(data: &mut GameData)
    requires
        material_refs_known(old(data).entities@, old(data).resources.assets.materials@),
    ensures
        final(data).entities@.len() == old(data).entities@.len(),
        forall|k: int|
            0 <= k < old(data).entities@.len() ==> material_resolved(
                old(data).resources.assets.materials@,
                old(data).entities@[k],
                #[trigger] final(data).entities@[k],
            ),
        final(data).next_id == old(data).next_id,
        final(data).resources == old(data).resources,
{
    let ghost es = data.entities@;
    let n = data.entities.len();
    let mut k: usize = 0;
    while k < n
        invariant
            n == es.len(),
            data.entities@.len() == n,
            k <= n,
            material_refs_known(es, data.resources.assets.materials@),
            forall|i: int| 0 <= i < k ==> material_resolved(data.resources.assets.materials@, es[i], #[trigger] data.entities@[i]),
            forall|i: int| k <= i < n ==> #[trigger] data.entities@[i] == es[i],
            data.next_id == old(data).next_id,
            data.resources == old(data).resources,
        decreases n - k,
    {
        let ghost before = data.entities@;
        if data.entities[k].components.material.is_none() {
            match data.entities[k].components.material_ref {
                Some(r) => {
                    assert(es[k as int].components.material_ref is Some);
                    let m = data.resources.assets.get_material_for_ref(r);
                    data.entities[k].components.material = Some(m);
                },
                None => {},
            }
        }
        proof {
            assert forall|i: int| 0 <= i < n && i != k implies #[trigger] data.entities@[i] == before[i] by {}
        }
        k = k + 1;
    }
}

/// The material reference of the entity `x` once the materials `changes` asked
/// for, in order, were given to the first child of each button, and whether its
/// material was replaced: a child whose reference differs, or that has none, gets
/// the reference and the material it names.
pub open spec fn material_after_changes(
    changes: Seq<(EntityId, usize, Seq<EntityId>)>,
    x: EntityRecord,
) -> (Option<usize>, bool)
    decreases changes.len(),
{
    if changes.len() == 0 {
        (x.components.material_ref, false)
    } else {
        let (prev, replaced) = material_after_changes(changes.drop_last(), x);
        let (_, r, children) = changes.last();
        if children[0] == x.id && prev != Some(r) {
            (Some(r), true)
        } else {
            (prev, replaced)
        }
    }
}

/// Gives the materials `changes` asks for to the first child of each button: the
/// button, the reference of its new material, and its children.
pub fn change_button_material(data: &mut GameData, changes: &Vec<(EntityId, usize, Vec<EntityId>)>)
    requires
        old(data).wf(),
        forall|i: int|
            0 <= i < changes@.len() ==> (#[trigger] changes@[i]).2@.len() > 0 && changes@[i].1
                < old(data).resources.assets.materials@.len(),
    ensures
        final(data).entities@.len() == old(data).entities@.len(),
        forall|k: int|
            0 <= k < old(data).entities@.len() ==> {
                let e0 = old(data).entities@[k];
                let e1 = #[trigger] final(data).entities@[k];
                let (r, replaced) = material_after_changes(
                    changes@.map_values(|c: (EntityId, usize, Vec<EntityId>)| (c.0, c.1, c.2@)),
                    e0,
                );
                &&& e1.id == e0.id
                &&& e1.components == Components {
                    material: e1.components.material,
                    material_ref: e1.components.material_ref,
                    ..e0.components
                }
                &&& e1.components.material_ref == r
                &&& (replaced ==> opt_material_view(e1.components.material) == Some(
                    old(data).resources.assets.materials@[r.unwrap() as int]@,
                ))
                &&& (!replaced ==> e1.components.material == e0.components.material)
            },
        final(data).next_id == old(data).next_id,
        final(data).resources == old(data).resources,
{
    let ghost es = data.entities@;
    let ghost d0 = *data;
    let ghost cs = changes@.map_values(|c: (EntityId, usize, Vec<EntityId>)| (c.0, c.1, c.2@));
    let ghost materials = data.resources.assets.materials@;
    let mut i: usize = 0;
    while i < changes.len()
        invariant
            i <= changes@.len(),
            cs == changes@.map_values(|c: (EntityId, usize, Vec<EntityId>)| (c.0, c.1, c.2@)),
            materials == data.resources.assets.materials@,
            d0.wf(),
            d0.entities@ == es,
            forall|j: int| 0 <= j < changes@.len() ==> (#[trigger] changes@[j]).2@.len() > 0 && changes@[j].1 < materials.len(),
            data.entities@.len() == es.len(),
            forall|k: int|
                0 <= k < es.len() ==> {
                    let e0 = es[k];
                    let e1 = #[trigger] data.entities@[k];
                    let (r, replaced) = material_after_changes(cs.subrange(0, i as int), e0);
                    &&& e1.id == e0.id
                    &&& e1.components == Components {
                        material: e1.components.material,
                        material_ref: e1.components.material_ref,
                        ..e0.components
                    }
                    &&& e1.components.material_ref == r
                    &&& (replaced ==> opt_material_view(e1.components.material) == Some(materials[r.unwrap() as int]@))
                    &&& (!replaced ==> e1.components.material == e0.components.material)
                },
            data.next_id == d0.next_id,
            data.resources == d0.resources,
        decreases changes.len() - i,
    {
        let ghost before = data.entities@;
        assert(cs.subrange(0, i + 1).drop_last() == cs.subrange(0, i as int));
        assert(cs.subrange(0, i + 1).last() == cs[i as int]);
        let child = changes[i].2[0];
        let asset_ref = changes[i].1;
        assert(cs[i as int] == (changes@[i as int].0, asset_ref, changes@[i as int].2@));
        match data.find(child) {
            Some(k) => {
                let differs = match data.entities[k].components.material_ref {
                    Some(r) => r != asset_ref,
                    None => true,
                };
                if differs {
                    let m = data.resources.assets.get_material_for_ref(asset_ref);
                    data.entities[k].components.material = Some(m);
                    data.entities[k].components.material_ref = Some(asset_ref);
                }
                proof {
                    assert forall|j: int| 0 <= j < es.len() && j != k implies es[j].id != child by {
                        if es[j].id == child {
                            crate::world::lemma_index_of(&d0, child, k as int);
                            crate::world::lemma_index_of(&d0, child, j);
                        }
                    }
                    assert forall|j: int| 0 <= j < es.len() && j != k implies #[trigger] data.entities@[j] == before[j] by {}
                }
            },
            None => {
                proof {
                    assert forall|j: int| 0 <= j < es.len() implies es[j].id != child by {
                        assert(before[j].id == es[j].id);
                    }
                }
            },
        }
        i = i + 1;
    }
    assert(cs.subrange(0, changes@.len() as int) == cs);
}

} // verus!
