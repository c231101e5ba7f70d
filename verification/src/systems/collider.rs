//! Colliders: their collisions, and their outlines in debug mode.
use vstd::prelude::*;
use crate::components::{copy_mask, fresh_transform, same_mask, Collider, ColliderMask, Collision, Color, EntityId, MaskView, Material, Transform, OPAQUE_ALPHA_BITS};
use crate::inputs::{Input, KeyCode};
use crate::world::{appended, flag_value, lemma_set_flag_others, Components, EntityRecord, GameData};

verus! {

/// The entities `es` with the identifiers of `ids` taken out, in order.
pub open spec fn without_ids(es: Seq<EntityRecord>, ids: Seq<EntityId>) -> Seq<EntityRecord>
    decreases es.len(),
{
    if es.len() == 0 {
        Seq::empty()
    } else {
        let prev = without_ids(es.drop_last(), ids);
        if ids.contains(es.last().id) {
            prev
        } else {
            prev.push(es.last())
        }
    }
}

/// Identifiers of `es` are pairwise distinct.
pub open spec fn distinct_ids(es: Seq<EntityRecord>) -> bool {
    forall|a: int, b: int| 0 <= a < b < es.len() ==> #[trigger] es[a].id != #[trigger] es[b].id
}

/// Every entity left has an identifier of `es` not in `ids`.
pub proof fn lemma_without_ids_from(es: Seq<EntityRecord>, ids: Seq<EntityId>)
    ensures
        forall|k: int|
            0 <= k < without_ids(es, ids).len() ==> exists|j: int|
                0 <= j < es.len() && #[trigger] es[j] == #[trigger] without_ids(es, ids)[k],
    decreases es.len(),
{
    if es.len() > 0 {
        lemma_without_ids_from(es.drop_last(), ids);
        let prev = without_ids(es.drop_last(), ids);
        let t = without_ids(es, ids);
        assert forall|k: int| 0 <= k < t.len() implies exists|j: int| 0 <= j < es.len() && #[trigger] es[j] == #[trigger] t[k] by {
            if k < prev.len() {
                assert(t[k] == prev[k]);
                let j = choose|j: int| 0 <= j < es.drop_last().len() && #[trigger] es.drop_last()[j] == #[trigger] prev[k];
                assert(es[j] == es.drop_last()[j]);
            } else {
                assert(es[es.len() - 1] == t[k]);
            }
        }
    }
}

/// Taking out no identifier keeps every entity.
proof fn lemma_without_nothing(es: Seq<EntityRecord>)
    ensures
        without_ids(es, Seq::empty()) == es,
    decreases es.len(),
{
    if es.len() > 0 {
        lemma_without_nothing(es.drop_last());
        assert(es.drop_last().push(es.last()) == es);
    }
}

/// Taking out an identifier no entity left has changes nothing.
proof fn lemma_without_absent_left(es: Seq<EntityRecord>, ids: Seq<EntityId>, x: EntityId)
    requires
        forall|k: int| 0 <= k < without_ids(es, ids).len() ==> #[trigger] without_ids(es, ids)[k].id != x,
    ensures
        without_ids(es, ids.push(x)) == without_ids(es, ids),
    decreases es.len(),
{
    if es.len() > 0 {
        let init = es.drop_last();
        let last = es.last();
        let prev = without_ids(init, ids);
        let t = without_ids(es, ids);
        vstd::seq_lib::lemma_seq_contains_after_push(ids, x, last.id);
        if ids.contains(last.id) {
            assert(t == prev);
            lemma_without_absent_left(init, ids, x);
        } else {
            assert(t == prev.push(last));
            assert(t[prev.len() as int] == last);
            assert(last.id != x);
            assert forall|k: int| 0 <= k < prev.len() implies #[trigger] prev[k].id != x by {
                assert(t[k] == prev[k]);
            }
            lemma_without_absent_left(init, ids, x);
        }
    }
}

/// Removing the entity left at `k`, whose identifier is `x`, is taking `x` out too.
proof fn lemma_without_present(es: Seq<EntityRecord>, ids: Seq<EntityId>, x: EntityId, k: int)
    requires
        distinct_ids(es),
        0 <= k < without_ids(es, ids).len(),
        without_ids(es, ids)[k].id == x,
    ensures
        without_ids(es, ids.push(x)) == without_ids(es, ids).remove(k),
    decreases es.len(),
{
    let init = es.drop_last();
    let last = es.last();
    assert(distinct_ids(init)) by {
        assert forall|a: int, b: int| 0 <= a < b < init.len() implies #[trigger] init[a].id != #[trigger] init[b].id by {
            assert(es[a].id != es[b].id);
        }
    }
    lemma_without_ids_from(init, ids);
    vstd::seq_lib::lemma_seq_contains_after_push(ids, x, last.id);
    let prev = without_ids(init, ids);
    let t = without_ids(es, ids);
    if ids.contains(last.id) {
        assert(t == prev);
        lemma_without_present(init, ids, x, k);
    } else if last.id == x {
        assert(t == prev.push(last));
        assert forall|i: int| 0 <= i < prev.len() implies #[trigger] prev[i].id != x by {
            let j = choose|j: int| 0 <= j < init.len() && #[trigger] init[j] == #[trigger] prev[i];
            assert(es[j].id != es[es.len() - 1].id);
        }
        if k < prev.len() {
            assert(t[k] == prev[k]);
        }
        assert(k == prev.len());
        lemma_without_absent_left(init, ids, x);
        assert(t.remove(k) =~= prev);
    } else {
        assert(t == prev.push(last));
        assert(k < prev.len());
        assert(t[k] == prev[k]);
        lemma_without_present(init, ids, x, k);
        assert(t.remove(k) =~= prev.remove(k).push(last));
    }
}

/// Removes the entities whose identifiers `ids` lists.
pub(crate) fn remove_entities(data: &mut GameData, ids: &Vec<EntityId>)
    requires
        old(data).wf(),
    ensures
        final(data).wf(),
        final(data).entities@ == without_ids(old(data).entities@, ids@),
        final(data).next_id == old(data).next_id,
        final(data).resources == old(data).resources,
{
    let ghost es = data.entities@;
    proof {
        lemma_without_nothing(es);
        assert(distinct_ids(es));
        assert(ids@.subrange(0, 0) =~= Seq::<EntityId>::empty());
    }
    let mut i: usize = 0;
    while i < ids.len()
        invariant
            i <= ids@.len(),
            data.wf(),
            distinct_ids(es),
            data.entities@ == without_ids(es, ids@.subrange(0, i as int)),
            data.next_id == old(data).next_id,
            data.resources == old(data).resources,
        decreases ids.len() - i,
    {
        let ghost d_before = *data;
        let ghost before = data.entities@;
        let x = ids[i];
        assert(ids@.subrange(0, i + 1) == ids@.subrange(0, i as int).push(x));
        let removed = data.remove(x);
        proof {
            if removed {
                let k = d_before.index_of(x);
                assert(before[k].id == x);
                lemma_without_present(es, ids@.subrange(0, i as int), x, k);
            } else {
                assert forall|k: int| 0 <= k < before.len() implies #[trigger] before[k].id != x by {
                    if before[k].id == x {
                        assert(d_before.has(x));
                    }
                }
                lemma_without_absent_left(es, ids@.subrange(0, i as int), x);
            }
        }
        i = i + 1;
    }
    assert(ids@.subrange(0, ids@.len() as int) == ids@);
}

/// `c1` is the collider `c0` without its collisions.
pub open spec fn collisions_cleared(c0: Option<Collider>, c1: Option<Collider>) -> bool {
    match c0 {
        Some(c) => c1 is Some && c1.unwrap() == (Collider { collisions: c1.unwrap().collisions, ..c })
            && c1.unwrap().collisions@.len() == 0,
        None => c1 is None,
    }
}

/// System responsible of clearing the collisions of every collider.
pub fn collider_cleaner_system(data: &mut GameData)
    ensures
        final(data).entities@.len() == old(data).entities@.len(),
        forall|k: int|
            0 <= k < old(data).entities@.len() ==> {
                &&& (#[trigger] final(data).entities@[k]).id == old(data).entities@[k].id
                &&& final(data).entities@[k].components == Components {
                    collider: final(data).entities@[k].components.collider,
                    ..old(data).entities@[k].components
                }
                &&& collisions_cleared(old(data).entities@[k].components.collider, final(data).entities@[k].components.collider)
            },
        final(data).next_id == old(data).next_id,
        final(data).resources == old(data).resources,
{
    let ghost es = data.entities@;
    let n = data.entities.len();
    let mut k: usize = 0;
    while k < n
        invariant
            n == es.len(),
            data.entities@.len() == n,
            k <= n,
            forall|i: int|
                0 <= i < k ==> {
                    &&& (#[trigger] data.entities@[i]).id == es[i].id
                    &&& data.entities@[i].components == Components { collider: data.entities@[i].components.collider, ..es[i].components }
                    &&& collisions_cleared(es[i].components.collider, data.entities@[i].components.collider)
                },
            forall|i: int| k <= i < n ==> #[trigger] data.entities@[i] == es[i],
            data.next_id == old(data).next_id,
            data.resources == old(data).resources,
        decreases n - k,
    {
        let ghost before = data.entities@;
        let mut slot: Option<Collider> = None;
        std::mem::swap(&mut slot, &mut data.entities[k].components.collider);
        match slot {
            Some(mut c) => {
                c.clear_collisions();
                data.entities[k].components.collider = Some(c);
            },
            None => {},
        }
        proof {
            assert forall|i: int| 0 <= i < n && i != k implies #[trigger] data.entities@[i] == before[i] by {}
        }
        k = k + 1;
    }
}

/// The entity with the components `c` takes part in collisions: it has a
/// collider, placed on the screen.
pub open spec fn in_collisions(c: Components) -> bool {
    c.transform is Some && c.collider is Some
}

/// The collisions, as the mask met and the entity that met it.
pub open spec fn collisions_view(cs: Seq<Collision>) -> Seq<(MaskView, EntityId)> {
    Seq::new(cs.len(), |i: int| (cs[i].mask@, cs[i].entity))
}

/// The masks `fs`, custom ones taken by their names.
pub open spec fn masks_view(fs: Seq<ColliderMask>) -> Seq<MaskView> {
    Seq::new(fs.len(), |i: int| fs[i]@)
}

/// The collisions the collider of `id` has with the colliders of `es` of group
/// `f`, in order; `overlaps` lists the pairs of colliders whose shapes meet.
pub open spec fn mask_hits(es: Seq<EntityRecord>, id: EntityId, f: MaskView, overlaps: Seq<(EntityId, EntityId)>) -> Seq<
    (MaskView, EntityId),
>
    decreases es.len(),
{
    if es.len() == 0 {
        Seq::empty()
    } else {
        let prev = mask_hits(es.drop_last(), id, f, overlaps);
        let r = es.last();
        if in_collisions(r.components) && r.components.collider.unwrap().mask@ == f && overlaps.contains((id, r.id)) {
            prev.push((f, id))
        } else {
            prev
        }
    }
}

/// The collisions the collider of `id` has with the colliders of `es` of the
/// groups `fs` it filters, group after group.
pub open spec fn filter_hits(es: Seq<EntityRecord>, id: EntityId, fs: Seq<MaskView>, overlaps: Seq<(EntityId, EntityId)>) -> Seq<
    (MaskView, EntityId),
>
    decreases fs.len(),
{
    if fs.len() == 0 {
        Seq::empty()
    } else {
        filter_hits(es, id, fs.drop_last(), overlaps) + mask_hits(es, id, fs.last(), overlaps)
    }
}

/// The collisions the entity `r` of `es` finds in this frame.
pub open spec fn hits_of(es: Seq<EntityRecord>, r: EntityRecord, overlaps: Seq<(EntityId, EntityId)>) -> Seq<
    (MaskView, EntityId),
> {
    if in_collisions(r.components) {
        filter_hits(es, r.id, masks_view(r.components.collider.unwrap().filters@), overlaps)
    } else {
        Seq::empty()
    }
}

/// Every collision a collider finds with the colliders of a group names the
/// collider itself and that group.
proof fn lemma_mask_hits_name(es: Seq<EntityRecord>, id: EntityId, f: MaskView, overlaps: Seq<(EntityId, EntityId)>, j: int)
    requires
        0 <= j < mask_hits(es, id, f, overlaps).len(),
    ensures
        mask_hits(es, id, f, overlaps)[j] == (f, id),
    decreases es.len(),
{
    let prev = mask_hits(es.drop_last(), id, f, overlaps);
    if j < prev.len() {
        lemma_mask_hits_name(es.drop_last(), id, f, overlaps, j);
    }
}

/// Every collision a collider finds names the collider itself, and a group the
/// collider filters.
pub proof fn law_collisions_follow_filters(
    es: Seq<EntityRecord>,
    id: EntityId,
    fs: Seq<MaskView>,
    overlaps: Seq<(EntityId, EntityId)>,
    j: int,
)
    requires
        0 <= j < filter_hits(es, id, fs, overlaps).len(),
    ensures
        filter_hits(es, id, fs, overlaps)[j].1 == id,
        fs.contains(filter_hits(es, id, fs, overlaps)[j].0),
    decreases fs.len(),
{
    let init = fs.drop_last();
    let a = filter_hits(es, id, init, overlaps);
    let b = mask_hits(es, id, fs.last(), overlaps);
    if j < a.len() {
        law_collisions_follow_filters(es, id, init, overlaps, j);
        let i = choose|i: int| 0 <= i < init.len() && init[i] == a[j].0;
        assert(fs[i] == init[i]);
    } else {
        lemma_mask_hits_name(es, id, fs.last(), overlaps, j - a.len());
        assert(fs[fs.len() - 1] == fs.last());
    }
}

/// Whether `v` holds the pair `p`.
fn contains_pair(v: &Vec<(EntityId, EntityId)>, p: (EntityId, EntityId)) -> (r: bool)
    ensures
        r == v@.contains(p),
{
    let mut i: usize = 0;
    while i < v.len()
        invariant
            i <= v@.len(),
            forall|j: int| 0 <= j < i ==> v@[j] != p,
        decreases v.len() - i,
    {
        if v[i].0 == p.0 && v[i].1 == p.1 {
            return true;
        }
        i = i + 1;
    }
    false
}

/// The collisions the collider of `id`, filtering the groups `filters`, has with
/// the colliders of `data`.
fn collect_hits(data: &GameData, id: EntityId, filters: &Vec<ColliderMask>, overlaps: &Vec<(EntityId, EntityId)>) -> (hits: Vec<
    Collision,
>)
    ensures
        collisions_view(hits@) == filter_hits(data.entities@, id, masks_view(filters@), overlaps@),
{
    let ghost es = data.entities@;
    let ghost fs = masks_view(filters@);
    let mut hits: Vec<Collision> = Vec::new();
    let mut a: usize = 0;
    while a < filters.len()
        invariant
            a <= filters@.len(),
            fs == masks_view(filters@),
            es == data.entities@,
            collisions_view(hits@) == filter_hits(es, id, fs.subrange(0, a as int), overlaps@),
        decreases filters.len() - a,
    {
        assert(fs.subrange(0, a + 1).drop_last() == fs.subrange(0, a as int));
        assert(fs.subrange(0, a + 1).last() == filters@[a as int]@);
        let ghost base = collisions_view(hits@);
        let f = &filters[a];
        let mut b: usize = 0;
        while b < data.entities.len()
            invariant
                b <= es.len(),
                es == data.entities@,
                collisions_view(hits@) == base + mask_hits(es.subrange(0, b as int), id, f@, overlaps@),
            decreases data.entities.len() - b,
        {
            assert(es.subrange(0, b + 1).drop_last() == es.subrange(0, b as int));
            assert(es.subrange(0, b + 1).last() == es[b as int]);
            let ghost prev = hits@;
            let other = data.entities[b].id;
            if data.entities[b].components.transform.is_some() {
                match &data.entities[b].components.collider {
                    Some(c) => {
                        if same_mask(&c.mask, f) && contains_pair(overlaps, (id, other)) {
                            hits.push(Collision { mask: copy_mask(&c.mask), entity: id });
                            assert(collisions_view(hits@) =~= collisions_view(prev).push((f@, id)));
                        }
                    },
                    None => {},
                }
            }
            b = b + 1;
        }
        assert(es.subrange(0, es.len() as int) == es);
        a = a + 1;
    }
    assert(fs.subrange(0, filters@.len() as int) == fs);
    hits
}

/// System responsible to compute the collisions between colliders, following the
/// groups each collider filters: a placed collider collides with each placed
/// collider of a group it filters whose shape meets its own, group after group.
/// Whether two shapes meet is a matter of coordinates: `overlaps` lists the
/// pairs, the collider first, whose shapes meet.
pub fn compute_collisions_system(data: &mut GameData, overlaps: &Vec<(EntityId, EntityId)>)
    ensures
        final(data).entities@.len() == old(data).entities@.len(),
        forall|k: int|
            0 <= k < old(data).entities@.len() ==> {
                let e0 = old(data).entities@[k];
                let e1 = #[trigger] final(data).entities@[k];
                &&& e1.id == e0.id
                &&& e1.components == Components { collider: e1.components.collider, ..e0.components }
                &&& (in_collisions(e0.components) ==> {
                    let c0 = e0.components.collider.unwrap();
                    let c1 = e1.components.collider.unwrap();
                    &&& e1.components.collider is Some
                    &&& c1 == Collider { collisions: c1.collisions, ..c0 }
                    &&& collisions_view(c1.collisions@) == collisions_view(c0.collisions@) + hits_of(
                        old(data).entities@,
                        e0,
                        overlaps@,
                    )
                })
                &&& (!in_collisions(e0.components) ==> e1 == e0)
            },
        final(data).next_id == old(data).next_id,
        final(data).resources == old(data).resources,
{
    let ghost es = data.entities@;
    let n = data.entities.len();
    let mut found: Vec<Vec<Collision>> = Vec::new();
    let mut k: usize = 0;
    while k < n
        invariant
            n == es.len(),
            es == data.entities@,
            k <= n,
            found@.len() == k,
            forall|j: int| 0 <= j < k ==> collisions_view((#[trigger] found@[j])@) == hits_of(es, es[j], overlaps@),
        decreases n - k,
    {
        let mut hits: Vec<Collision> = Vec::new();
        if data.entities[k].components.transform.is_some() {
            match &data.entities[k].components.collider {
                Some(c) => {
                    hits = collect_hits(data, data.entities[k].id, &c.filters, overlaps);
                },
                None => {},
            }
        }
        assert(collisions_view(hits@) == hits_of(es, es[k as int], overlaps@)) by {
            if !in_collisions(es[k as int].components) {
                assert(collisions_view(hits@) =~= Seq::<(MaskView, EntityId)>::empty());
            }
        }
        found.push(hits);
        k = k + 1;
    }
    let ghost all = found@;
    let mut k: usize = 0;
    while k < n
        invariant
            n == es.len(),
            k <= n,
            data.entities@.len() == n,
            found@ == all.subrange(k as int, n as int),
            all.len() == n,
            forall|j: int| 0 <= j < n ==> collisions_view((#[trigger] all[j])@) == hits_of(es, es[j], overlaps@),
            forall|j: int|
                0 <= j < k ==> {
                    let e0 = es[j];
                    let e1 = #[trigger] data.entities@[j];
                    &&& e1.id == e0.id
                    &&& e1.components == Components { collider: e1.components.collider, ..e0.components }
                    &&& (in_collisions(e0.components) ==> {
                        let c0 = e0.components.collider.unwrap();
                        let c1 = e1.components.collider.unwrap();
                        &&& e1.components.collider is Some
                        &&& c1 == Collider { collisions: c1.collisions, ..c0 }
                        &&& collisions_view(c1.collisions@) == collisions_view(c0.collisions@) + hits_of(
                            es,
                            e0,
                            overlaps@,
                        )
                    })
                    &&& (!in_collisions(e0.components) ==> e1 == e0)
                },
            forall|j: int| k <= j < n ==> #[trigger] data.entities@[j] == es[j],
            data.next_id == old(data).next_id,
            data.resources == old(data).resources,
        decreases n - k,
    {
        let ghost before = data.entities@;
        let mut hits = found.remove(0);
        assert(hits == all[k as int]);
        assert(found@ == all.subrange(k + 1, n as int));
        if data.entities[k].components.transform.is_some() {
            let mut slot: Option<Collider> = None;
            std::mem::swap(&mut slot, &mut data.entities[k].components.collider);
            match slot {
                Some(mut c) => {
                    let ghost c0 = c;
                    let ghost h = hits@;
                    c.add_collisions(&mut hits);
                    assert(c == Collider { collisions: c.collisions, ..c0 });
                    assert(collisions_view(c.collisions@) =~= collisions_view(c0.collisions@) + collisions_view(h));
                    data.entities[k].components.collider = Some(c);
                },
                None => {},
            }
        }
        proof {
            assert forall|i: int| 0 <= i < n && i != k implies #[trigger] data.entities@[i] == before[i] by {}
        }
        k = k + 1;
    }
}

/// The shortcut that switches the outlines of all colliders.
pub open spec fn debug_shortcut() -> Seq<Input> {
    seq![Input::Key(KeyCode::LShift), Input::Key(KeyCode::Char('d'))]
}

/// The name of the flag that holds whether all colliders show their outline.
pub open spec fn debug_flag() -> Seq<char> {
    "debug_colliders"@
}

/// Whether all colliders show their outline once the shortcut was read: the flag
/// (unset: off), switched when the shortcut was pressed.
pub open spec fn global_debug(d: GameData) -> bool {
    let current = match flag_value(d.resources.global_storage.flags@, debug_flag()) {
        Some(v) => v,
        None => false,
    };
    if d.resources.inputs.shortcut_event(debug_shortcut()) {
        !current
    } else {
        current
    }
}

/// Reads the shortcut that switches the outlines of all colliders, records the
/// switch, and returns whether all colliders show their outline.
pub fn handle_global_debug_colliders(data: &mut GameData) -> (r: bool)
    ensures
        r == global_debug(*old(data)),
        old(data).resources.inputs.shortcut_event(debug_shortcut()) ==> flag_value(
            final(data).resources.global_storage.flags@,
            debug_flag(),
        ) == Some(r),
        old(data).resources.inputs.shortcut_event(debug_shortcut()) ==> (forall|key: Seq<char>|
            key != debug_flag() ==> #[trigger] flag_value(final(data).resources.global_storage.flags@, key)
                == flag_value(old(data).resources.global_storage.flags@, key)),
        !old(data).resources.inputs.shortcut_event(debug_shortcut()) ==> final(data).resources.global_storage
            == old(data).resources.global_storage,
        final(data).entities == old(data).entities,
        final(data).next_id == old(data).next_id,
        final(data).resources == (crate::world::Resources {
            global_storage: final(data).resources.global_storage,
            ..old(data).resources
        }),
{
    let shortcut = vec![Input::Key(KeyCode::LShift), Input::Key(KeyCode::Char('d'))];
    assert(shortcut@ == debug_shortcut());
    let pressed = data.resources.inputs.shortcut_pressed_event(&shortcut);
    let key = "debug_colliders";
    let mut current = match data.resources.global_storage.flag(key) {
        Some(v) => v,
        None => false,
    };
    if pressed {
        current = !current;
        let ghost before = data.resources.global_storage.flags@;
        data.resources.global_storage.set_flag(key, current);
        proof {
            lemma_set_flag_others(before, data.resources.global_storage.flags@, key@, current);
        }
    }
    current
}

/// The entity `r` draws the outline of the collider of `p`.
pub open spec fn outlines(r: EntityRecord, p: EntityId) -> bool {
    r.components.collider_debug && r.components.parent == Some(p)
}

/// The last entity of `es` that draws the outline of the collider of `p`, if any.
pub open spec fn last_outline(es: Seq<EntityRecord>, p: EntityId) -> Option<EntityId>
    decreases es.len(),
{
    if es.len() == 0 {
        None
    } else if outlines(es.last(), p) {
        Some(es.last().id)
    } else {
        last_outline(es.drop_last(), p)
    }
}

/// `pairs` gives, for each entity whose collider has an outline among `es`, the
/// last entity that draws it, once.
pub open spec fn outline_pairs(es: Seq<EntityRecord>, pairs: Seq<(EntityId, EntityId)>) -> bool {
    &&& forall|a: int, b: int| 0 <= a < b < pairs.len() ==> #[trigger] pairs[a].0 != #[trigger] pairs[b].0
    &&& forall|a: int| 0 <= a < pairs.len() ==> last_outline(es, (#[trigger] pairs[a]).0) == Some(pairs[a].1)
    &&& forall|p: EntityId| #[trigger] last_outline(es, p) is Some ==> exists|a: int| 0 <= a < pairs.len() && #[trigger] pairs[a].0 == p
}

/// The entity that draws the outline of `p` according to `pairs`, if any.
fn outline_of(pairs: &Vec<(EntityId, EntityId)>, p: EntityId) -> (r: Option<EntityId>)
    ensures
        r is None <==> forall|a: int| 0 <= a < pairs@.len() ==> #[trigger] pairs@[a].0 != p,
        r is Some ==> exists|a: int| 0 <= a < pairs@.len() && #[trigger] pairs@[a] == (p, r.unwrap()),
{
    let mut i: usize = 0;
    while i < pairs.len()
        invariant
            i <= pairs@.len(),
            forall|a: int| 0 <= a < i ==> #[trigger] pairs@[a].0 != p,
        decreases pairs.len() - i,
    {
        if pairs[i].0 == p {
            assert(pairs@[i as int] == (p, pairs@[i as int].1));
            return Some(pairs[i].1);
        }
        i = i + 1;
    }
    None
}

/// The entities whose collider has an outline, each with the last entity that draws it.
fn fetch_collider_debug_entities(data: &GameData) -> (pairs: Vec<(EntityId, EntityId)>)
    ensures
        outline_pairs(data.entities@, pairs@),
{
    let ghost es = data.entities@;
    let mut pairs: Vec<(EntityId, EntityId)> = Vec::new();
    let mut i: usize = 0;
    while i < data.entities.len()
        invariant
            i <= es.len(),
            es == data.entities@,
            outline_pairs(es.subrange(0, i as int), pairs@),
        decreases data.entities.len() - i,
    {
        let ghost before = pairs@;
        let ghost pre = es.subrange(0, i as int);
        let ghost cur = es.subrange(0, i + 1);
        assert(cur.drop_last() == pre);
        assert(cur.last() == es[i as int]);
        let r = &data.entities[i];
        if r.components.collider_debug {
            match r.components.parent {
                Some(p) => {
                    let mut found = false;
                    let mut a: usize = 0;
                    while a < pairs.len() && !found
                        invariant
                            a <= pairs@.len(),
                            pairs@ == before,
                            !found ==> forall|b: int| 0 <= b < a ==> #[trigger] pairs@[b].0 != p,
                            found ==> a < pairs@.len() && pairs@[a as int].0 == p,
                        decreases pairs.len() - a + (if found { 0int } else { 1int }),
                    {
                        if pairs[a].0 == p {
                            found = true;
                        } else {
                            a = a + 1;
                        }
                    }
                    let id = r.id;
                    assert(outlines(cur.last(), p));
                    assert(last_outline(cur, p) == Some(id));
                    assert forall|q: EntityId| q != p implies #[trigger] last_outline(cur, q) == last_outline(pre, q) by {
                        assert(!outlines(cur.last(), q));
                    }
                    if found {
                        pairs.set(a, (p, id));
                        proof {
                            assert forall|q: EntityId| #[trigger] last_outline(cur, q) is Some implies exists|b: int|
                                0 <= b < pairs@.len() && #[trigger] pairs@[b].0 == q by {
                                if q != p {
                                    assert(last_outline(pre, q) is Some);
                                    let b = choose|b: int| 0 <= b < before.len() && #[trigger] before[b].0 == q;
                                    assert(pairs@[b].0 == q);
                                } else {
                                    assert(pairs@[a as int].0 == q);
                                }
                            }
                            assert forall|b: int| 0 <= b < pairs@.len() implies last_outline(cur, (#[trigger] pairs@[b]).0)
                                == Some(pairs@[b].1) by {
                                if b != a {
                                    assert(pairs@[b] == before[b]);
                                    assert(before[b].0 != before[a as int].0);
                                }
                            }
                            assert forall|b: int, c: int| 0 <= b < c < pairs@.len() implies #[trigger] pairs@[b].0
                                != #[trigger] pairs@[c].0 by {
                                assert(pairs@[b].0 == before[b].0 && pairs@[c].0 == before[c].0);
                            }
                        }
                    } else {
                        pairs.push((p, id));
                        proof {
                            assert forall|q: EntityId| #[trigger] last_outline(cur, q) is Some implies exists|b: int|
                                0 <= b < pairs@.len() && #[trigger] pairs@[b].0 == q by {
                                if q != p {
                                    assert(last_outline(pre, q) is Some);
                                    let b = choose|b: int| 0 <= b < before.len() && #[trigger] before[b].0 == q;
                                    assert(pairs@[b].0 == q);
                                } else {
                                    assert(pairs@[before.len() as int].0 == q);
                                }
                            }
                            assert forall|b: int| 0 <= b < pairs@.len() implies last_outline(cur, (#[trigger] pairs@[b]).0)
                                == Some(pairs@[b].1) by {
                                if b < before.len() {
                                    assert(pairs@[b] == before[b]);
                                    assert(before[b].0 != p);
                                }
                            }
                            assert forall|b: int, c: int| 0 <= b < c < pairs@.len() implies #[trigger] pairs@[b].0
                                != #[trigger] pairs@[c].0 by {
                                assert(pairs@[b] == before[b]);
                                if c < before.len() {
                                    assert(pairs@[c] == before[c]);
                                }
                            }
                        }
                    }
                },
                None => {
                    proof {
                        assert forall|q: EntityId| #[trigger] last_outline(cur, q) is Some implies exists|b: int|
                            0 <= b < pairs@.len() && #[trigger] pairs@[b].0 == q by {
                            assert(last_outline(pre, q) is Some);
                        }
                        assert forall|b: int| 0 <= b < pairs@.len() implies last_outline(cur, (#[trigger] pairs@[b]).0)
                            == Some(pairs@[b].1) by {
                            assert(!outlines(cur.last(), pairs@[b].0));
                        }
                    }
                },
            }
        } else {
            proof {
                assert forall|q: EntityId| #[trigger] last_outline(cur, q) is Some implies exists|b: int|
                    0 <= b < pairs@.len() && #[trigger] pairs@[b].0 == q by {
                    assert(last_outline(pre, q) is Some);
                }
                assert forall|b: int| 0 <= b < pairs@.len() implies last_outline(cur, (#[trigger] pairs@[b]).0)
                    == Some(pairs@[b].1) by {
                    assert(!outlines(cur.last(), pairs@[b].0));
                }
            }
        }
        i = i + 1;
    }
    assert(es.subrange(0, es.len() as int) == es);
    pairs
}

/// The color of the outline of a collider of group `m`.
pub open spec fn outline_color(m: ColliderMask) -> Color {
    let (r, g, b) = match m {
        ColliderMask::Empty => (255u8, 255u8, 255u8),
        ColliderMask::Character => (255u8, 0u8, 0u8),
        ColliderMask::Bullet => (255u8, 0u8, 0u8),
        ColliderMask::Death => (255u8, 0u8, 0u8),
        ColliderMask::Landscape => (255u8, 255u8, 0u8),
        ColliderMask::Custom(_) => (0u8, 0u8, 255u8),
        ColliderMask::Item => (0u8, 255u8, 255u8),
    };
    Color { r, g, b, alpha_bits: OPAQUE_ALPHA_BITS }
}

/// The components of the entity that draws the outline of the collider of `p`,
/// of group `m`: a child on layer 30, painted in the color of the group.
pub open spec fn outline_components(p: EntityId, m: ColliderMask) -> Components {
    Components {
        parent: Some(p),
        collider_debug: true,
        transform: Some(fresh_transform(30)),
        material: Some(Material::Diffuse(outline_color(m))),
        ..Components::empty_spec()
    }
}

/// The collider of `r` shows its outline.
pub open spec fn shows_outline(r: EntityRecord, global: bool) -> bool {
    &&& r.components.transform is Some
    &&& r.components.collider is Some
    &&& (r.components.collider.unwrap().debug_lines || global)
}

/// The collider of `r` hides its outline.
pub open spec fn hides_outline(r: EntityRecord, global: bool) -> bool {
    &&& r.components.transform is Some
    &&& r.components.collider is Some
    &&& !r.components.collider.unwrap().debug_lines
    &&& !global
}

/// The outlines added for the entities `es` among `all`, in order.
pub open spec fn outlines_added(all: Seq<EntityRecord>, es: Seq<EntityRecord>, global: bool) -> Seq<Components>
    decreases es.len(),
{
    if es.len() == 0 {
        Seq::empty()
    } else {
        let prev = outlines_added(all, es.drop_last(), global);
        let r = es.last();
        if shows_outline(r, global) && last_outline(all, r.id) is None {
            prev.push(outline_components(r.id, r.components.collider.unwrap().mask))
        } else {
            prev
        }
    }
}

/// The outline entities removed for the entities `es` among `all`, in order.
pub open spec fn outlines_dropped(all: Seq<EntityRecord>, es: Seq<EntityRecord>, global: bool) -> Seq<EntityId>
    decreases es.len(),
{
    if es.len() == 0 {
        Seq::empty()
    } else {
        let prev = outlines_dropped(all, es.drop_last(), global);
        let r = es.last();
        if hides_outline(r, global) && last_outline(all, r.id) is Some {
            prev.push(last_outline(all, r.id).unwrap())
        } else {
            prev
        }
    }
}

/// No more outlines are added than there are entities.
proof fn lemma_outlines_added_len(all: Seq<EntityRecord>, es: Seq<EntityRecord>, global: bool)
    ensures
        outlines_added(all, es, global).len() <= es.len(),
    decreases es.len(),
{
    if es.len() > 0 {
        lemma_outlines_added_len(all, es.drop_last(), global);
    }
}

/// The components of an outline of the collider of `p`, of group `mask`.
fn make_outline(p: EntityId, mask: &ColliderMask) -> (c: Components)
    ensures
        c == outline_components(p, *mask),
{
    let color = match mask {
        ColliderMask::Empty => Color::new_rgb(255, 255, 255),
        ColliderMask::Character => Color::new_rgb(255, 0, 0),
        ColliderMask::Bullet => Color::new_rgb(255, 0, 0),
        ColliderMask::Death => Color::new_rgb(255, 0, 0),
        ColliderMask::Landscape => Color::new_rgb(255, 255, 0),
        ColliderMask::Custom(_) => Color::new_rgb(0, 0, 255),
        ColliderMask::Item => Color::new_rgb(0, 255, 255),
    };
    let mut c = Components::empty();
    c.parent = Some(p);
    c.collider_debug = true;
    c.transform = Some(Transform::from_layer(30));
    c.material = Some(Material::Diffuse(color));
    c
}

/// System responsible of drawing the outline of each collider in debug mode, its
/// own or all of them: it adds an outline entity, a child of the collider's
/// entity, to each collider in debug mode that has none, and removes the outline
/// of each collider out of it.
pub fn debug_colliders_system(data: &mut GameData)
    requires
        old(data).wf(),
        old(data).next_id + old(data).entities@.len() < u64::MAX,
    ensures
        ({
            let g = global_debug(*old(data));
            let added = outlines_added(old(data).entities@, old(data).entities@, g);
            let dropped = outlines_dropped(old(data).entities@, old(data).entities@, g);
            &&& final(data).entities@ == without_ids(appended(old(data).entities@, added, old(data).next_id), dropped)
            &&& final(data).next_id == old(data).next_id + added.len()
        }),
        final(data).wf(),
        old(data).resources.inputs.shortcut_event(debug_shortcut()) ==> flag_value(
            final(data).resources.global_storage.flags@,
            debug_flag(),
        ) == Some(global_debug(*old(data))),
        old(data).resources.inputs.shortcut_event(debug_shortcut()) ==> (forall|key: Seq<char>|
            key != debug_flag() ==> #[trigger] flag_value(final(data).resources.global_storage.flags@, key)
                == flag_value(old(data).resources.global_storage.flags@, key)),
        !old(data).resources.inputs.shortcut_event(debug_shortcut()) ==> final(data).resources.global_storage
            == old(data).resources.global_storage,
        final(data).resources == (crate::world::Resources {
            global_storage: final(data).resources.global_storage,
            ..old(data).resources
        }),
{
    let ghost es = data.entities@;
    let global = handle_global_debug_colliders(data);
    let pairs = fetch_collider_debug_entities(data);
    let mut to_add: Vec<Components> = Vec::new();
    let mut to_remove: Vec<EntityId> = Vec::new();
    let n = data.entities.len();
    let mut k: usize = 0;
    while k < n
        invariant
            n == es.len(),
            es == data.entities@,
            k <= n,
            outline_pairs(es, pairs@),
            to_add@ == outlines_added(es, es.subrange(0, k as int), global),
            to_remove@ == outlines_dropped(es, es.subrange(0, k as int), global),
        decreases n - k,
    {
        assert(es.subrange(0, k + 1).drop_last() == es.subrange(0, k as int));
        assert(es.subrange(0, k + 1).last() == es[k as int]);
        let id = data.entities[k].id;
        let existing = outline_of(&pairs, id);
        proof {
            if existing is Some {
                let a = choose|a: int| 0 <= a < pairs@.len() && #[trigger] pairs@[a] == (id, existing.unwrap());
                assert(last_outline(es, pairs@[a].0) == Some(pairs@[a].1));
            } else {
                if last_outline(es, id) is Some {
                    let a = choose|a: int| 0 <= a < pairs@.len() && #[trigger] pairs@[a].0 == id;
                    assert(pairs@[a].0 != id);
                }
            }
        }
        if data.entities[k].components.transform.is_some() {
            match &data.entities[k].components.collider {
                Some(c) => {
                    if (c.debug_lines || global) && existing.is_none() {
                        to_add.push(make_outline(id, &c.mask));
                    } else if !c.debug_lines && !global && existing.is_some() {
                        match existing {
                            Some(e) => to_remove.push(e),
                            None => {},
                        }
                    }
                },
                None => {},
            }
        }
        k = k + 1;
    }
    assert(es.subrange(0, n as int) == es);
    proof {
        lemma_outlines_added_len(es, es, global);
    }
    data.push_all(to_add);
    remove_entities(data, &to_remove);
}

} // verus!

verus! {

/// An entity of `s` whose identifier `ids` does not hold is kept.
proof fn lemma_kept(s: Seq<EntityRecord>, ids: Seq<EntityId>, j: int) -> (k: int)
    requires
        0 <= j < s.len(),
        !ids.contains(s[j].id),
    ensures
        0 <= k < without_ids(s, ids).len(),
        without_ids(s, ids)[k] == s[j],
    decreases s.len(),
{
    let init = s.drop_last();
    let prev = without_ids(init, ids);
    if j < s.len() - 1 {
        assert(init[j] == s[j]);
        let k = lemma_kept(init, ids, j);
        assert(without_ids(s, ids)[k] == prev[k]);
        k
    } else {
        assert(s.last() == s[j]);
        prev.len() as int
    }
}

/// Every entity kept comes from `s`, and `ids` does not hold its identifier.
proof fn lemma_kept_from(s: Seq<EntityRecord>, ids: Seq<EntityId>, k: int) -> (j: int)
    requires
        0 <= k < without_ids(s, ids).len(),
    ensures
        0 <= j < s.len(),
        s[j] == without_ids(s, ids)[k],
        !ids.contains(s[j].id),
    decreases s.len(),
{
    let init = s.drop_last();
    let prev = without_ids(init, ids);
    if k < prev.len() {
        assert(without_ids(s, ids)[k] == prev[k]);
        let j = lemma_kept_from(init, ids, k);
        assert(init[j] == s[j]);
        j
    } else {
        assert(s.last() == s[s.len() - 1]);
        s.len() - 1
    }
}

/// The last outline of `p` is an outline of `p`.
proof fn lemma_last_outline_at(es: Seq<EntityRecord>, p: EntityId) -> (j: int)
    requires
        last_outline(es, p) is Some,
    ensures
        0 <= j < es.len(),
        outlines(es[j], p),
        es[j].id == last_outline(es, p).unwrap(),
    decreases es.len(),
{
    if outlines(es.last(), p) {
        assert(es.last() == es[es.len() - 1]);
        es.len() - 1
    } else {
        let j = lemma_last_outline_at(es.drop_last(), p);
        assert(es.drop_last()[j] == es[j]);
        j
    }
}

/// An outline of `p` makes the last outline of `p` some.
proof fn lemma_outline_found(es: Seq<EntityRecord>, p: EntityId, j: int)
    requires
        0 <= j < es.len(),
        outlines(es[j], p),
    ensures
        last_outline(es, p) is Some,
    decreases es.len(),
{
    if !outlines(es.last(), p) {
        assert(es.last() == es[es.len() - 1]);
        assert(es.drop_last()[j] == es[j]);
        lemma_outline_found(es.drop_last(), p, j);
    }
}

proof fn lemma_added_has(all: Seq<EntityRecord>, es: Seq<EntityRecord>, g: bool, i: int) -> (m: int)
    requires
        0 <= i < es.len(),
        shows_outline(es[i], g),
        last_outline(all, es[i].id) is None,
    ensures
        0 <= m < outlines_added(all, es, g).len(),
        outlines_added(all, es, g)[m] == outline_components(es[i].id, es[i].components.collider.unwrap().mask),
    decreases es.len(),
{
    let prev = outlines_added(all, es.drop_last(), g);
    if i < es.len() - 1 {
        assert(es.drop_last()[i] == es[i]);
        let m = lemma_added_has(all, es.drop_last(), g, i);
        assert(outlines_added(all, es, g)[m] == prev[m]);
        m
    } else {
        assert(es.last() == es[i]);
        prev.len() as int
    }
}

proof fn lemma_added_from(all: Seq<EntityRecord>, es: Seq<EntityRecord>, g: bool, m: int) -> (i: int)
    requires
        0 <= m < outlines_added(all, es, g).len(),
    ensures
        0 <= i < es.len(),
        shows_outline(es[i], g),
        last_outline(all, es[i].id) is None,
        outlines_added(all, es, g)[m] == outline_components(es[i].id, es[i].components.collider.unwrap().mask),
    decreases es.len(),
{
    let prev = outlines_added(all, es.drop_last(), g);
    if m < prev.len() {
        assert(outlines_added(all, es, g)[m] == prev[m]);
        let i = lemma_added_from(all, es.drop_last(), g, m);
        assert(es.drop_last()[i] == es[i]);
        i
    } else {
        assert(es.last() == es[es.len() - 1]);
        es.len() - 1
    }
}

proof fn lemma_dropped_has(all: Seq<EntityRecord>, es: Seq<EntityRecord>, g: bool, i: int) -> (m: int)
    requires
        0 <= i < es.len(),
        hides_outline(es[i], g),
        last_outline(all, es[i].id) is Some,
    ensures
        0 <= m < outlines_dropped(all, es, g).len(),
        outlines_dropped(all, es, g)[m] == last_outline(all, es[i].id).unwrap(),
    decreases es.len(),
{
    let prev = outlines_dropped(all, es.drop_last(), g);
    if i < es.len() - 1 {
        assert(es.drop_last()[i] == es[i]);
        let m = lemma_dropped_has(all, es.drop_last(), g, i);
        assert(outlines_dropped(all, es, g)[m] == prev[m]);
        m
    } else {
        assert(es.last() == es[i]);
        prev.len() as int
    }
}

proof fn lemma_dropped_from(all: Seq<EntityRecord>, es: Seq<EntityRecord>, g: bool, m: int) -> (i: int)
    requires
        0 <= m < outlines_dropped(all, es, g).len(),
    ensures
        0 <= i < es.len(),
        hides_outline(es[i], g),
        last_outline(all, es[i].id) == Some(outlines_dropped(all, es, g)[m]),
    decreases es.len(),
{
    let prev = outlines_dropped(all, es.drop_last(), g);
    if m < prev.len() {
        assert(outlines_dropped(all, es, g)[m] == prev[m]);
        let i = lemma_dropped_from(all, es.drop_last(), g, m);
        assert(es.drop_last()[i] == es[i]);
        i
    } else {
        assert(es.last() == es[es.len() - 1]);
        es.len() - 1
    }
}

/// Each collider of `es` has at most one outline, and no outline has a collider.
pub open spec fn single_outlines(es: Seq<EntityRecord>) -> bool {
    &&& forall|a: int, b: int|
        0 <= a < es.len() && 0 <= b < es.len() && (#[trigger] es[a]).components.collider_debug
            && (#[trigger] es[b]).components.collider_debug && es[a].components.parent is Some
            && es[a].components.parent == es[b].components.parent ==> a == b
    &&& forall|a: int| 0 <= a < es.len() && (#[trigger] es[a]).components.collider_debug ==> es[a].components.collider is None
}

/// The entities `es0`, numbered below `next`, once the outlines were drawn in the
/// global mode `g`.
pub open spec fn outlines_drawn(es0: Seq<EntityRecord>, next: u64, g: bool) -> Seq<EntityRecord> {
    without_ids(appended(es0, outlines_added(es0, es0, g), next), outlines_dropped(es0, es0, g))
}

/// Drawing the outlines a second time, in the same global mode and with nothing
/// changed, adds no outline and removes none, when each collider had at most one
/// outline and no outline had a collider.
pub proof fn law_outlines_settle(es0: Seq<EntityRecord>, next: u64, g: bool)
    requires
        distinct_ids(es0),
        forall|k: int| 0 <= k < es0.len() ==> (#[trigger] es0[k]).id < next,
        next + es0.len() < u64::MAX,
        single_outlines(es0),
    ensures
        outlines_added(outlines_drawn(es0, next, g), outlines_drawn(es0, next, g), g).len() == 0,
        outlines_dropped(outlines_drawn(es0, next, g), outlines_drawn(es0, next, g), g).len() == 0,
{
    let adds = outlines_added(es0, es0, g);
    let drops = outlines_dropped(es0, es0, g);
    let app = appended(es0, adds, next);
    let es1 = outlines_drawn(es0, next, g);
    lemma_outlines_added_len(es0, es0, g);
    // The removed identifiers are those of entities of `es0`.
    assert forall|x: int| 0 <= x < drops.len() implies exists|jo: int|
        0 <= jo < es0.len() && #[trigger] es0[jo].id == #[trigger] drops[x] by {
        let i = lemma_dropped_from(es0, es0, g, x);
        let jo = lemma_last_outline_at(es0, es0[i].id);
    }
    // What a kept entity is.
    assert forall|k: int| 0 <= k < es1.len() implies {
        &&& (shows_outline(#[trigger] es1[k], g) ==> last_outline(es1, es1[k].id) is Some)
        &&& (hides_outline(es1[k], g) ==> last_outline(es1, es1[k].id) is None)
    } by {
        let j = lemma_kept_from(app, drops, k);
        if j < es0.len() {
            let r = es0[j];
            assert(app[j] == r);
            if shows_outline(r, g) {
                if last_outline(es0, r.id) is Some {
                    let jo = lemma_last_outline_at(es0, r.id);
                    if drops.contains(es0[jo].id) {
                        let m = choose|m: int| 0 <= m < drops.len() && drops[m] == es0[jo].id;
                        let i = lemma_dropped_from(es0, es0, g, m);
                        let jo2 = lemma_last_outline_at(es0, es0[i].id);
                        assert(jo2 == jo);
                        assert(i == j);
                    }
                    assert(app[jo] == es0[jo]);
                    let k2 = lemma_kept(app, drops, jo);
                    lemma_outline_found(es1, r.id, k2);
                } else {
                    let m = lemma_added_has(es0, es0, g, j);
                    let n0 = es0.len() as int;
                    assert(app[n0 + m].id == (next + m) as u64);
                    assert(app[n0 + m].components == adds[m]);
                    if drops.contains(app[n0 + m].id) {
                        let x = choose|x: int| 0 <= x < drops.len() && drops[x] == app[n0 + m].id;
                        let jo = choose|jo: int| 0 <= jo < es0.len() && #[trigger] es0[jo].id == drops[x];
                    }
                    let k2 = lemma_kept(app, drops, n0 + m);
                    lemma_outline_found(es1, r.id, k2);
                }
            }
            if hides_outline(r, g) && last_outline(es1, r.id) is Some {
                let k3 = lemma_last_outline_at(es1, r.id);
                let j3 = lemma_kept_from(app, drops, k3);
                if j3 >= es0.len() {
                    let i = lemma_added_from(es0, es0, g, j3 - es0.len());
                    assert(app[j3].components == adds[j3 - es0.len()]);
                    assert(i == j);
                } else {
                    assert(app[j3] == es0[j3]);
                    lemma_outline_found(es0, r.id, j3);
                    let m = lemma_dropped_has(es0, es0, g, j);
                    let jo = lemma_last_outline_at(es0, r.id);
                    assert(jo == j3);
                    assert(drops[m] == es0[j3].id);
                }
            }
        } else {
            assert(app[j].components == adds[j - es0.len()]);
            let i = lemma_added_from(es0, es0, g, j - es0.len());
        }
    }
    if outlines_added(es1, es1, g).len() > 0 {
        let i = lemma_added_from(es1, es1, g, 0);
    }
    if outlines_dropped(es1, es1, g).len() > 0 {
        let i = lemma_dropped_from(es1, es1, g, 0);
    }
}

/// Running the debug-outline system a second time, with no shortcut pressed in
/// between and nothing else changed, adds no entity and removes none, when each
/// collider had at most one outline and no outline had a collider. `d1` is the
/// game once the system ran on `d0`, `d2` once it ran again on `d1`.
pub proof fn law_second_debug_run_changes_nothing(d0: GameData, d1: GameData, d2: GameData)
    requires
        d0.wf(),
        d0.next_id + d0.entities@.len() < u64::MAX,
        single_outlines(d0.entities@),
        d1.entities@ == outlines_drawn(d0.entities@, d0.next_id, global_debug(d0)),
        d1.next_id == d0.next_id + outlines_added(d0.entities@, d0.entities@, global_debug(d0)).len(),
        d0.resources.inputs.shortcut_event(debug_shortcut()) ==> flag_value(
            d1.resources.global_storage.flags@,
            debug_flag(),
        ) == Some(global_debug(d0)),
        !d0.resources.inputs.shortcut_event(debug_shortcut()) ==> d1.resources.global_storage
            == d0.resources.global_storage,
        !d1.resources.inputs.shortcut_event(debug_shortcut()),
        d2.entities@ == without_ids(
            appended(d1.entities@, outlines_added(d1.entities@, d1.entities@, global_debug(d1)), d1.next_id),
            outlines_dropped(d1.entities@, d1.entities@, global_debug(d1)),
        ),
        d2.next_id == d1.next_id + outlines_added(d1.entities@, d1.entities@, global_debug(d1)).len(),
    ensures
        d2.entities@ == d1.entities@,
        d2.next_id == d1.next_id,
{
    assert(global_debug(d1) == global_debug(d0));
    law_outlines_settle(d0.entities@, d0.next_id, global_debug(d0));
    let es = d1.entities@;
    let added = outlines_added(es, es, global_debug(d1));
    let dropped = outlines_dropped(es, es, global_debug(d1));
    assert(added =~= Seq::<Components>::empty());
    assert(dropped =~= Seq::<EntityId>::empty());
    assert(appended(es, added, d1.next_id) =~= es);
    lemma_without_nothing(es);
}

} // verus!
