//! Transforms attached to a parent: the order in which their global values are
//! computed again.
use vstd::prelude::*;
use crate::components::{EntityId, Transform};
use crate::world::{Components, EntityRecord, GameData};

verus! {

/// The entity `c` has a transform flagged as a dirty child, and a parent.
pub open spec fn waits_on_parent(c: Components) -> bool {
    &&& c.transform is Some
    &&& c.transform.unwrap().dirty_child
    &&& c.parent is Some
}

/// The parent of every dirty child of `es` is alive.
pub open spec fn dirty_parents_alive(es: Seq<EntityRecord>) -> bool {
    forall|i: int|
        0 <= i < es.len() && waits_on_parent(#[trigger] es[i].components) ==> exists|j: int|
            0 <= j < es.len() && es[j].id == es[i].components.parent.unwrap()
}

/// `rank` decreases from a dirty child to a dirty parent: the dirty children of
/// `es` form no cycle.
pub open spec fn ranked_dirty_children(es: Seq<EntityRecord>, rank: spec_fn(EntityId) -> nat) -> bool {
    forall|i: int, j: int|
        #![trigger es[i], es[j]]
        0 <= i < es.len() && 0 <= j < es.len() && waits_on_parent(es[i].components) && waits_on_parent(
            es[j].components,
        ) && es[j].id == es[i].components.parent.unwrap() ==> rank(es[j].id) < rank(es[i].id)
}

/// Some entity of `es` with identifier `id` has a transform.
#[verifier::opaque]
pub open spec fn has_transform(es: Seq<EntityRecord>, id: EntityId) -> bool {
    exists|j: int| 0 <= j < es.len() && #[trigger] es[j].id == id && es[j].components.transform is Some
}

/// The transform `t` with its dirty-child flag cleared.
pub open spec fn cleaned(t: Option<Transform>) -> Option<Transform> {
    match t {
        Some(t) => Some(Transform { dirty_child: false, ..t }),
        None => None,
    }
}

/// `b` is `a` but for its transform.
pub open spec fn same_but_transform(a: Components, b: Components) -> bool {
    b == Components { transform: b.transform, ..a }
}

/// `es1` is `es0` with every transform's dirty-child flag cleared.
pub open spec fn children_cleaned(es0: Seq<EntityRecord>, es1: Seq<EntityRecord>) -> bool {
    &&& es1.len() == es0.len()
    &&& forall|i: int|
        0 <= i < es0.len() ==> {
            &&& (#[trigger] es1[i]).id == es0[i].id
            &&& same_but_transform(es0[i].components, es1[i].components)
            &&& es1[i].components.transform == cleaned(es0[i].components.transform)
        }
}

/// `plan` lists, child first and parent second, each dirty child of `es` whose
/// parent has a transform, once, a parent always before its children.
pub open spec fn is_update_plan(es: Seq<EntityRecord>, plan: Seq<(EntityId, EntityId)>) -> bool {
    &&& plan_children_waited(es, plan)
    &&& plan_covers(es, plan)
    &&& forall|a: int, b: int| 0 <= a < b < plan.len() ==> #[trigger] plan[a].0 != #[trigger] plan[b].0
    &&& forall|a: int, b: int| 0 <= a < plan.len() && 0 <= b < plan.len() && #[trigger] plan[b].0 == #[trigger] plan[a].1 ==> b < a
}

/// The entry `e` is for a dirty child of `es` whose parent has a transform.
pub open spec fn waited_entry(es: Seq<EntityRecord>, e: (EntityId, EntityId)) -> bool {
    exists|i: int|
        0 <= i < es.len() && #[trigger] es[i].id == e.0 && waits_on_parent(es[i].components)
            && es[i].components.parent.unwrap() == e.1 && has_transform(es, e.1)
}

/// Each entry of `plan` is for a dirty child of `es` whose parent has a transform.
pub open spec fn plan_children_waited(es: Seq<EntityRecord>, plan: Seq<(EntityId, EntityId)>) -> bool {
    forall|a: int| 0 <= a < plan.len() ==> waited_entry(es, #[trigger] plan[a])
}

/// Each dirty child of `es` whose parent has a transform has an entry in `plan`.
pub open spec fn plan_covers(es: Seq<EntityRecord>, plan: Seq<(EntityId, EntityId)>) -> bool {
    forall|i: int|
        0 <= i < es.len() && waits_on_parent(#[trigger] es[i].components) && has_transform(
            es,
            es[i].components.parent.unwrap(),
        ) ==> exists|a: int| 0 <= a < plan.len() && #[trigger] plan[a] == (es[i].id, es[i].components.parent.unwrap())
}

/// The transform of the entity at `i` of `es` is flagged as a dirty child.
pub open spec fn dirty_at(es: Seq<EntityRecord>, i: int) -> bool {
    es[i].components.transform is Some && es[i].components.transform.unwrap().dirty_child
}

/// `es1` is `es0` where only dirty-child flags changed.
pub open spec fn reflagged(es0: Seq<EntityRecord>, es1: Seq<EntityRecord>) -> bool {
    &&& es1.len() == es0.len()
    &&& forall|i: int|
        0 <= i < es0.len() ==> {
            &&& (#[trigger] es1[i]).id == es0[i].id
            &&& same_but_transform(es0[i].components, es1[i].components)
            &&& es1[i].components.transform is Some == es0[i].components.transform is Some
            &&& es1[i].components.transform is Some ==> es1[i].components.transform.unwrap() == Transform {
                dirty_child: es1[i].components.transform.unwrap().dirty_child,
                ..es0[i].components.transform.unwrap()
            }
        }
}

/// `es1` is `es0` where only dirty-child flags changed, and only those of
/// entities waiting on their parent stay set.
pub open spec fn flags_only(es0: Seq<EntityRecord>, es1: Seq<EntityRecord>) -> bool {
    &&& reflagged(es0, es1)
    &&& forall|i: int| 0 <= i < es0.len() && dirty_at(es1, i) ==> waits_on_parent(#[trigger] es0[i].components)
}

/// `todo` lists entities, by position, that wait on their parent in `es0` and are
/// still dirty in `es1`, each once, with their parent.
pub open spec fn todo_ok(es0: Seq<EntityRecord>, es1: Seq<EntityRecord>, todo: Seq<(usize, EntityId)>) -> bool {
    &&& forall|a: int|
        0 <= a < todo.len() ==> {
            &&& (#[trigger] todo[a]).0 < es0.len()
            &&& waits_on_parent(es0[todo[a].0 as int].components)
            &&& dirty_at(es1, todo[a].0 as int)
            &&& todo[a].1 == es0[todo[a].0 as int].components.parent.unwrap()
        }
    &&& forall|a: int, b: int| 0 <= a < b < todo.len() ==> #[trigger] todo[a].0 != #[trigger] todo[b].0
}

/// Some entry of `todo` is for the entity at `i`.
pub open spec fn listed(todo: Seq<(usize, EntityId)>, i: int) -> bool {
    exists|a: int| 0 <= a < todo.len() && #[trigger] todo[a].0 == i
}

/// Each entry of `plan` is for the child of `es0` at the first position of the
/// same entry of `slots`, cleaned in `es1`, whose parent, at its second position,
/// has a transform.
#[verifier::opaque]
pub open spec fn plan_entries_ok(
    es0: Seq<EntityRecord>,
    es1: Seq<EntityRecord>,
    plan: Seq<(EntityId, EntityId)>,
    slots: Seq<(int, int)>,
) -> bool {
    &&& slots.len() == plan.len()
    &&& forall|a: int|
        0 <= a < plan.len() ==> {
            let (ci, pi) = #[trigger] slots[a];
            &&& 0 <= ci < es0.len()
            &&& 0 <= pi < es0.len()
            &&& plan[a] == (es0[ci].id, es0[pi].id)
            &&& waits_on_parent(es0[ci].components)
            &&& !dirty_at(es1, ci)
            &&& es0[ci].components.parent.unwrap() == es0[pi].id
            &&& es0[pi].components.transform is Some
        }
}

/// Each child of `es0` cleaned in `es1` whose parent has a transform has an entry in `plan`.
#[verifier::opaque]
pub open spec fn plan_complete(es0: Seq<EntityRecord>, es1: Seq<EntityRecord>, plan: Seq<(EntityId, EntityId)>) -> bool {
    forall|i: int|
        0 <= i < es0.len() && waits_on_parent(#[trigger] es0[i].components) && !dirty_at(es1, i) && has_transform(
            es0,
            es0[i].components.parent.unwrap(),
        ) ==> exists|a: int| 0 <= a < plan.len() && #[trigger] plan[a] == (es0[i].id, es0[i].components.parent.unwrap())
}

/// No child has two entries in `plan`.
#[verifier::opaque]
pub open spec fn plan_children_distinct(plan: Seq<(EntityId, EntityId)>) -> bool {
    forall|a: int, b: int| 0 <= a < b < plan.len() ==> #[trigger] plan[a].0 != #[trigger] plan[b].0
}

/// In `plan`, the entry of a parent comes before those of its children.
#[verifier::opaque]
pub open spec fn plan_parents_first(plan: Seq<(EntityId, EntityId)>) -> bool {
    forall|a: int, b: int| 0 <= a < plan.len() && 0 <= b < plan.len() && #[trigger] plan[b].0 == #[trigger] plan[a].1 ==> b < a
}

/// No entry of `slots` names a parent still dirty in `es1`.
#[verifier::opaque]
pub open spec fn plan_parents_clean(es1: Seq<EntityRecord>, slots: Seq<(int, int)>) -> bool {
    forall|a: int| 0 <= a < slots.len() ==> !dirty_at(es1, (#[trigger] slots[a]).1)
}

/// The plan so far: entries for cleaned children, each once, parents first,
/// and no entry names a parent that is still dirty.
pub open spec fn plan_ok(
    es0: Seq<EntityRecord>,
    es1: Seq<EntityRecord>,
    plan: Seq<(EntityId, EntityId)>,
    slots: Seq<(int, int)>,
) -> bool {
    &&& plan_entries_ok(es0, es1, plan, slots)
    &&& plan_complete(es0, es1, plan)
    &&& plan_children_distinct(plan)
    &&& plan_parents_first(plan)
    &&& plan_parents_clean(es1, slots)
}

/// Identifiers of `es` are pairwise distinct.
pub open spec fn ids_distinct(es: Seq<EntityRecord>) -> bool {
    forall|a: int, b: int| 0 <= a < b < es.len() ==> #[trigger] es[a].id != #[trigger] es[b].id
}

/// Among the entries of `todo`, one whose entity has the least rank.
proof fn lemma_least_rank(es0: Seq<EntityRecord>, todo: Seq<(usize, EntityId)>, rank: spec_fn(EntityId) -> nat) -> (k: int)
    requires
        todo.len() > 0,
    ensures
        0 <= k < todo.len(),
        forall|a: int| 0 <= a < todo.len() ==> rank(es0[todo[k].0 as int].id) <= rank(es0[(#[trigger] todo[a]).0 as int].id),
    decreases todo.len(),
{
    if todo.len() == 1 {
        0
    } else {
        let k0 = lemma_least_rank(es0, todo.drop_last(), rank);
        assert forall|a: int| 0 <= a < todo.len() - 1 implies rank(es0[todo[k0].0 as int].id) <= rank(
            es0[(#[trigger] todo[a]).0 as int].id,
        ) by {
            assert(todo[a] == todo.drop_last()[a]);
        }
        if rank(es0[todo.last().0 as int].id) < rank(es0[todo[k0].0 as int].id) {
            (todo.len() - 1) as int
        } else {
            k0
        }
    }
}

/// Cleaning the entity at `ci` only lowers its own flag.
proof fn lemma_cleaned(es: Seq<EntityRecord>, before: Seq<EntityRecord>, after: Seq<EntityRecord>, ci: int)
    requires
        flags_only(es, before),
        0 <= ci < es.len(),
        after.len() == before.len(),
        forall|j: int| 0 <= j < before.len() && j != ci ==> #[trigger] after[j] == before[j],
        after[ci].id == before[ci].id,
        same_but_transform(before[ci].components, after[ci].components),
        after[ci].components.transform == cleaned(before[ci].components.transform),
    ensures
        flags_only(es, after),
        !dirty_at(after, ci),
        forall|j: int| 0 <= j < es.len() && j != ci ==> (dirty_at(after, j) == dirty_at(before, j)),
        forall|j: int| 0 <= j < es.len() && dirty_at(after, j) ==> dirty_at(before, j),
{
    assert forall|i: int| 0 <= i < es.len() implies {
        &&& (#[trigger] after[i]).id == es[i].id
        &&& same_but_transform(es[i].components, after[i].components)
        &&& after[i].components.transform is Some == es[i].components.transform is Some
        &&& after[i].components.transform is Some ==> after[i].components.transform.unwrap() == Transform {
            dirty_child: after[i].components.transform.unwrap().dirty_child,
            ..es[i].components.transform.unwrap()
        }
        &&& dirty_at(after, i) ==> waits_on_parent(es[i].components)
    } by {
        assert(before[i].id == es[i].id);
        if i != ci {
            assert(after[i] == before[i]);
        }
    }
}

/// After the entity at `ci`, the last of `tmp`, was cleaned, the lists stay sound.
proof fn lemma_lists_after_clean(
    es: Seq<EntityRecord>,
    before: Seq<EntityRecord>,
    after: Seq<EntityRecord>,
    ci: int,
    tmp: Seq<(usize, EntityId)>,
    todo: Seq<(usize, EntityId)>,
)
    requires
        flags_only(es, after),
        tmp.len() > 0,
        tmp[tmp.len() - 1].0 == ci,
        todo_ok(es, before, tmp),
        todo_ok(es, before, todo),
        forall|a: int, b: int| 0 <= a < tmp.len() && 0 <= b < todo.len() ==> #[trigger] tmp[a].0 != #[trigger] todo[b].0,
        forall|j: int| 0 <= j < es.len() && dirty_at(before, j) ==> #[trigger] listed(tmp, j) || listed(todo, j),
        !dirty_at(after, ci),
        forall|j: int| 0 <= j < es.len() && j != ci ==> (dirty_at(after, j) == dirty_at(before, j)),
    ensures
        todo_ok(es, after, tmp.drop_last()),
        todo_ok(es, after, todo),
        forall|a: int, b: int| 0 <= a < tmp.drop_last().len() && 0 <= b < todo.len() ==> #[trigger] tmp.drop_last()[a].0
            != #[trigger] todo[b].0,
        forall|j: int| 0 <= j < es.len() && dirty_at(after, j) ==> #[trigger] listed(tmp.drop_last(), j) || listed(todo, j),
{
    let t2 = tmp.drop_last();
    assert forall|a: int| 0 <= a < t2.len() implies {
        &&& (#[trigger] t2[a]).0 < es.len()
        &&& waits_on_parent(es[t2[a].0 as int].components)
        &&& dirty_at(after, t2[a].0 as int)
        &&& t2[a].1 == es[t2[a].0 as int].components.parent.unwrap()
    } by {
        assert(t2[a] == tmp[a]);
        assert(tmp[a].0 != tmp[tmp.len() - 1].0);
    }
    assert forall|a: int, b: int| 0 <= a < b < t2.len() implies #[trigger] t2[a].0 != #[trigger] t2[b].0 by {
        assert(t2[a] == tmp[a] && t2[b] == tmp[b]);
    }
    assert forall|a: int| 0 <= a < todo.len() implies {
        &&& (#[trigger] todo[a]).0 < es.len()
        &&& waits_on_parent(es[todo[a].0 as int].components)
        &&& dirty_at(after, todo[a].0 as int)
        &&& todo[a].1 == es[todo[a].0 as int].components.parent.unwrap()
    } by {
        assert(tmp[tmp.len() - 1].0 != todo[a].0);
    }
    assert forall|a: int, b: int| 0 <= a < t2.len() && 0 <= b < todo.len() implies #[trigger] t2[a].0
        != #[trigger] todo[b].0 by {
        assert(t2[a] == tmp[a]);
    }
    assert forall|j: int| 0 <= j < es.len() && dirty_at(after, j) implies #[trigger] listed(t2, j) || listed(todo, j) by {
        assert(j != ci);
        assert(dirty_at(before, j));
        if listed(tmp, j) {
            let a = choose|a: int| 0 <= a < tmp.len() && #[trigger] tmp[a].0 == j;
            assert(a != tmp.len() - 1);
            assert(t2[a].0 == j);
        }
    }
}

/// Two positions of entities with distinct identifiers holding the same identifier are one.
proof fn lemma_same_id(es: Seq<EntityRecord>, a: int, b: int)
    requires
        ids_distinct(es),
        0 <= a < es.len(),
        0 <= b < es.len(),
        es[a].id == es[b].id,
    ensures
        a == b,
{
    if a < b {
        assert(es[a].id != es[b].id);
    } else if b < a {
        assert(es[b].id != es[a].id);
    }
}

/// Two distinct positions of entities with distinct identifiers hold distinct identifiers.
proof fn lemma_same_id_ne(es: Seq<EntityRecord>, a: int, b: int)
    requires
        ids_distinct(es),
        0 <= a < es.len(),
        0 <= b < es.len(),
        a != b,
    ensures
        es[a].id != es[b].id,
{
    if es[a].id == es[b].id {
        lemma_same_id(es, a, b);
    }
}

/// Flags that only fall keep the entries of a plan sound.
proof fn lemma_entries_fall(
    es: Seq<EntityRecord>,
    before: Seq<EntityRecord>,
    after: Seq<EntityRecord>,
    plan: Seq<(EntityId, EntityId)>,
    slots: Seq<(int, int)>,
)
    requires
        plan_entries_ok(es, before, plan, slots),
        plan_parents_clean(before, slots),
        after.len() == before.len(),
        forall|j: int| 0 <= j < es.len() && dirty_at(after, j) ==> dirty_at(before, j),
    ensures
        plan_entries_ok(es, after, plan, slots),
        plan_parents_clean(after, slots),
{
    reveal(plan_entries_ok);
    reveal(plan_parents_clean);
    assert forall|a: int| 0 <= a < slots.len() implies !dirty_at(after, (#[trigger] slots[a]).1) by {
        assert(0 <= slots[a].1 < es.len());
    }
}

/// A child still dirty has no entry in a sound plan, as a child or as a parent.
proof fn lemma_dirty_not_planned(
    es: Seq<EntityRecord>,
    before: Seq<EntityRecord>,
    plan: Seq<(EntityId, EntityId)>,
    slots: Seq<(int, int)>,
    ci: int,
)
    requires
        ids_distinct(es),
        plan_entries_ok(es, before, plan, slots),
        plan_parents_clean(before, slots),
        0 <= ci < es.len(),
        dirty_at(before, ci),
    ensures
        forall|a: int| #![trigger plan[a]] 0 <= a < plan.len() ==> (plan[a].0 != es[ci].id && plan[a].1 != es[ci].id),
{
    reveal(plan_entries_ok);
    reveal(plan_parents_clean);
    assert forall|a: int| #![trigger plan[a]] 0 <= a < plan.len() implies (plan[a].0 != es[ci].id && plan[a].1 != es[ci].id) by {
        let (i, j) = slots[a];
        assert(0 <= i < es.len() && !dirty_at(before, i) && plan[a].0 == es[i].id);
        assert(0 <= j < es.len() && !dirty_at(before, j) && plan[a].1 == es[j].id);
        if plan[a].0 == es[ci].id {
            lemma_same_id(es, i, ci);
        }
        if plan[a].1 == es[ci].id {
            lemma_same_id(es, j, ci);
        }
    }
}

/// The parent at `pi` of a child has a transform.
proof fn lemma_has_transform(es: Seq<EntityRecord>, pi: int)
    requires
        0 <= pi < es.len(),
        es[pi].components.transform is Some,
    ensures
        has_transform(es, es[pi].id),
{
    reveal(has_transform);
    assert(es[pi].id == es[pi].id && es[pi].components.transform is Some);
}

/// The parent at `pi` has no transform, and no other entity has its identifier.
proof fn lemma_no_transform(es: Seq<EntityRecord>, pi: int)
    requires
        ids_distinct(es),
        0 <= pi < es.len(),
        es[pi].components.transform is None,
    ensures
        !has_transform(es, es[pi].id),
{
    reveal(has_transform);
    if has_transform(es, es[pi].id) {
        let j = choose|j: int| 0 <= j < es.len() && #[trigger] es[j].id == es[pi].id && es[j].components.transform is Some;
        lemma_same_id(es, j, pi);
    }
}

/// Planning the cleaned child at `ci`, of the clean parent at `pi`, keeps the
/// entries sound and the planned parents clean.
proof fn lemma_entries_push(
    es: Seq<EntityRecord>,
    after: Seq<EntityRecord>,
    ci: int,
    pi: int,
    plan0: Seq<(EntityId, EntityId)>,
    plan1: Seq<(EntityId, EntityId)>,
    slots0: Seq<(int, int)>,
    slots1: Seq<(int, int)>,
)
    requires
        plan_entries_ok(es, after, plan0, slots0),
        plan_parents_clean(after, slots0),
        0 <= ci < es.len(),
        0 <= pi < es.len(),
        waits_on_parent(es[ci].components),
        !dirty_at(after, ci),
        !dirty_at(after, pi),
        es[pi].id == es[ci].components.parent.unwrap(),
        es[pi].components.transform is Some,
        plan1 == plan0.push((es[ci].id, es[pi].id)),
        slots1 == slots0.push((ci, pi)),
    ensures
        plan_entries_ok(es, after, plan1, slots1),
        plan_parents_clean(after, slots1),
{
    reveal(plan_entries_ok);
    reveal(plan_parents_clean);
    assert forall|a: int| 0 <= a < plan1.len() implies {
        let (ci, pi) = #[trigger] slots1[a];
        &&& 0 <= ci < es.len()
        &&& 0 <= pi < es.len()
        &&& plan1[a] == (es[ci].id, es[pi].id)
        &&& waits_on_parent(es[ci].components)
        &&& !dirty_at(after, ci)
        &&& es[ci].components.parent.unwrap() == es[pi].id
        &&& es[pi].components.transform is Some
    } by {
        if a < plan0.len() {
            assert(slots1[a] == slots0[a] && plan1[a] == plan0[a]);
        }
    }
    assert forall|a: int| 0 <= a < slots1.len() implies !dirty_at(after, (#[trigger] slots1[a]).1) by {
        if a < slots0.len() {
            assert(slots1[a] == slots0[a]);
        }
    }
}

/// Planning the cleaned child at `ci` keeps the plan complete.
proof fn lemma_complete_push(
    es: Seq<EntityRecord>,
    before: Seq<EntityRecord>,
    after: Seq<EntityRecord>,
    ci: int,
    plan0: Seq<(EntityId, EntityId)>,
    plan1: Seq<(EntityId, EntityId)>,
)
    requires
        plan_complete(es, before, plan0),
        0 <= ci < es.len(),
        forall|j: int| 0 <= j < es.len() && j != ci ==> (dirty_at(after, j) == dirty_at(before, j)),
        plan1 == plan0.push((es[ci].id, es[ci].components.parent.unwrap())),
    ensures
        plan_complete(es, after, plan1),
{
    reveal(plan_complete);
    assert forall|i: int|
        0 <= i < es.len() && waits_on_parent(#[trigger] es[i].components) && !dirty_at(after, i) && has_transform(
            es,
            es[i].components.parent.unwrap(),
        ) implies exists|a: int| 0 <= a < plan1.len() && #[trigger] plan1[a] == (es[i].id, es[i].components.parent.unwrap()) by {
        if i == ci {
            assert(plan1[plan0.len() as int] == (es[i].id, es[i].components.parent.unwrap()));
        } else {
            assert(!dirty_at(before, i));
            let a = choose|a: int| 0 <= a < plan0.len() && #[trigger] plan0[a] == (es[i].id, es[i].components.parent.unwrap());
            assert(plan1[a] == plan0[a]);
        }
    }
}

/// Planning a child that has no entry yet and is no one's planned parent keeps
/// the order of the plan.
proof fn lemma_order_push(plan0: Seq<(EntityId, EntityId)>, plan1: Seq<(EntityId, EntityId)>, c: EntityId, p: EntityId)
    requires
        plan_children_distinct(plan0),
        plan_parents_first(plan0),
        forall|a: int| #![trigger plan0[a]] 0 <= a < plan0.len() ==> (plan0[a].0 != c && plan0[a].1 != c),
        c != p,
        plan1 == plan0.push((c, p)),
    ensures
        plan_children_distinct(plan1),
        plan_parents_first(plan1),
{
    reveal(plan_children_distinct);
    reveal(plan_parents_first);
    assert forall|a: int, b: int| 0 <= a < b < plan1.len() implies #[trigger] plan1[a].0 != #[trigger] plan1[b].0 by {
        assert(plan1[a] == plan0[a]);
        if b < plan0.len() {
            assert(plan1[b] == plan0[b]);
        }
    }
    assert forall|a: int, b: int|
        0 <= a < plan1.len() && 0 <= b < plan1.len() && #[trigger] plan1[b].0 == #[trigger] plan1[a].1 implies b < a by {
        if a < plan0.len() {
            assert(plan1[a] == plan0[a]);
            assert(plan0[a].0 != c && plan0[a].1 != c);
            if b < plan0.len() {
                assert(plan1[b] == plan0[b]);
            }
        }
    }
}

/// Cleaning a child whose parent has no transform keeps the plan complete.
proof fn lemma_complete_quiet(es: Seq<EntityRecord>, before: Seq<EntityRecord>, after: Seq<EntityRecord>, ci: int, plan: Seq<(EntityId, EntityId)>)
    requires
        plan_complete(es, before, plan),
        0 <= ci < es.len(),
        !has_transform(es, es[ci].components.parent.unwrap()),
        forall|j: int| 0 <= j < es.len() && j != ci ==> (dirty_at(after, j) == dirty_at(before, j)),
    ensures
        plan_complete(es, after, plan),
{
    reveal(plan_complete);
    assert forall|i: int|
        0 <= i < es.len() && waits_on_parent(#[trigger] es[i].components) && !dirty_at(after, i) && has_transform(
            es,
            es[i].components.parent.unwrap(),
        ) implies exists|a: int| 0 <= a < plan.len() && #[trigger] plan[a] == (es[i].id, es[i].components.parent.unwrap()) by {
        assert(i != ci);
        assert(!dirty_at(before, i));
    }
}

/// Once no child is dirty, a sound plan is the update plan.
proof fn lemma_final_plan(es: Seq<EntityRecord>, es1: Seq<EntityRecord>, plan: Seq<(EntityId, EntityId)>, slots: Seq<(int, int)>)
    requires
        plan_ok(es, es1, plan, slots),
        forall|j: int| 0 <= j < es.len() ==> !dirty_at(es1, j),
    ensures
        is_update_plan(es, plan),
{
    reveal(plan_entries_ok);
    reveal(plan_complete);
    reveal(plan_children_distinct);
    reveal(plan_parents_first);
    assert forall|a: int| 0 <= a < plan.len() implies waited_entry(es, #[trigger] plan[a]) by {
        let (ci, pi) = slots[a];
        assert(0 <= ci < es.len() && 0 <= pi < es.len() && plan[a] == (es[ci].id, es[pi].id));
        assert(es[pi].components.transform is Some);
        lemma_has_transform(es, pi);
        assert(es[ci].id == plan[a].0);
        assert(waits_on_parent(es[ci].components) && es[ci].components.parent.unwrap() == plan[a].1);
    }
    assert forall|i: int|
        0 <= i < es.len() && waits_on_parent(#[trigger] es[i].components) && has_transform(
            es,
            es[i].components.parent.unwrap(),
        ) implies exists|a: int| 0 <= a < plan.len() && #[trigger] plan[a] == (es[i].id, es[i].components.parent.unwrap()) by {
        assert(!dirty_at(es1, i));
    }
    assert(plan_children_waited(es, plan));
    assert(plan_covers(es, plan));
    assert(forall|a: int, b: int| 0 <= a < b < plan.len() ==> #[trigger] plan[a].0 != #[trigger] plan[b].0);
    assert(forall|a: int, b: int| 0 <= a < plan.len() && 0 <= b < plan.len() && #[trigger] plan[b].0 == #[trigger] plan[a].1 ==> b < a);
}

/// The plan of nothing is sound.
proof fn lemma_empty_plan(es: Seq<EntityRecord>, es1: Seq<EntityRecord>)
    requires
        forall|j: int| 0 <= j < es.len() && waits_on_parent(#[trigger] es[j].components) ==> dirty_at(es1, j),
    ensures
        plan_ok(es, es1, Seq::empty(), Seq::empty()),
{
    reveal(plan_entries_ok);
    reveal(plan_complete);
    reveal(plan_children_distinct);
    reveal(plan_parents_first);
    reveal(plan_parents_clean);
}

/// Clears the dirty-child flag of the transform of the entity at `i`.
fn clean_child(data: &mut GameData, i: usize)
    requires
        i < old(data).entities@.len(),
    ensures
        final(data).next_id == old(data).next_id,
        final(data).resources == old(data).resources,
        final(data).entities@.len() == old(data).entities@.len(),
        forall|j: int| 0 <= j < old(data).entities@.len() && j != i ==> #[trigger] final(data).entities@[j] == old(data).entities@[j],
        final(data).entities@[i as int].id == old(data).entities@[i as int].id,
        same_but_transform(old(data).entities@[i as int].components, final(data).entities@[i as int].components),
        final(data).entities@[i as int].components.transform == cleaned(old(data).entities@[i as int].components.transform),
{
    match data.entities[i].components.transform {
        Some(t) => {
            data.entities[i].components.transform = Some(Transform { dirty_child: false, ..t });
        },
        None => {},
    }
}

/// System responsible of detecting when a transform's global coordinates should
/// be computed again because it is flagged as a dirty child (when it was added to
/// a parent). A dirty child without a parent, or whose parent has no transform, is
/// cleaned at once; one whose parent has a transform is cleaned once its parent
/// is clean. Returns, in order, the children whose global coordinates and angle
/// the renderer computes again from those of their parent.
#[verifier::rlimit(40)]
pub fn dirty_child_system(data: &mut GameData) -> (plan: Vec<(EntityId, EntityId)>)
    requires
        old(data).wf(),
        dirty_parents_alive(old(data).entities@),
        exists|rank: spec_fn(EntityId) -> nat| ranked_dirty_children(old(data).entities@, rank),
    ensures
        children_cleaned(old(data).entities@, final(data).entities@),
        is_update_plan(old(data).entities@, plan@),
        final(data).next_id == old(data).next_id,
        final(data).resources == old(data).resources,
{
    let ghost es = data.entities@;
    let ghost d0 = *data;
    let ghost rank = choose|rank: spec_fn(EntityId) -> nat| ranked_dirty_children(es, rank);
    assert(ids_distinct(es));
    let n = data.entities.len();
    let mut todo: Vec<(usize, EntityId)> = Vec::new();
    let mut i: usize = 0;
    while i < n
        invariant
            n == es.len(),
            i <= n,
            reflagged(es, data.entities@),
            forall|j: int| i <= j < n ==> #[trigger] data.entities@[j] == es[j],
            forall|j: int| 0 <= j < i ==> (dirty_at(data.entities@, j) <==> waits_on_parent(#[trigger] es[j].components)),
            todo_ok(es, data.entities@, todo@),
            forall|a: int| 0 <= a < todo@.len() ==> (#[trigger] todo@[a]).0 < i,
            forall|j: int| 0 <= j < i && dirty_at(data.entities@, j) ==> #[trigger] listed(todo@, j),
            data.next_id == d0.next_id,
            data.resources == d0.resources,
        decreases n - i,
    {
        let ghost before = data.entities@;
        let ghost todo_before = todo@;
        let mut waits = false;
        match data.entities[i].components.transform {
            Some(t) => {
                if t.dirty_child {
                    match data.entities[i].components.parent {
                        None => {
                            clean_child(data, i);
                        },
                        Some(p) => {
                            todo.push((i, p));
                            waits = true;
                        },
                    }
                }
            },
            None => {},
        }
        proof {
            assert forall|j: int| 0 <= j < n && j != i implies #[trigger] data.entities@[j] == before[j] by {}
            if waits {
                assert(todo@[todo@.len() - 1].0 == i);
                assert(listed(todo@, i as int));
            }
            assert forall|j: int| 0 <= j < i + 1 && dirty_at(data.entities@, j) implies #[trigger] listed(todo@, j) by {
                if j < i {
                    assert(dirty_at(before, j));
                    assert(listed(todo_before, j));
                    let a = choose|a: int| 0 <= a < todo_before.len() && #[trigger] todo_before[a].0 == j;
                    assert(todo@[a] == todo_before[a]);
                }
            }
        }
        i = i + 1;
    }
    assert(flags_only(es, data.entities@)) by {
        assert forall|j: int| 0 <= j < es.len() && dirty_at(data.entities@, j) implies waits_on_parent(
            #[trigger] es[j].components,
        ) by {}
    }
    let mut plan: Vec<(EntityId, EntityId)> = Vec::new();
    let ghost mut slots: Seq<(int, int)> = Seq::empty();
    proof {
        lemma_empty_plan(es, data.entities@);
        assert(plan@ == Seq::<(EntityId, EntityId)>::empty());
    }
    while todo.len() > 0
        invariant
            n == es.len(),
            ids_distinct(es),
            d0.entities@ == es,
            dirty_parents_alive(es),
            ranked_dirty_children(es, rank),
            flags_only(es, data.entities@),
            todo_ok(es, data.entities@, todo@),
            forall|j: int| 0 <= j < n && dirty_at(data.entities@, j) ==> #[trigger] listed(todo@, j),
            plan_ok(es, data.entities@, plan@, slots),
            data.next_id == d0.next_id,
            data.resources == d0.resources,
        decreases todo.len(),
    {
        let mut tmp: Vec<(usize, EntityId)> = Vec::new();
        std::mem::swap(&mut tmp, &mut todo);
        let ghost tmp0 = tmp@;
        let tmp_len0 = tmp.len();
        let ghost round_start = data.entities@;
        let mut resolved: usize = 0;
        while tmp.len() > 0
            invariant
                n == es.len(),
                ids_distinct(es),
                d0.entities@ == es,
                dirty_parents_alive(es),
                flags_only(es, data.entities@),
                todo_ok(es, data.entities@, tmp@),
                todo_ok(es, data.entities@, todo@),
                forall|a: int, b: int| 0 <= a < tmp@.len() && 0 <= b < todo@.len() ==> #[trigger] tmp@[a].0 != #[trigger] todo@[b].0,
                forall|j: int| 0 <= j < n && dirty_at(data.entities@, j) ==> #[trigger] listed(tmp@, j) || listed(todo@, j),
                plan_ok(es, data.entities@, plan@, slots),
                todo@.len() + resolved + tmp@.len() == tmp0.len(),
                tmp0.len() == tmp_len0,
                resolved == 0 ==> data.entities@ == round_start,
                resolved == 0 ==> forall|a: int| 0 <= a < todo@.len() ==> exists|j: int|
                    0 <= j < n && #[trigger] es[j].id == (#[trigger] todo@[a]).1 && dirty_at(data.entities@, j),
                data.next_id == d0.next_id,
                data.resources == d0.resources,
            decreases tmp.len(),
        {
            let ghost before = data.entities@;
            let ghost tmp_before = tmp@;
            let ghost todo_before = todo@;
            let last = tmp.pop();
            let (ci, p) = match last {
                Some(entry) => entry,
                None => (0, 0),
            };
            assert(tmp_before[tmp_before.len() - 1] == (ci, p));
            assert(tmp@ == tmp_before.drop_last());
            assert(waits_on_parent(es[ci as int].components));
            assert(data.has(p)) by {
                let j = choose|j: int| 0 <= j < es.len() && es[j].id == es[ci as int].components.parent.unwrap();
                assert(data.entities@[j].id == es[j].id);
            }
            let found = data.find(p);
            let pi = match found {
                Some(x) => x,
                None => 0,
            };
            assert(es[pi as int].id == p);
            let parent_transform = data.entities[pi].components.transform;
            match parent_transform {
                Some(pt) => {
                    if !pt.dirty_child {
                        let cid = data.entities[ci].id;
                        let ghost plan_before = plan@;
                        let ghost slots_before = slots;
                        clean_child(data, ci);
                        plan.push((cid, p));
                        proof {
                            slots = slots.push((ci as int, pi as int));
                        }
                        assert(resolved < tmp0.len());
                        resolved = resolved + 1;
                        proof {
                            lemma_cleaned(es, before, data.entities@, ci as int);
                            lemma_lists_after_clean(es, before, data.entities@, ci as int, tmp_before, todo_before);
                            lemma_dirty_not_planned(es, before, plan_before, slots_before, ci as int);
                            lemma_entries_fall(es, before, data.entities@, plan_before, slots_before);
                            lemma_entries_push(es, data.entities@, ci as int, pi as int, plan_before, plan@, slots_before, slots);
                            lemma_complete_push(es, before, data.entities@, ci as int, plan_before, plan@);
                            lemma_same_id_ne(es, ci as int, pi as int);
                            lemma_order_push(plan_before, plan@, es[ci as int].id, p);
                        }
                    } else {
                        todo.push((ci, p));
                        proof {
                            assert(todo@ == todo_before.push((ci, p)));
                            assert forall|a: int, b: int| 0 <= a < b < todo@.len() implies #[trigger] todo@[a].0
                                != #[trigger] todo@[b].0 by {
                                if b == todo@.len() - 1 {
                                    assert(todo@[a] == todo_before[a]);
                                    assert(tmp_before[tmp_before.len() - 1].0 != todo_before[a].0);
                                } else {
                                    assert(todo@[a] == todo_before[a] && todo@[b] == todo_before[b]);
                                }
                            }
                            assert forall|a: int, b: int| 0 <= a < tmp@.len() && 0 <= b < todo@.len() implies #[trigger] tmp@[a].0
                                != #[trigger] todo@[b].0 by {
                                assert(tmp@[a] == tmp_before[a]);
                                if b == todo@.len() - 1 {
                                    assert(tmp_before[a].0 != tmp_before[tmp_before.len() - 1].0);
                                } else {
                                    assert(todo@[b] == todo_before[b]);
                                }
                            }
                            assert forall|j: int| 0 <= j < n && dirty_at(data.entities@, j) implies #[trigger] listed(tmp@, j)
                                || listed(todo@, j) by {
                                if listed(tmp_before, j) {
                                    let a = choose|a: int| 0 <= a < tmp_before.len() && #[trigger] tmp_before[a].0 == j;
                                    if a == tmp_before.len() - 1 {
                                        assert(todo@[todo@.len() - 1].0 == j);
                                    } else {
                                        assert(tmp@[a].0 == j);
                                    }
                                } else {
                                    let b = choose|b: int| 0 <= b < todo_before.len() && #[trigger] todo_before[b].0 == j;
                                    assert(todo@[b].0 == j);
                                }
                            }
                            assert forall|a: int| 0 <= a < tmp@.len() implies (#[trigger] tmp@[a]).0 < es.len() by {
                                assert(tmp@[a] == tmp_before[a]);
                            }
                            if resolved == 0 {
                                assert forall|a: int| 0 <= a < todo@.len() implies exists|j: int|
                                    0 <= j < n && #[trigger] es[j].id == (#[trigger] todo@[a]).1 && dirty_at(data.entities@, j) by {
                                    if a == todo@.len() - 1 {
                                        assert(es[pi as int].id == todo@[a].1 && dirty_at(data.entities@, pi as int));
                                    } else {
                                        assert(todo@[a] == todo_before[a]);
                                    }
                                }
                            }
                        }
                    }
                },
                None => {
                    clean_child(data, ci);
                    assert(resolved < tmp0.len());
                    resolved = resolved + 1;
                    proof {
                        lemma_cleaned(es, before, data.entities@, ci as int);
                        lemma_lists_after_clean(es, before, data.entities@, ci as int, tmp_before, todo_before);
                        lemma_no_transform(es, pi as int);
                        lemma_entries_fall(es, before, data.entities@, plan@, slots);
                        lemma_complete_quiet(es, before, data.entities@, ci as int, plan@);
                    }
                },
            }
        }
        proof {
            assert forall|j: int| 0 <= j < n && dirty_at(data.entities@, j) implies #[trigger] listed(todo@, j) by {
                assert(!listed(tmp@, j));
            }
            if resolved == 0 {
                let k = lemma_least_rank(es, todo@, rank);
                let c = todo@[k].0 as int;
                let pj = choose|j: int| 0 <= j < n && #[trigger] es[j].id == todo@[k].1 && dirty_at(data.entities@, j);
                assert(waits_on_parent(es[pj].components));
                assert(listed(todo@, pj));
                assert(waits_on_parent(es[c].components));
                let b = choose|b: int| 0 <= b < todo@.len() && #[trigger] todo@[b].0 == pj;
                assert(rank(es[pj].id) < rank(es[c].id));
                assert(rank(es[c].id) <= rank(es[todo@[b].0 as int].id));
                assert(false);
            }
        }
    }
    proof {
        assert forall|j: int| 0 <= j < n implies !dirty_at(data.entities@, j) by {
            if dirty_at(data.entities@, j) {
                assert(listed(todo@, j));
            }
        }
        assert forall|i: int| 0 <= i < es.len() implies {
            &&& (#[trigger] data.entities@[i]).id == es[i].id
            &&& same_but_transform(es[i].components, data.entities@[i].components)
            &&& data.entities@[i].components.transform == cleaned(es[i].components.transform)
        } by {
            assert(!dirty_at(data.entities@, i));
        }
        lemma_final_plan(es, data.entities@, plan@, slots);
    }
    plan
}

} // verus!
