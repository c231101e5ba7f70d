//! Parent and children links between entities.
use vstd::prelude::*;
use crate::components::EntityId;
use crate::world::{contains_id, extend_ids, same_ids, Components, EntityRecord, GameData};

verus! {

/// Some entity of `es` has the identifier `id`.
pub open spec fn has_id(es: Seq<EntityRecord>, id: EntityId) -> bool {
    exists|i: int| 0 <= i < es.len() && #[trigger] es[i].id == id
}

/// The entity `r` names a parent that is not among `es`.
pub open spec fn is_orphan(es: Seq<EntityRecord>, r: EntityRecord) -> bool {
    r.components.parent is Some && !has_id(es, r.components.parent.unwrap())
}

/// Identifiers of the entities of `es` whose parent is `p`, in order.
pub open spec fn children_of(es: Seq<EntityRecord>, p: EntityId) -> Seq<EntityId>
    decreases es.len(),
{
    if es.len() == 0 {
        Seq::empty()
    } else {
        let prev = children_of(es.drop_last(), p);
        if es.last().components.parent == Some(p) {
            prev.push(es.last().id)
        } else {
            prev
        }
    }
}

/// `cs` followed by the elements of `xs` it does not hold yet, in order.
pub open spec fn merge_children(cs: Seq<EntityId>, xs: Seq<EntityId>) -> Seq<EntityId>
    decreases xs.len(),
{
    if xs.len() == 0 {
        cs
    } else {
        let m = merge_children(cs, xs.drop_last());
        if m.contains(xs.last()) {
            m
        } else {
            m.push(xs.last())
        }
    }
}

/// The children list of `r` once the entities of `es` that name it as their parent
/// are added to it; an entity without a list gets one when some entity names it.
pub open spec fn gathered_children(es: Seq<EntityRecord>, r: EntityRecord) -> Option<Seq<EntityId>> {
    match r.components.children {
        Some(cs) => Some(merge_children(cs@, children_of(es, r.id))),
        None => if children_of(es, r.id).len() > 0 {
            Some(children_of(es, r.id))
        } else {
            None
        },
    }
}

/// The entities of `es` that are not orphans among `all`, in order.
pub open spec fn survivors(all: Seq<EntityRecord>, es: Seq<EntityRecord>) -> Seq<EntityRecord>
    decreases es.len(),
{
    if es.len() == 0 {
        Seq::empty()
    } else {
        let prev = survivors(all, es.drop_last());
        if is_orphan(all, es.last()) {
            prev
        } else {
            prev.push(es.last())
        }
    }
}

/// The elements of `cs` that are identifiers of entities of `live`, in order.
pub open spec fn live_only(cs: Seq<EntityId>, live: Seq<EntityRecord>) -> Seq<EntityId>
    decreases cs.len(),
{
    if cs.len() == 0 {
        Seq::empty()
    } else {
        let prev = live_only(cs.drop_last(), live);
        if has_id(live, cs.last()) {
            prev.push(cs.last())
        } else {
            prev
        }
    }
}

/// The components of the surviving entity `r` after the children manager ran on `es`.
pub open spec fn managed_components(es: Seq<EntityRecord>, r: EntityRecord, c: Components) -> bool {
    let g = gathered_children(es, r);
    &&& c == Components { children: c.children, ..r.components }
    &&& c.children is Some == g is Some
    &&& g is Some ==> c.children.unwrap()@ == live_only(g.unwrap(), survivors(es, es))
}

/// Two sequences of entities with the same identifiers and parents, index by index.
pub open spec fn same_links(a: Seq<EntityRecord>, b: Seq<EntityRecord>) -> bool {
    &&& a.len() == b.len()
    &&& forall|i: int| 0 <= i < a.len() ==> #[trigger] b[i].id == a[i].id && b[i].components.parent
        == a[i].components.parent
}

proof fn lemma_children_of_same_links(a: Seq<EntityRecord>, b: Seq<EntityRecord>, p: EntityId)
    requires
        same_links(a, b),
    ensures
        children_of(a, p) == children_of(b, p),
    decreases a.len(),
{
    if a.len() > 0 {
        assert(same_links(a.drop_last(), b.drop_last())) by {
            assert forall|i: int| 0 <= i < a.drop_last().len() implies #[trigger] b.drop_last()[i].id
                == a.drop_last()[i].id && b.drop_last()[i].components.parent
                == a.drop_last()[i].components.parent by {
                assert(b[i].id == a[i].id);
            }
        }
        lemma_children_of_same_links(a.drop_last(), b.drop_last(), p);
        assert(b[b.len() - 1].id == a[a.len() - 1].id);
    }
}

/// The new children list of the entity at `k`.
fn gather_children(data: &GameData, k: usize) -> (r: Option<Vec<EntityId>>)
    requires
        k < data.entities@.len(),
    ensures
        r is Some == gathered_children(data.entities@, data.entities@[k as int]) is Some,
        r is Some ==> r.unwrap()@ == gathered_children(data.entities@, data.entities@[k as int]).unwrap(),
{
    let ghost es = data.entities@;
    let id = data.entities[k].id;
    let mut merged: Vec<EntityId> = Vec::new();
    let had = match &data.entities[k].components.children {
        Some(cs) => {
            extend_ids(&mut merged, cs);
            true
        },
        None => false,
    };
    let ghost base = merged@;
    let mut j: usize = 0;
    while j < data.entities.len()
        invariant
            es == data.entities@,
            j <= es.len(),
            id == es[k as int].id,
            had == es[k as int].components.children is Some,
            had ==> merged@ == merge_children(base, children_of(es.subrange(0, j as int), id)),
            !had ==> merged@ == children_of(es.subrange(0, j as int), id),
            had ==> base == es[k as int].components.children.unwrap()@,
        decreases data.entities.len() - j,
    {
        assert(es.subrange(0, j + 1).drop_last() == es.subrange(0, j as int));
        assert(es.subrange(0, j + 1).last() == es[j as int]);
        if data.entities[j].components.parent == Some(id) {
            let x = data.entities[j].id;
            let ghost prevc = children_of(es.subrange(0, j as int), id);
            assert(prevc.push(x).drop_last() == prevc);
            if had {
                if !contains_id(&merged, x) {
                    merged.push(x);
                }
            } else {
                merged.push(x);
            }
        }
        j = j + 1;
    }
    assert(es.subrange(0, es.len() as int) == es);
    if had || merged.len() > 0 {
        Some(merged)
    } else {
        None
    }
}

/// Keeps, in order, the elements of `cs` that are identifiers of live entities.
fn keep_live(data: &GameData, cs: &Vec<EntityId>) -> (r: Vec<EntityId>)
    ensures
        r@ == live_only(cs@, data.entities@),
{
    let mut r: Vec<EntityId> = Vec::new();
    let mut i: usize = 0;
    while i < cs.len()
        invariant
            i <= cs@.len(),
            r@ == live_only(cs@.subrange(0, i as int), data.entities@),
        decreases cs.len() - i,
    {
        assert(cs@.subrange(0, i + 1).drop_last() == cs@.subrange(0, i as int));
        assert(cs@.subrange(0, i + 1).last() == cs@[i as int]);
        if data.contains(cs[i]) {
            r.push(cs[i]);
        }
        i = i + 1;
    }
    assert(cs@.subrange(0, cs@.len() as int) == cs@);
    r
}

/// The entity at `a` of `out` is the survivor at `a` once managed.
pub open spec fn managed_entry(es: Seq<EntityRecord>, surv: Seq<EntityRecord>, out: Seq<EntityRecord>, a: int) -> bool {
    &&& out[a].id == surv[a].id
    &&& managed_components(es, surv[a], out[a].components)
}

/// Identifiers of `s` are pairwise distinct.
pub open spec fn distinct_ids(s: Seq<EntityRecord>) -> bool {
    forall|i: int, j: int| 0 <= i < j < s.len() ==> #[trigger] s[i].id != #[trigger] s[j].id
}

/// `r` is `s` once its children list was gathered among `es`.
pub open spec fn gathered_form(es: Seq<EntityRecord>, s: EntityRecord, r: EntityRecord) -> bool {
    let g = gathered_children(es, s);
    &&& r.id == s.id
    &&& r.components == Components { children: r.components.children, ..s.components }
    &&& r.components.children is Some == g is Some
    &&& g is Some ==> r.components.children.unwrap()@ == g.unwrap()
}

/// The survivors are entities of `es`, and keep its identifiers distinct.
proof fn lemma_survivors_ids(all: Seq<EntityRecord>, es: Seq<EntityRecord>)
    requires
        distinct_ids(es),
    ensures
        distinct_ids(survivors(all, es)),
        forall|a: int| 0 <= a < survivors(all, es).len() ==> has_id(es, #[trigger] survivors(all, es)[a].id),
    decreases es.len(),
{
    if es.len() > 0 {
        let init = es.drop_last();
        assert(distinct_ids(init)) by {
            assert forall|i: int, j: int| 0 <= i < j < init.len() implies #[trigger] init[i].id != #[trigger] init[j].id by {
                assert(es[i].id != es[j].id);
            }
        }
        lemma_survivors_ids(all, init);
        let prev = survivors(all, init);
        assert forall|a: int| 0 <= a < prev.len() implies has_id(es, #[trigger] prev[a].id) by {
            let j = choose|j: int| 0 <= j < init.len() && #[trigger] init[j].id == prev[a].id;
            assert(es[j].id == prev[a].id);
        }
        if !is_orphan(all, es.last()) {
            let cur = survivors(all, es);
            assert(cur == prev.push(es.last()));
            assert forall|a: int| 0 <= a < prev.len() implies #[trigger] prev[a].id != es.last().id by {
                let j = choose|j: int| 0 <= j < init.len() && #[trigger] init[j].id == prev[a].id;
                assert(es[j].id != es[es.len() - 1].id);
            }
            assert forall|a: int| 0 <= a < cur.len() implies has_id(es, #[trigger] cur[a].id) by {
                if a == prev.len() {
                    assert(es[es.len() - 1].id == cur[a].id);
                } else {
                    assert(cur[a] == prev[a]);
                }
            }
            assert forall|i: int, j: int| 0 <= i < j < cur.len() implies #[trigger] cur[i].id != #[trigger] cur[j].id by {
                if j == prev.len() {
                    assert(cur[i] == prev[i]);
                } else {
                    assert(cur[i] == prev[i] && cur[j] == prev[j]);
                }
            }
        }
    }
}

/// Whether an identifier is live only depends on the identifiers of the entities.
proof fn lemma_live_only_same_ids(cs: Seq<EntityId>, a: Seq<EntityRecord>, b: Seq<EntityRecord>)
    requires
        same_ids(a, b),
    ensures
        live_only(cs, a) == live_only(cs, b),
    decreases cs.len(),
{
    if cs.len() > 0 {
        lemma_live_only_same_ids(cs.drop_last(), a, b);
        let x = cs.last();
        if has_id(a, x) {
            let i = choose|i: int| 0 <= i < a.len() && #[trigger] a[i].id == x;
            assert(b[i].id == x);
        }
        if has_id(b, x) {
            let i = choose|i: int| 0 <= i < b.len() && #[trigger] b[i].id == x;
            assert(a[i].id == x);
        }
    }
}

/// System responsible to add or modify `Children` components of the entities
/// referenced by a `Parent` component. If the parent referenced is not found, the
/// child entity is deleted. A `Children` component that references entities that
/// no longer exist drops these references.
pub fn children_manager_system(data: &mut GameData)
    requires
        old(data).wf(),
    ensures
        final(data).wf(),
        final(data).next_id == old(data).next_id,
        final(data).resources == old(data).resources,
        final(data).entities@.len() == survivors(old(data).entities@, old(data).entities@).len(),
        forall|k: int|
            0 <= k < final(data).entities@.len() ==> #[trigger] managed_entry(
                old(data).entities@,
                survivors(old(data).entities@, old(data).entities@),
                final(data).entities@,
                k,
            ),
{
    let ghost es = data.entities@;
    let ghost d0 = *data;
    let n = data.entities.len();
    // Which entities lost their parent.
    let mut orphans: Vec<bool> = Vec::new();
    let mut k: usize = 0;
    while k < n
        invariant
            n == es.len(),
            es == data.entities@,
            d0 == *data,
            k <= n,
            orphans@.len() == k,
            forall|m: int| 0 <= m < k ==> orphans@[m] == is_orphan(es, #[trigger] es[m]),
        decreases n - k,
    {
        let flag = match data.entities[k].components.parent {
            Some(p) => !data.contains(p),
            None => false,
        };
        orphans.push(flag);
        k = k + 1;
    }
    // Gather the children of each entity.
    let mut k: usize = 0;
    while k < n
        invariant
            n == es.len(),
            data.entities@.len() == n,
            k <= n,
            orphans@.len() == n,
            forall|m: int| 0 <= m < n ==> orphans@[m] == is_orphan(es, #[trigger] es[m]),
            same_links(es, data.entities@),
            forall|m: int| 0 <= m < k ==> gathered_form(es, es[m], #[trigger] data.entities@[m]),
            forall|m: int| k <= m < n ==> #[trigger] data.entities@[m] == es[m],
            data.next_id == d0.next_id,
            data.resources == d0.resources,
        decreases n - k,
    {
        let g = gather_children(data, k);
        proof {
            lemma_children_of_same_links(es, data.entities@, es[k as int].id);
        }
        data.entities[k].components.children = g;
        k = k + 1;
    }
    // Remove the orphans.
    let mut rest: Vec<EntityRecord> = Vec::new();
    std::mem::swap(&mut rest, &mut data.entities);
    let ghost gathered = rest@;
    let mut kept: Vec<EntityRecord> = Vec::new();
    let mut k: usize = 0;
    while k < n
        invariant
            n == es.len(),
            gathered.len() == n,
            k <= n,
            rest@ == gathered.subrange(k as int, n as int),
            orphans@.len() == n,
            forall|m: int| 0 <= m < n ==> orphans@[m] == is_orphan(es, #[trigger] es[m]),
            forall|m: int| 0 <= m < n ==> gathered_form(es, es[m], #[trigger] gathered[m]),
            kept@.len() == survivors(es, es.subrange(0, k as int)).len(),
            forall|a: int|
                0 <= a < kept@.len() ==> gathered_form(
                    es,
                    #[trigger] survivors(es, es.subrange(0, k as int))[a],
                    kept@[a],
                ),
        decreases n - k,
    {
        let r = rest.remove(0);
        assert(r == gathered[k as int]);
        assert(es.subrange(0, k + 1).drop_last() == es.subrange(0, k as int));
        assert(es.subrange(0, k + 1).last() == es[k as int]);
        assert(rest@ == gathered.subrange(k + 1, n as int));
        if !orphans[k] {
            kept.push(r);
        }
        k = k + 1;
    }
    assert(es.subrange(0, n as int) == es);
    let ghost surv = survivors(es, es);
    proof {
        assert(distinct_ids(es)) by {
            assert forall|i: int, j: int| 0 <= i < j < es.len() implies #[trigger] es[i].id != #[trigger] es[j].id by {
                assert(d0.entities@[i].id != d0.entities@[j].id);
            }
        }
        lemma_survivors_ids(es, es);
    }
    data.entities = kept;
    // Drop the references to entities that no longer exist.
    let m = data.entities.len();
    let mut k: usize = 0;
    while k < m
        invariant
            surv == survivors(es, es),
            m == surv.len(),
            data.entities@.len() == m,
            k <= m,
            same_ids(surv, data.entities@),
            forall|a: int| 0 <= a < k ==> #[trigger] managed_entry(es, surv, data.entities@, a),
            forall|a: int| k <= a < m ==> gathered_form(es, surv[a], #[trigger] data.entities@[a]),
            data.next_id == d0.next_id,
            data.resources == d0.resources,
        decreases m - k,
    {
        let fresh = match &data.entities[k].components.children {
            Some(cs) => Some(keep_live(data, cs)),
            None => None,
        };
        proof {
            if data.entities@[k as int].components.children is Some {
                lemma_live_only_same_ids(
                    data.entities@[k as int].components.children.unwrap()@,
                    data.entities@,
                    surv,
                );
            }
        }
        let ghost before = data.entities@;
        data.entities[k].components.children = fresh;
        proof {
            assert(gathered_form(es, surv[k as int], before[k as int]));
            assert(data.entities@[k as int].id == surv[k as int].id);
            assert(managed_components(es, surv[k as int], data.entities@[k as int].components));
            assert forall|a: int| 0 <= a < k + 1 implies #[trigger] managed_entry(es, surv, data.entities@, a) by {
                if a < k {
                    assert(data.entities@[a] == before[a]);
                    assert(managed_entry(es, surv, before, a));
                }
            }
        }
        k = k + 1;
    }
    proof {
        assert forall|a: int, b: int|
            0 <= a < b < data.entities@.len() implies #[trigger] data.entities@[a].id
                != #[trigger] data.entities@[b].id by {
            assert(surv[a].id != surv[b].id);
        }
        assert forall|a: int| 0 <= a < data.entities@.len() implies #[trigger] data.entities@[a].id
            < data.next_id by {
            assert(has_id(es, surv[a].id));
            let j = choose|j: int| 0 <= j < es.len() && #[trigger] es[j].id == surv[a].id;
            assert(d0.entities@[j].id < d0.next_id);
        }
    }
}

/// Each survivor is an entity of `es` that is no orphan.
proof fn lemma_survivors_from(all: Seq<EntityRecord>, es: Seq<EntityRecord>, a: int)
    requires
        0 <= a < survivors(all, es).len(),
    ensures
        exists|j: int| 0 <= j < es.len() && es[j] == #[trigger] survivors(all, es)[a] && !is_orphan(all, es[j]),
    decreases es.len(),
{
    let prev = survivors(all, es.drop_last());
    if a < prev.len() {
        lemma_survivors_from(all, es.drop_last(), a);
        let j = choose|j: int|
            0 <= j < es.drop_last().len() && es.drop_last()[j] == #[trigger] prev[a] && !is_orphan(all, es.drop_last()[j]);
        assert(es[j] == es.drop_last()[j]);
    } else {
        assert(es[es.len() - 1] == es.last());
    }
}

/// Every identifier `live_only` keeps is the identifier of a live entity.
proof fn lemma_live_only_live(cs: Seq<EntityId>, live: Seq<EntityRecord>, x: EntityId)
    ensures
        live_only(cs, live).contains(x) ==> has_id(live, x),
        (cs.contains(x) && has_id(live, x)) ==> live_only(cs, live).contains(x),
    decreases cs.len(),
{
    if cs.len() > 0 {
        lemma_live_only_live(cs.drop_last(), live, x);
        let prev = live_only(cs.drop_last(), live);
        vstd::seq_lib::lemma_seq_contains_after_push(prev, cs.last(), x);
        if cs.contains(x) {
            let i = choose|i: int| 0 <= i < cs.len() && cs[i] == x;
            if i < cs.len() - 1 {
                assert(cs.drop_last()[i] == x);
            }
        }
    }
}

/// The identifier of each entity of `es` whose parent is `p` is among the children of `p`.
proof fn lemma_children_of_has(es: Seq<EntityRecord>, p: EntityId, j: int)
    requires
        0 <= j < es.len(),
        es[j].components.parent == Some(p),
    ensures
        children_of(es, p).contains(es[j].id),
    decreases es.len(),
{
    let prev = children_of(es.drop_last(), p);
    if j == es.len() - 1 {
        assert(children_of(es, p) == prev.push(es[j].id));
        assert(children_of(es, p)[prev.len() as int] == es[j].id);
    } else {
        assert(es.drop_last()[j] == es[j]);
        lemma_children_of_has(es.drop_last(), p, j);
        vstd::seq_lib::lemma_seq_contains_after_push(prev, es.last().id, es[j].id);
    }
}

/// Merging keeps every identifier merged in.
proof fn lemma_merge_has(cs: Seq<EntityId>, xs: Seq<EntityId>, x: EntityId)
    requires
        xs.contains(x),
    ensures
        merge_children(cs, xs).contains(x),
    decreases xs.len(),
{
    let m = merge_children(cs, xs.drop_last());
    vstd::seq_lib::lemma_seq_contains_after_push(m, xs.last(), x);
    if xs.last() != x {
        let i = choose|i: int| 0 <= i < xs.len() && xs[i] == x;
        assert(xs.drop_last()[i] == x);
        lemma_merge_has(cs, xs.drop_last(), x);
    }
}

/// Once the children manager ran, a `Children` list only names entities that exist.
pub proof fn law_children_are_alive(before: Seq<EntityRecord>, after: Seq<EntityRecord>, k: int, x: EntityId)
    requires
        after.len() == survivors(before, before).len(),
        forall|i: int| 0 <= i < after.len() ==> #[trigger] managed_entry(before, survivors(before, before), after, i),
        0 <= k < after.len(),
        after[k].components.children is Some,
        after[k].components.children.unwrap()@.contains(x),
    ensures
        exists|i: int| 0 <= i < after.len() && #[trigger] after[i].id == x,
{
    let surv = survivors(before, before);
    assert(managed_entry(before, surv, after, k));
    let g = gathered_children(before, surv[k]);
    lemma_live_only_live(g.unwrap(), surv, x);
    let i = choose|i: int| 0 <= i < surv.len() && #[trigger] surv[i].id == x;
    assert(managed_entry(before, surv, after, i));
}

/// Once the children manager ran, each entity whose parent exists is listed
/// among the children of its parent.
pub proof fn law_child_is_listed(before: Seq<EntityRecord>, after: Seq<EntityRecord>, c: int, p: int)
    requires
        after.len() == survivors(before, before).len(),
        forall|i: int| 0 <= i < after.len() ==> #[trigger] managed_entry(before, survivors(before, before), after, i),
        0 <= c < after.len(),
        0 <= p < after.len(),
        after[c].components.parent == Some(after[p].id),
    ensures
        after[p].components.children is Some,
        after[p].components.children.unwrap()@.contains(after[c].id),
{
    let surv = survivors(before, before);
    assert(managed_entry(before, surv, after, c));
    assert(managed_entry(before, surv, after, p));
    lemma_survivors_from(before, before, c);
    lemma_survivors_from(before, before, p);
    let jc = choose|j: int| 0 <= j < before.len() && before[j] == #[trigger] surv[c] && !is_orphan(before, before[j]);
    let jp = choose|j: int| 0 <= j < before.len() && before[j] == #[trigger] surv[p] && !is_orphan(before, before[j]);
    let pid = after[p].id;
    assert(before[jc].components.parent == Some(pid));
    lemma_children_of_has(before, pid, jc);
    let xs = children_of(before, pid);
    match surv[p].components.children {
        Some(cs) => {
            lemma_merge_has(cs@, xs, before[jc].id);
        },
        None => {
            assert(xs.len() > 0);
        },
    }
    let g = gathered_children(before, surv[p]).unwrap();
    assert(has_id(surv, after[c].id)) by {
        assert(surv[c].id == after[c].id);
    }
    lemma_live_only_live(g, surv, after[c].id);
}

} // verus!
