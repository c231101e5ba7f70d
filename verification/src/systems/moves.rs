//! Transforms that moved: the global values of their children follow, round
//! after round, down the hierarchy.
use vstd::prelude::*;
use crate::components::{EntityId, Transform};
use crate::systems::transform::has_transform;
use crate::world::{lemma_wf_same_ids, same_ids, Components, EntityRecord, GameData};

verus! {

/// The entity with the components `c` passes the move of its transform on to
/// its children.
pub open spec fn passes_move(c: Components) -> bool {
    &&& c.transform is Some
    &&& c.transform.unwrap().dirty
    &&& c.children is Some
}

/// The entities of `es` that pass their move on, in order, with their children.
pub open spec fn movers(es: Seq<EntityRecord>) -> Seq<(EntityId, Seq<EntityId>)>
    decreases es.len(),
{
    if es.len() == 0 {
        Seq::empty()
    } else {
        let prev = movers(es.drop_last());
        let r = es.last();
        if passes_move(r.components) {
            prev.push((r.id, r.components.children.unwrap()@))
        } else {
            prev
        }
    }
}

/// The updates, child first and parent second, of the children `cs` of `p` that
/// have a transform in `es`, in order.
pub open spec fn child_updates(es: Seq<EntityRecord>, p: EntityId, cs: Seq<EntityId>) -> Seq<(EntityId, EntityId)>
    decreases cs.len(),
{
    if cs.len() == 0 {
        Seq::empty()
    } else {
        let prev = child_updates(es, p, cs.drop_last());
        if has_transform(es, cs.last()) {
            prev.push((cs.last(), p))
        } else {
            prev
        }
    }
}

/// The updates of one round: the children of the movers `ms`, the last mover first.
pub open spec fn round_updates(es: Seq<EntityRecord>, ms: Seq<(EntityId, Seq<EntityId>)>) -> Seq<(EntityId, EntityId)>
    decreases ms.len(),
{
    if ms.len() == 0 {
        Seq::empty()
    } else {
        child_updates(es, ms.last().0, ms.last().1) + round_updates(es, ms.drop_last())
    }
}

/// The children that the updates `ups` reach.
pub open spec fn updated_ids(ups: Seq<(EntityId, EntityId)>) -> Seq<EntityId> {
    Seq::new(ups.len(), |i: int| ups[i].0)
}

/// The entity `r` once a round made the updates `ups`: its transform moved when
/// the round reached it, and not otherwise.
pub open spec fn reflagged_by(r: EntityRecord, ups: Seq<(EntityId, EntityId)>) -> EntityRecord {
    match r.components.transform {
        Some(t) => EntityRecord {
            id: r.id,
            components: Components {
                transform: Some(Transform { dirty: updated_ids(ups).contains(r.id), ..t }),
                ..r.components
            },
        },
        None => r,
    }
}

/// The entities `es`, their transforms flagged by the updates `ups`.
pub open spec fn flagged(es: Seq<EntityRecord>, ups: Seq<(EntityId, EntityId)>) -> Seq<EntityRecord> {
    Seq::new(es.len(), |k: int| reflagged_by(es[k], ups))
}

/// The entities `es` once a round passed the moves on.
pub open spec fn moved_on(es: Seq<EntityRecord>) -> Seq<EntityRecord> {
    flagged(es, round_updates(es, movers(es)))
}

/// The entities `es` after `n` rounds.
pub open spec fn after_rounds(es: Seq<EntityRecord>, n: nat) -> Seq<EntityRecord>
    decreases n,
{
    if n == 0 {
        es
    } else {
        moved_on(after_rounds(es, (n - 1) as nat))
    }
}

/// `rank` decreases from a placed parent to each of its children with a
/// transform: the hierarchy of transforms of `es` has no cycle.
pub open spec fn ranked_children(es: Seq<EntityRecord>, rank: spec_fn(EntityId) -> nat) -> bool {
    forall|k: int, i: int|
        0 <= k < es.len() && es[k].components.transform is Some && es[k].components.children is Some && 0 <= i
            < es[k].components.children.unwrap()@.len() && has_transform(
            es,
            #[trigger] es[k].components.children.unwrap()@[i],
        ) ==> rank(es[k].components.children.unwrap()@[i]) < rank(es[k].id)
}

/// One more than the highest rank of a mover of `es`; no mover, `0`.
pub open spec fn move_height(es: Seq<EntityRecord>, rank: spec_fn(EntityId) -> nat) -> nat
    decreases es.len(),
{
    if es.len() == 0 {
        0
    } else {
        let h = move_height(es.drop_last(), rank);
        let r = es.last();
        if passes_move(r.components) && rank(r.id) + 1 > h {
            rank(r.id) + 1
        } else {
            h
        }
    }
}

proof fn lemma_height_above(es: Seq<EntityRecord>, rank: spec_fn(EntityId) -> nat)
    ensures
        forall|k: int|
            0 <= k < es.len() && passes_move(#[trigger] es[k].components) ==> rank(es[k].id) + 1 <= move_height(
                es,
                rank,
            ),
    decreases es.len(),
{
    if es.len() > 0 {
        lemma_height_above(es.drop_last(), rank);
        assert forall|k: int| 0 <= k < es.len() && passes_move(#[trigger] es[k].components) implies rank(es[k].id) + 1
            <= move_height(es, rank) by {
            if k < es.len() - 1 {
                assert(es.drop_last()[k] == es[k]);
            }
        }
    }
}

proof fn lemma_height_below(es: Seq<EntityRecord>, rank: spec_fn(EntityId) -> nat, h: nat)
    requires
        forall|k: int| 0 <= k < es.len() && passes_move(#[trigger] es[k].components) ==> rank(es[k].id) + 1 <= h,
    ensures
        move_height(es, rank) <= h,
    decreases es.len(),
{
    if es.len() > 0 {
        let init = es.drop_last();
        assert forall|k: int| 0 <= k < init.len() && passes_move(#[trigger] init[k].components) implies rank(init[k].id) + 1
            <= h by {
            assert(init[k] == es[k]);
        }
        lemma_height_below(init, rank, h);
        assert(es.last() == es[es.len() - 1]);
    }
}

/// Where the mover at `j` of `es` stands among the entities.
proof fn lemma_mover_at(es: Seq<EntityRecord>, j: int) -> (k: int)
    requires
        0 <= j < movers(es).len(),
    ensures
        0 <= k < es.len(),
        es[k].id == movers(es)[j].0,
        passes_move(es[k].components),
        es[k].components.children.unwrap()@ == movers(es)[j].1,
    decreases es.len(),
{
    let init = es.drop_last();
    let prev = movers(init);
    if j < prev.len() {
        let k = lemma_mover_at(init, j);
        assert(init[k] == es[k]);
        k
    } else {
        let k = es.len() - 1;
        assert(es[k] == es.last());
        k
    }
}

/// The update at `j` of the children `cs` of `p`: a child of `cs` with a transform.
proof fn lemma_child_update_at(es: Seq<EntityRecord>, p: EntityId, cs: Seq<EntityId>, j: int) -> (i: int)
    requires
        0 <= j < child_updates(es, p, cs).len(),
    ensures
        0 <= i < cs.len(),
        cs[i] == child_updates(es, p, cs)[j].0,
        child_updates(es, p, cs)[j].1 == p,
        has_transform(es, cs[i]),
    decreases cs.len(),
{
    let init = cs.drop_last();
    let prev = child_updates(es, p, init);
    if j < prev.len() {
        let i = lemma_child_update_at(es, p, init, j);
        assert(init[i] == cs[i]);
        i
    } else {
        let i = cs.len() - 1;
        assert(cs[i] == cs.last());
        i
    }
}

/// The update at `j` of a round over the movers `ms`: a child of the mover at `m`.
proof fn lemma_update_at(es: Seq<EntityRecord>, ms: Seq<(EntityId, Seq<EntityId>)>, j: int) -> (mi: (int, int))
    requires
        0 <= j < round_updates(es, ms).len(),
    ensures
        0 <= mi.0 < ms.len(),
        0 <= mi.1 < ms[mi.0].1.len(),
        round_updates(es, ms)[j].1 == ms[mi.0].0,
        round_updates(es, ms)[j].0 == ms[mi.0].1[mi.1],
        has_transform(es, round_updates(es, ms)[j].0),
    decreases ms.len(),
{
    let init = ms.drop_last();
    let last = ms.last();
    let a = child_updates(es, last.0, last.1);
    let b = round_updates(es, init);
    assert(round_updates(es, ms) == a + b);
    if j < a.len() {
        let i = lemma_child_update_at(es, last.0, last.1, j);
        assert(ms[ms.len() - 1] == last);
        (ms.len() - 1, i)
    } else {
        let (m, i) = lemma_update_at(es, init, j - a.len());
        assert(ms[m] == init[m]);
        (m, i)
    }
}

/// Flagging the transforms keeps which entities have a transform.
proof fn lemma_flagged_transforms(es: Seq<EntityRecord>, ups: Seq<(EntityId, EntityId)>, x: EntityId)
    ensures
        has_transform(flagged(es, ups), x) == has_transform(es, x),
{
    reveal(has_transform);
    let f = flagged(es, ups);
    if has_transform(es, x) {
        let j = choose|j: int| 0 <= j < es.len() && #[trigger] es[j].id == x && es[j].components.transform is Some;
        assert(f[j].id == x);
    }
    if has_transform(f, x) {
        let j = choose|j: int| 0 <= j < f.len() && #[trigger] f[j].id == x && f[j].components.transform is Some;
        assert(es[j].id == x);
    }
}

/// A round keeps the hierarchy ranked, and lowers the height of the movers.
proof fn lemma_round_lowers(es: Seq<EntityRecord>, rank: spec_fn(EntityId) -> nat)
    requires
        ranked_children(es, rank),
        movers(es).len() > 0,
    ensures
        ranked_children(moved_on(es), rank),
        move_height(moved_on(es), rank) < move_height(es, rank),
{
    let ms = movers(es);
    let ups = round_updates(es, ms);
    let next = moved_on(es);
    lemma_height_above(es, rank);
    let h = move_height(es, rank);
    let k0 = lemma_mover_at(es, 0);
    assert(rank(es[k0].id) + 1 <= h);
    assert forall|k: int, i: int|
        0 <= k < next.len() && next[k].components.transform is Some && next[k].components.children is Some && 0 <= i
            < next[k].components.children.unwrap()@.len() && has_transform(
            next,
            #[trigger] next[k].components.children.unwrap()@[i],
        ) implies rank(next[k].components.children.unwrap()@[i]) < rank(next[k].id) by {
        lemma_flagged_transforms(es, ups, next[k].components.children.unwrap()@[i]);
        assert(es[k].components.children.unwrap()@[i] == next[k].components.children.unwrap()@[i]);
    }
    assert forall|k: int| 0 <= k < next.len() && passes_move(#[trigger] next[k].components) implies rank(next[k].id) + 1
        <= (h - 1) as nat by {
        assert(updated_ids(ups).contains(es[k].id));
        let j = choose|j: int| 0 <= j < updated_ids(ups).len() && updated_ids(ups)[j] == es[k].id;
        assert(ups[j].0 == es[k].id);
        let (m, i) = lemma_update_at(es, ms, j);
        let k2 = lemma_mover_at(es, m);
        assert(es[k2].components.children.unwrap()@[i] == es[k].id);
        assert(rank(es[k].id) < rank(es[k2].id));
        assert(rank(es[k2].id) + 1 <= h);
    }
    lemma_height_below(next, rank, (h - 1) as nat);
}

/// `es` with every transform at rest.
pub open spec fn at_rest(es: Seq<EntityRecord>) -> Seq<EntityRecord> {
    flagged(es, Seq::empty())
}

/// Takes the movers of the entities, in order, and puts every transform at rest.
fn take_movers(data: &mut GameData) -> (ms: Vec<(EntityId, Vec<EntityId>)>)
    ensures
        ms@.len() == movers(old(data).entities@).len(),
        forall|j: int|
            0 <= j < ms@.len() ==> (#[trigger] ms@[j]).0 == movers(old(data).entities@)[j].0 && ms@[j].1@ == movers(
                old(data).entities@,
            )[j].1,
        final(data).entities@ == at_rest(old(data).entities@),
        final(data).next_id == old(data).next_id,
        final(data).resources == old(data).resources,
{
    let ghost es = data.entities@;
    let mut ms: Vec<(EntityId, Vec<EntityId>)> = Vec::new();
    let n = data.entities.len();
    let mut k: usize = 0;
    while k < n
        invariant
            n == es.len(),
            k <= n,
            data.entities@.len() == n,
            forall|j: int| 0 <= j < k ==> #[trigger] data.entities@[j] == reflagged_by(es[j], Seq::empty()),
            forall|j: int| k <= j < n ==> #[trigger] data.entities@[j] == es[j],
            ms@.len() == movers(es.subrange(0, k as int)).len(),
            forall|j: int|
                0 <= j < ms@.len() ==> (#[trigger] ms@[j]).0 == movers(es.subrange(0, k as int))[j].0 && ms@[j].1@
                    == movers(es.subrange(0, k as int))[j].1,
            data.next_id == old(data).next_id,
            data.resources == old(data).resources,
        decreases n - k,
    {
        let ghost pre = es.subrange(0, k as int);
        let ghost cur = es.subrange(0, k + 1);
        assert(cur.drop_last() == pre);
        assert(cur.last() == es[k as int]);
        let ghost before = ms@;
        match data.entities[k].components.transform {
            Some(t) => {
                if t.dirty {
                    match &data.entities[k].components.children {
                        Some(ch) => {
                            let mut kids: Vec<EntityId> = Vec::new();
                            crate::world::extend_ids(&mut kids, ch);
                            ms.push((data.entities[k].id, kids));
                        },
                        None => {},
                    }
                }
                data.entities[k].components.transform = Some(Transform { dirty: false, ..t });
            },
            None => {},
        }
        assert(data.entities@[k as int] == reflagged_by(es[k as int], Seq::empty()));
        assert forall|j: int| 0 <= j < ms@.len() implies (#[trigger] ms@[j]).0 == movers(cur)[j].0 && ms@[j].1@ == movers(
            cur,
        )[j].1 by {
            if j < before.len() {
                assert(ms@[j] == before[j]);
            }
        }
        k = k + 1;
    }
    assert(es.subrange(0, n as int) == es);
    assert(data.entities@ =~= at_rest(es));
    ms
}

/// Flagging a transform the round just reached.
proof fn lemma_flag_one(
    es: Seq<EntityRecord>,
    ups: Seq<(EntityId, EntityId)>,
    u: (EntityId, EntityId),
    i: int,
)
    requires
        forall|a: int, b: int| 0 <= a < b < es.len() ==> #[trigger] es[a].id != #[trigger] es[b].id,
        0 <= i < es.len(),
        es[i].id == u.0,
        es[i].components.transform is Some,
    ensures
        flagged(es, ups.push(u)) == flagged(es, ups).update(
            i,
            EntityRecord {
                id: es[i].id,
                components: Components {
                    transform: Some(Transform { dirty: true, ..es[i].components.transform.unwrap() }),
                    ..es[i].components
                },
            },
        ),
{
    let a = flagged(es, ups.push(u));
    let b = flagged(es, ups);
    assert(updated_ids(ups.push(u)) == updated_ids(ups).push(u.0));
    assert forall|k: int| 0 <= k < es.len() && k != i implies a[k] == b[k] by {
        assert(es[k].id != u.0);
        vstd::seq_lib::lemma_seq_contains_after_push(updated_ids(ups), u.0, es[k].id);
    }
    assert(updated_ids(ups.push(u)).contains(u.0)) by {
        assert(updated_ids(ups.push(u))[ups.len() as int] == u.0);
    }
    assert(a =~= b.update(
        i,
        EntityRecord {
            id: es[i].id,
            components: Components {
                transform: Some(Transform { dirty: true, ..es[i].components.transform.unwrap() }),
                ..es[i].components
            },
        },
    ));
}

/// Passes the moves of the movers `ms` of `es` on to their children: the last
/// mover first, each child with a transform in turn. Returns the updates.
fn pass_moves(data: &mut GameData, es: Ghost<Seq<EntityRecord>>, ms: &Vec<(EntityId, Vec<EntityId>)>) -> (ups: Vec<
    (EntityId, EntityId),
>)
    requires
        old(data).wf(),
        old(data).entities@ == at_rest(es@),
        ms@.len() == movers(es@).len(),
        forall|j: int| 0 <= j < ms@.len() ==> (#[trigger] ms@[j]).0 == movers(es@)[j].0 && ms@[j].1@ == movers(es@)[j].1,
    ensures
        ups@ == round_updates(es@, movers(es@)),
        final(data).entities@ == moved_on(es@),
        final(data).next_id == old(data).next_id,
        final(data).resources == old(data).resources,
{
    let ghost mv = movers(es@);
    let ghost d0 = *data;
    let mut ups: Vec<(EntityId, EntityId)> = Vec::new();
    assert(data.entities@ =~= flagged(es@, ups@));
    let mut m: usize = ms.len();
    assert(mv.subrange(0, m as int) == mv);
    while m > 0
        invariant
            d0.entities@ == at_rest(es@),
            m <= ms@.len(),
            ms@.len() == mv.len(),
            forall|j: int| 0 <= j < ms@.len() ==> (#[trigger] ms@[j]).0 == mv[j].0 && ms@[j].1@ == mv[j].1,
            ups@ + round_updates(es@, mv.subrange(0, m as int)) == round_updates(es@, mv),
            data.entities@ == flagged(es@, ups@),
            data.entities@.len() == es@.len(),
            same_ids(d0.entities@, data.entities@),
            d0.wf(),
            data.next_id == d0.next_id,
            data.resources == d0.resources,
        decreases m,
    {
        let ghost sub = mv.subrange(0, m as int);
        assert(sub.drop_last() == mv.subrange(0, m - 1));
        assert(sub.last() == mv[m - 1]);
        let ghost ups0 = ups@;
        let p = ms[m - 1].0;
        let cs = &ms[m - 1].1;
        assert(ms@[m - 1].0 == mv[m - 1].0 && ms@[m - 1].1@ == mv[m - 1].1);
        let mut i: usize = 0;
        while i < cs.len()
            invariant
                i <= cs@.len(),
                cs@ == mv[m - 1].1,
                p == mv[m - 1].0,
                ups@ == ups0 + child_updates(es@, p, cs@.subrange(0, i as int)),
                data.entities@ == flagged(es@, ups@),
                data.entities@.len() == es@.len(),
                same_ids(d0.entities@, data.entities@),
                d0.wf(),
                d0.entities@ == at_rest(es@),
                data.next_id == d0.next_id,
                data.resources == d0.resources,
            decreases cs.len() - i,
        {
            assert(cs@.subrange(0, i + 1).drop_last() == cs@.subrange(0, i as int));
            assert(cs@.subrange(0, i + 1).last() == cs@[i as int]);
            let c = cs[i];
            let ghost before = data.entities@;
            proof {
                lemma_wf_same_ids(&d0, &*data);
            }
            match data.find(c) {
                Some(idx) => {
                    match data.entities[idx].components.transform {
                        Some(t) => {
                            assert(has_transform(es@, c)) by {
                                reveal(has_transform);
                                assert(es@[idx as int].id == c);
                            }
                            proof {
                                assert forall|a: int, b: int| 0 <= a < b < es@.len() implies #[trigger] es@[a].id
                                    != #[trigger] es@[b].id by {
                                    assert(d0.entities@[a].id == es@[a].id);
                                    assert(d0.entities@[b].id == es@[b].id);
                                }
                                assert(before[idx as int].id == es@[idx as int].id);
                                lemma_flag_one(es@, ups@, (c, p), idx as int);
                            }
                            ups.push((c, p));
                            data.entities[idx].components.transform = Some(Transform { dirty: true, ..t });
                            assert(data.entities@ =~= flagged(es@, ups@));
                        },
                        None => {
                            assert(!has_transform(es@, c)) by {
                                reveal(has_transform);
                                if has_transform(es@, c) {
                                    let j = choose|j: int|
                                        0 <= j < es@.len() && #[trigger] es@[j].id == c
                                            && es@[j].components.transform is Some;
                                    assert(before[j].id == c);
                                    assert(j == idx);
                                }
                            }
                        },
                    }
                },
                None => {
                    assert(!has_transform(es@, c)) by {
                        reveal(has_transform);
                        if has_transform(es@, c) {
                            let j = choose|j: int|
                                0 <= j < es@.len() && #[trigger] es@[j].id == c && es@[j].components.transform is Some;
                            assert(data.entities@[j].id == c);
                        }
                    }
                },
            }
            assert(ups@ == ups0 + child_updates(es@, p, cs@.subrange(0, i + 1)));
            i = i + 1;
        }
        assert(cs@.subrange(0, cs@.len() as int) == cs@);
        assert(ups@ + round_updates(es@, mv.subrange(0, m - 1)) == round_updates(es@, mv));
        m = m - 1;
    }
    assert(mv.subrange(0, 0) =~= Seq::<(EntityId, Seq<EntityId>)>::empty());
    assert(ups@ =~= round_updates(es@, mv));
    ups
}

/// System responsible of passing the moves of transforms on to their children:
/// each transform that moved and has children is put at rest, and each child
/// with a transform takes its global values again from its parent's and moves
/// in turn, round after round, until no transform moved. Returns the rounds; in
/// each, the renderer takes the global values of the parents as they stood when
/// the round began.
pub fn dirty_transform_system(data: &mut GameData) -> (rounds: Vec<Vec<(EntityId, EntityId)>>)
    requires
        old(data).wf(),
        exists|rank: spec_fn(EntityId) -> nat| ranked_children(old(data).entities@, rank),
    ensures
        forall|r: nat| r < rounds@.len() ==> #[trigger] movers(after_rounds(old(data).entities@, r)).len() > 0,
        forall|r: int|
            0 <= r < rounds@.len() ==> (#[trigger] rounds@[r])@ == round_updates(
                after_rounds(old(data).entities@, r as nat),
                movers(after_rounds(old(data).entities@, r as nat)),
            ),
        movers(after_rounds(old(data).entities@, rounds@.len())).len() == 0,
        final(data).entities@ == at_rest(after_rounds(old(data).entities@, rounds@.len())),
        final(data).wf(),
        final(data).next_id == old(data).next_id,
        final(data).resources == old(data).resources,
{
    let ghost es = data.entities@;
    let ghost d0 = *data;
    let ghost rank = choose|rank: spec_fn(EntityId) -> nat| ranked_children(es, rank);
    let mut rounds: Vec<Vec<(EntityId, EntityId)>> = Vec::new();
    loop
        invariant_except_break
            data.entities@ == after_rounds(es, rounds@.len()),
            ranked_children(data.entities@, rank),
        invariant
            same_ids(d0.entities@, data.entities@),
            d0.wf(),
            data.next_id == d0.next_id,
            data.resources == d0.resources,
            forall|r: nat| r < rounds@.len() ==> #[trigger] movers(after_rounds(es, r)).len() > 0,
            forall|r: int|
                0 <= r < rounds@.len() ==> (#[trigger] rounds@[r])@ == round_updates(
                    after_rounds(es, r as nat),
                    movers(after_rounds(es, r as nat)),
                ),
        ensures
            movers(after_rounds(es, rounds@.len())).len() == 0,
            data.entities@ == at_rest(after_rounds(es, rounds@.len())),
            same_ids(d0.entities@, data.entities@),
            d0.wf(),
            data.next_id == d0.next_id,
            data.resources == d0.resources,
            forall|r: nat| r < rounds@.len() ==> #[trigger] movers(after_rounds(es, r)).len() > 0,
            forall|r: int|
                0 <= r < rounds@.len() ==> (#[trigger] rounds@[r])@ == round_updates(
                    after_rounds(es, r as nat),
                    movers(after_rounds(es, r as nat)),
                ),
        decreases move_height(data.entities@, rank),
    {
        let ghost cur = data.entities@;
        proof {
            lemma_wf_same_ids(&d0, &*data);
        }
        let ms = take_movers(data);
        assert(same_ids(d0.entities@, data.entities@));
        if ms.len() == 0 {
            break;
        }
        proof {
            lemma_wf_same_ids(&d0, &*data);
            lemma_round_lowers(cur, rank);
        }
        let ups = pass_moves(data, Ghost(cur), &ms);
        assert(same_ids(d0.entities@, data.entities@));
        let ghost n0 = rounds@.len();
        let ghost prev_rounds = rounds@;
        assert(cur == after_rounds(es, n0));
        assert(movers(cur).len() > 0);
        assert(movers(after_rounds(es, n0)).len() > 0);
        rounds.push(ups);
        assert(after_rounds(es, (n0 + 1) as nat) == moved_on(after_rounds(es, n0)));
        assert forall|r: int|
            0 <= r < rounds@.len() implies (#[trigger] rounds@[r])@ == round_updates(
                after_rounds(es, r as nat),
                movers(after_rounds(es, r as nat)),
            ) by {
            if r < n0 {
                assert(rounds@[r] == prev_rounds[r]);
            }
        }
    }
    proof {
        lemma_wf_same_ids(&d0, &*data);
    }
    rounds
}

/// No entity of `s` passes a move on: there is no mover.
proof fn lemma_no_movers(s: Seq<EntityRecord>)
    requires
        forall|k: int| 0 <= k < s.len() ==> !passes_move(#[trigger] s[k].components),
    ensures
        movers(s).len() == 0,
    decreases s.len(),
{
    if s.len() > 0 {
        let init = s.drop_last();
        assert forall|k: int| 0 <= k < init.len() implies !passes_move(#[trigger] init[k].components) by {
            assert(init[k] == s[k]);
        }
        lemma_no_movers(init);
        assert(s.last() == s[s.len() - 1]);
    }
}

/// Once every transform is at rest, no move is left to pass on: running the
/// system again plans no round.
pub proof fn law_rest_is_final(es: Seq<EntityRecord>)
    ensures
        movers(at_rest(es)).len() == 0,
{
    let r = at_rest(es);
    assert forall|k: int| 0 <= k < r.len() implies !passes_move(#[trigger] r[k].components) by {
        assert(r[k] == reflagged_by(es[k], Seq::empty()));
        assert(updated_ids(Seq::<(EntityId, EntityId)>::empty()) =~= Seq::<EntityId>::empty());
    }
    lemma_no_movers(r);
}

} // verus!
