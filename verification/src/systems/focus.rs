//! Keyboard focus among the focusable UI components: Tab moves it forward,
//! Shift+Tab backward, Escape drops it.
use vstd::prelude::*;
use crate::components::{EntityId, UiFocusable};
use crate::inputs::{Input, KeyCode};
use crate::world::{lemma_index_of, lemma_wf_same_ids, Components, EntityRecord, FocusManager, GameData, Resources};

verus! {

/// What the focus should do in this frame.
#[derive(PartialEq, Eq, Structural, Clone, Copy, Debug)]
pub enum FocusAction {
    Stay,
    Next,
    Previous,
    Reset,
}

/// The action the inputs of this frame ask of the focus.
pub open spec fn action_of(d: &GameData) -> FocusAction {
    let inputs = d.resources.inputs;
    let tab = inputs.pressed_events@.contains(Input::Key(KeyCode::Tab));
    let shift = inputs.pressed_events@.contains(Input::Key(KeyCode::LShift));
    if (tab || shift) && inputs.shortcut_event(seq![Input::Key(KeyCode::LShift), Input::Key(KeyCode::Tab)]) {
        FocusAction::Previous
    } else if tab {
        FocusAction::Next
    } else if inputs.pressed_events@.contains(Input::Key(KeyCode::Escape)) {
        FocusAction::Reset
    } else {
        FocusAction::Stay
    }
}

/// Computes what the focus should do from the inputs of this frame.
pub fn compute_action(data: &GameData) -> (r: FocusAction)
    ensures
        r == action_of(data),
{
    let previous_focus = vec![Input::Key(KeyCode::LShift), Input::Key(KeyCode::Tab)];
    assert(previous_focus@ == seq![Input::Key(KeyCode::LShift), Input::Key(KeyCode::Tab)]);
    let inputs = &data.resources.inputs;
    if (inputs.input_pressed_event(&Input::Key(KeyCode::Tab)) || inputs.input_pressed_event(
        &Input::Key(KeyCode::LShift),
    )) && inputs.shortcut_pressed_event(&previous_focus) {
        return FocusAction::Previous;
    }
    if inputs.input_pressed_event(&Input::Key(KeyCode::Tab)) {
        return FocusAction::Next;
    }
    if inputs.input_pressed_event(&Input::Key(KeyCode::Escape)) {
        return FocusAction::Reset;
    }
    FocusAction::Stay
}

/// `i` is the first of the `n` first candidates with the lowest rank.
pub open spec fn is_first_min(cs: Seq<(EntityId, usize)>, n: int, i: int) -> bool {
    &&& 0 <= i < n <= cs.len()
    &&& forall|j: int| 0 <= j < n ==> cs[i].1 <= (#[trigger] cs[j]).1
    &&& forall|j: int| 0 <= j < i ==> (#[trigger] cs[j]).1 != cs[i].1
}

/// `i` is the first of the `n` first candidates with the highest rank.
pub open spec fn is_first_max(cs: Seq<(EntityId, usize)>, n: int, i: int) -> bool {
    &&& 0 <= i < n <= cs.len()
    &&& forall|j: int| 0 <= j < n ==> cs[i].1 >= (#[trigger] cs[j]).1
    &&& forall|j: int| 0 <= j < i ==> (#[trigger] cs[j]).1 != cs[i].1
}

/// Among the `n` first candidates ranked above `c`, `i` is the first with the lowest rank.
pub open spec fn is_first_min_above(cs: Seq<(EntityId, usize)>, n: int, c: usize, i: int) -> bool {
    &&& 0 <= i < n <= cs.len()
    &&& cs[i].1 > c
    &&& forall|j: int| 0 <= j < n && (#[trigger] cs[j]).1 > c ==> cs[i].1 <= cs[j].1
    &&& forall|j: int| 0 <= j < i && (#[trigger] cs[j]).1 > c ==> cs[j].1 != cs[i].1
}

/// Among the `n` first candidates ranked below `c`, `i` is the first with the highest rank.
pub open spec fn is_first_max_below(cs: Seq<(EntityId, usize)>, n: int, c: usize, i: int) -> bool {
    &&& 0 <= i < n <= cs.len()
    &&& cs[i].1 < c
    &&& forall|j: int| 0 <= j < n && (#[trigger] cs[j]).1 < c ==> cs[i].1 >= cs[j].1
    &&& forall|j: int| 0 <= j < i && (#[trigger] cs[j]).1 < c ==> cs[j].1 != cs[i].1
}

/// Whether Tab moves the focus forward rather than back to the lowest rank: there is a
/// focus, the first candidate is not ranked below it, and some candidate is ranked above it.
pub open spec fn moves_forward(cs: Seq<(EntityId, usize)>, current: Option<usize>) -> bool {
    &&& current is Some
    &&& cs.len() > 0
    &&& cs[0].1 >= current.unwrap()
    &&& exists|j: int| 0 <= j < cs.len() && (#[trigger] cs[j]).1 > current.unwrap()
}

/// Whether Shift+Tab moves the focus backward rather than to the highest rank: there is a
/// focus, the first candidate is not ranked above it, and some candidate is ranked below it.
pub open spec fn moves_backward(cs: Seq<(EntityId, usize)>, current: Option<usize>) -> bool {
    &&& current is Some
    &&& cs.len() > 0
    &&& cs[0].1 <= current.unwrap()
    &&& exists|j: int| 0 <= j < cs.len() && (#[trigger] cs[j]).1 < current.unwrap()
}

/// `r` is the focus that Tab gives, from the focus `current`, among the candidates `cs`.
pub open spec fn is_next_focus(cs: Seq<(EntityId, usize)>, current: Option<usize>, r: Option<(EntityId, usize)>) -> bool {
    if cs.len() == 0 {
        r is None
    } else {
        exists|i: int|
            #![trigger cs[i]]
            r == Some(cs[i]) && if moves_forward(cs, current) {
                is_first_min_above(cs, cs.len() as int, current.unwrap(), i)
            } else {
                is_first_min(cs, cs.len() as int, i)
            }
    }
}

/// `r` is the focus that Shift+Tab gives, from the focus `current`, among the candidates `cs`.
pub open spec fn is_previous_focus(cs: Seq<(EntityId, usize)>, current: Option<usize>, r: Option<(EntityId, usize)>) -> bool {
    if cs.len() == 0 {
        r is None
    } else {
        exists|i: int|
            #![trigger cs[i]]
            r == Some(cs[i]) && if moves_backward(cs, current) {
                is_first_max_below(cs, cs.len() as int, current.unwrap(), i)
            } else {
                is_first_max(cs, cs.len() as int, i)
            }
    }
}

/// The focus that Tab gives, from the focus `current_focus`, among the candidates
/// `cs` (entities with their ranks, in the order the world holds them).
pub fn next_focus_among(current_focus: Option<usize>, cs: &Vec<(EntityId, usize)>) -> (r: Option<(EntityId, usize)>)
    ensures
        is_next_focus(cs@, current_focus, r),
{
    let n = cs.len();
    if n == 0 {
        return None;
    }
    let ghost s = cs@;
    let mut min = cs[0].1;
    let mut next = cs[0].1;
    let mut min_i: usize = 0;
    let mut next_i: usize = 0;
    let mut k: usize = 1;
    while k < n
        invariant
            n == s.len(),
            s == cs@,
            1 <= k <= n,
            min_i < k,
            next_i < k,
            min == s[min_i as int].1,
            next == s[next_i as int].1,
            is_first_min(s, k as int, min_i as int),
            current_focus is None ==> next_i == 0,
            current_focus is Some && s[0].1 < current_focus.unwrap() ==> next_i == 0,
            current_focus is Some && s[0].1 >= current_focus.unwrap() && (exists|j: int|
                0 <= j < k && (#[trigger] s[j]).1 > current_focus.unwrap()) ==> is_first_min_above(
                s,
                k as int,
                current_focus.unwrap(),
                next_i as int,
            ),
            current_focus is Some && s[0].1 >= current_focus.unwrap() && !(exists|j: int|
                0 <= j < k && (#[trigger] s[j]).1 > current_focus.unwrap()) ==> next_i == 0,
        decreases n - k,
    {
        let rank = cs[k].1;
        if min > rank {
            min = rank;
            min_i = k;
        }
        if let Some(c) = current_focus {
            proof {
                if s[0].1 >= c && !(exists|j: int| 0 <= j < k && (#[trigger] s[j]).1 > c) {
                    assert(!(s[0].1 > c));
                }
            }
            if rank > c && (rank < next || c == next) {
                next = rank;
                next_i = k;
            }
            proof {
                if s[0].1 >= c && (exists|j: int| 0 <= j < k + 1 && (#[trigger] s[j]).1 > c) {
                    if !(exists|j: int| 0 <= j < k && (#[trigger] s[j]).1 > c) {
                        let j = choose|j: int| 0 <= j < k + 1 && (#[trigger] s[j]).1 > c;
                        assert(j == k);
                        assert(next_i == k);
                    }
                }
            }
        }
        k = k + 1;
    }
    match current_focus {
        None => Some(cs[min_i]),
        Some(c) => {
            if next <= c {
                proof {
                    if moves_forward(s, current_focus) {
                        assert(is_first_min_above(s, n as int, c, next_i as int));
                    }
                }
                Some(cs[min_i])
            } else {
                proof {
                    if s[0].1 < c {
                        assert(next_i == 0);
                    } else if !(exists|j: int| 0 <= j < n && (#[trigger] s[j]).1 > c) {
                        assert(next_i == 0);
                    }
                    assert(moves_forward(s, current_focus));
                }
                Some(cs[next_i])
            }
        },
    }
}

/// The focus that Shift+Tab gives, from the focus `current_focus`, among the
/// candidates `cs` (entities with their ranks, in the order the world holds them).
pub fn previous_focus_among(current_focus: Option<usize>, cs: &Vec<(EntityId, usize)>) -> (r: Option<(EntityId, usize)>)
    ensures
        is_previous_focus(cs@, current_focus, r),
{
    let n = cs.len();
    if n == 0 {
        return None;
    }
    let ghost s = cs@;
    let mut max = cs[0].1;
    let mut previous = cs[0].1;
    let mut max_i: usize = 0;
    let mut previous_i: usize = 0;
    let mut k: usize = 1;
    while k < n
        invariant
            n == s.len(),
            s == cs@,
            1 <= k <= n,
            max_i < k,
            previous_i < k,
            max == s[max_i as int].1,
            previous == s[previous_i as int].1,
            is_first_max(s, k as int, max_i as int),
            current_focus is None ==> previous_i == 0,
            current_focus is Some && s[0].1 > current_focus.unwrap() ==> previous_i == 0,
            current_focus is Some && s[0].1 <= current_focus.unwrap() && (exists|j: int|
                0 <= j < k && (#[trigger] s[j]).1 < current_focus.unwrap()) ==> is_first_max_below(
                s,
                k as int,
                current_focus.unwrap(),
                previous_i as int,
            ),
            current_focus is Some && s[0].1 <= current_focus.unwrap() && !(exists|j: int|
                0 <= j < k && (#[trigger] s[j]).1 < current_focus.unwrap()) ==> previous_i == 0,
        decreases n - k,
    {
        let rank = cs[k].1;
        if max < rank {
            max = rank;
            max_i = k;
        }
        if let Some(c) = current_focus {
            proof {
                if s[0].1 <= c && !(exists|j: int| 0 <= j < k && (#[trigger] s[j]).1 < c) {
                    assert(!(s[0].1 < c));
                }
            }
            if rank < c && (rank > previous || c == previous) {
                previous = rank;
                previous_i = k;
            }
            proof {
                if s[0].1 <= c && (exists|j: int| 0 <= j < k + 1 && (#[trigger] s[j]).1 < c) {
                    if !(exists|j: int| 0 <= j < k && (#[trigger] s[j]).1 < c) {
                        let j = choose|j: int| 0 <= j < k + 1 && (#[trigger] s[j]).1 < c;
                        assert(j == k);
                        assert(previous_i == k);
                    }
                }
            }
        }
        k = k + 1;
    }
    match current_focus {
        None => Some(cs[max_i]),
        Some(c) => {
            if previous >= c {
                proof {
                    if moves_backward(s, current_focus) {
                        assert(is_first_max_below(s, n as int, c, previous_i as int));
                    }
                }
                Some(cs[max_i])
            } else {
                proof {
                    if s[0].1 > c {
                        assert(previous_i == 0);
                    } else if !(exists|j: int| 0 <= j < n && (#[trigger] s[j]).1 < c) {
                        assert(previous_i == 0);
                    }
                    assert(moves_backward(s, current_focus));
                }
                Some(cs[previous_i])
            }
        },
    }
}

} // verus!

verus! {

/// The entity can take the focus: it is focusable and not hidden.
pub open spec fn is_candidate(r: EntityRecord) -> bool {
    &&& r.components.focusable is Some
    &&& !r.components.hide
    &&& !r.components.hide_propagated
}

/// The entities that can take the focus, with their ranks, in the order of `es`.
pub open spec fn focus_candidates(es: Seq<EntityRecord>) -> Seq<(EntityId, usize)>
    decreases es.len(),
{
    if es.len() == 0 {
        Seq::empty()
    } else {
        let prev = focus_candidates(es.drop_last());
        let r = es.last();
        if is_candidate(r) {
            prev.push((r.id, r.components.focusable.unwrap().rank))
        } else {
            prev
        }
    }
}

/// Every focus candidate is an entity that can take the focus, with its rank.
pub proof fn lemma_candidates_are_entities(es: Seq<EntityRecord>, m: int)
    requires
        0 <= m < focus_candidates(es).len(),
    ensures
        exists|i: int|
            0 <= i < es.len() && #[trigger] es[i].id == focus_candidates(es)[m].0 && is_candidate(es[i])
                && es[i].components.focusable.unwrap().rank == focus_candidates(es)[m].1,
    decreases es.len(),
{
    let prev = focus_candidates(es.drop_last());
    if m < prev.len() {
        lemma_candidates_are_entities(es.drop_last(), m);
        let i = choose|i: int|
            0 <= i < es.drop_last().len() && #[trigger] es.drop_last()[i].id == prev[m].0 && is_candidate(
                es.drop_last()[i],
            ) && es.drop_last()[i].components.focusable.unwrap().rank == prev[m].1;
        assert(es[i] == es.drop_last()[i]);
    } else {
        assert(es[es.len() - 1] == es.last());
    }
}

/// Collects the entities that can take the focus, with their ranks.
pub fn collect_focus_candidates(world: &GameData) -> (r: Vec<(EntityId, usize)>)
    ensures
        r@ == focus_candidates(world.entities@),
{
    let ghost es = world.entities@;
    let mut r: Vec<(EntityId, usize)> = Vec::new();
    let mut k: usize = 0;
    while k < world.entities.len()
        invariant
            es == world.entities@,
            k <= es.len(),
            r@ == focus_candidates(es.subrange(0, k as int)),
        decreases world.entities.len() - k,
    {
        let c = &world.entities[k].components;
        assert(es.subrange(0, k + 1).drop_last() == es.subrange(0, k as int));
        assert(es.subrange(0, k + 1).last() == es[k as int]);
        if c.focusable.is_some() && !c.hide && !c.hide_propagated {
            let rank = match c.focusable {
                Some(f) => f.rank,
                None => 0,
            };
            r.push((world.entities[k].id, rank));
        }
        k = k + 1;
    }
    assert(es.subrange(0, es.len() as int) == es);
    r
}

/// The focus that Tab gives, from the focus `current_focus`, among the visible
/// focusable entities of `world`.
pub fn retrieve_next_focus(current_focus: Option<usize>, world: &GameData) -> (r: Option<(EntityId, usize)>)
    ensures
        is_next_focus(focus_candidates(world.entities@), current_focus, r),
{
    let cs = collect_focus_candidates(world);
    next_focus_among(current_focus, &cs)
}

/// The focus that Shift+Tab gives, from the focus `current_focus`, among the
/// visible focusable entities of `world`.
pub fn retrieve_previous_focus(current_focus: Option<usize>, world: &GameData) -> (r: Option<(EntityId, usize)>)
    ensures
        is_previous_focus(focus_candidates(world.entities@), current_focus, r),
{
    let cs = collect_focus_candidates(world);
    previous_focus_among(current_focus, &cs)
}

/// The entity `r` after the focus moved to `target` from the entity `previous`:
/// the target is focused, the previously focused entity no longer is.
pub open spec fn refocused(r: EntityRecord, target: EntityId, previous: Option<EntityId>) -> EntityRecord {
    if r.id == target {
        EntityRecord {
            id: r.id,
            components: Components {
                focusable: Some(UiFocusable { focused: true, ..r.components.focusable.unwrap() }),
                ..r.components
            },
        }
    } else if previous == Some(r.id) && r.components.focusable is Some {
        EntityRecord {
            id: r.id,
            components: Components {
                focusable: Some(UiFocusable { focused: false, ..r.components.focusable.unwrap() }),
                ..r.components
            },
        }
    } else {
        r
    }
}

/// `new` is `old` after the focus was asked to go to `t`: nothing changes when there
/// is no target or when the target has the rank of the current focus.
pub open spec fn focus_moved(old: &GameData, new: &GameData, t: Option<(EntityId, usize)>) -> bool {
    let cur = old.resources.focus_manager.current;
    if t is None || (cur is Some && cur.unwrap().1 == t.unwrap().1) {
        new.entities@ == old.entities@ && new.resources == old.resources
    } else {
        &&& new.resources == (Resources {
            focus_manager: FocusManager { current: t },
            ..old.resources
        })
        &&& new.entities@.len() == old.entities@.len()
        &&& forall|k: int|
            0 <= k < old.entities@.len() ==> #[trigger] new.entities@[k] == refocused(
                old.entities@[k],
                t.unwrap().0,
                match cur {
                    Some((e, _)) => Some(e),
                    None => None,
                },
            )
    }
}

/// Marks the entity at `i`, if it is focusable, as focused or not.
fn set_focused(data: &mut GameData, i: usize, focused: bool)
    requires
        i < old(data).entities@.len(),
    ensures
        final(data).entities@.len() == old(data).entities@.len(),
        final(data).next_id == old(data).next_id,
        final(data).resources == old(data).resources,
        forall|k: int| 0 <= k < old(data).entities@.len() && k != i ==> #[trigger] final(data).entities@[k] == old(data).entities@[k],
        final(data).entities@[i as int] == (match old(data).entities@[i as int].components.focusable {
            Some(f) => EntityRecord {
                id: old(data).entities@[i as int].id,
                components: Components {
                    focusable: Some(UiFocusable { focused, ..f }),
                    ..old(data).entities@[i as int].components
                },
            },
            None => old(data).entities@[i as int],
        }),
{
    match data.entities[i].components.focusable {
        Some(f) => {
            data.entities[i].components.focusable = Some(UiFocusable { rank: f.rank, focused });
        },
        None => {},
    }
}

/// System moving the keyboard focus: Tab gives it to the next focusable entity,
/// Shift+Tab to the previous one, Escape drops it.
pub fn focus_switcher_system(data: &mut GameData)
    requires
        old(data).wf(),
    ensures
        final(data).wf(),
        final(data).next_id == old(data).next_id,
        action_of(old(data)) == FocusAction::Stay ==> final(data).entities@ == old(data).entities@
            && final(data).resources == old(data).resources,
        action_of(old(data)) == FocusAction::Reset ==> final(data).entities@ == old(data).entities@
            && final(data).resources == (Resources {
            focus_manager: FocusManager { current: None },
            ..old(data).resources
        }),
        action_of(old(data)) == FocusAction::Next ==> exists|t: Option<(EntityId, usize)>|
            is_next_focus(
                focus_candidates(old(data).entities@),
                old(data).resources.focus_manager.current_focus_index_spec(),
                t,
            ) && focus_moved(old(data), final(data), t),
        action_of(old(data)) == FocusAction::Previous ==> exists|t: Option<(EntityId, usize)>|
            is_previous_focus(
                focus_candidates(old(data).entities@),
                old(data).resources.focus_manager.current_focus_index_spec(),
                t,
            ) && focus_moved(old(data), final(data), t),
{
    let ghost d0 = *data;
    let action = compute_action(data);
    match action {
        FocusAction::Next | FocusAction::Previous => {
            let current = data.resources.focus_manager.current_focus_index();
            let new_focus = if action == FocusAction::Next {
                retrieve_next_focus(current, data)
            } else {
                retrieve_previous_focus(current, data)
            };
            match new_focus {
                Some((e, rank)) => {
                    // No need to change anything if we keep the current focus
                    if current.is_some() && current.unwrap() == rank {
                        assert(focus_moved(&d0, data, new_focus));
                        return;
                    }
                    let ghost cs = focus_candidates(d0.entities@);
                    proof {
                        if action == FocusAction::Next {
                            let i = choose|i: int|
                                #![trigger cs[i]]
                                new_focus == Some(cs[i]) && if moves_forward(cs, current) {
                                    is_first_min_above(cs, cs.len() as int, current.unwrap(), i)
                                } else {
                                    is_first_min(cs, cs.len() as int, i)
                                };
                            lemma_candidates_are_entities(d0.entities@, i);
                        } else {
                            let i = choose|i: int|
                                #![trigger cs[i]]
                                new_focus == Some(cs[i]) && if moves_backward(cs, current) {
                                    is_first_max_below(cs, cs.len() as int, current.unwrap(), i)
                                } else {
                                    is_first_max(cs, cs.len() as int, i)
                                };
                            lemma_candidates_are_entities(d0.entities@, i);
                        }
                    }
                    let current_focused = data.resources.focus_manager.current_focus_entity();
                    match current_focused {
                        Some(cf) => {
                            match data.find(cf) {
                                Some(i) => {
                                    set_focused(data, i, false);
                                },
                                None => {},
                            }
                        },
                        None => {},
                    }
                    let ghost d1 = *data;
                    let j = data.find(e);
                    match j {
                        Some(j) => {
                            set_focused(data, j, true);
                            data.resources.focus_manager.change_focus(e, rank);
                            proof {
                                let es = d0.entities@;
                                let i_t = choose|i: int|
                                    0 <= i < es.len() && #[trigger] es[i].id == e && is_candidate(es[i]);
                                lemma_index_of(&d0, e, i_t);
                                assert(d1.entities@[j as int].id == e);
                                assert(j as int == i_t);
                                assert forall|k: int| 0 <= k < es.len() implies #[trigger] data.entities@[k]
                                    == refocused(es[k], e, current_focused) by {
                                    if k != j {
                                        if current_focused is Some && es[k].id == current_focused.unwrap() {
                                        } else {
                                        }
                                    }
                                }
                                lemma_wf_same_ids(&d0, data);
                                assert(focus_moved(&d0, data, new_focus));
                            }
                        },
                        None => {
                            proof {
                                let es = d0.entities@;
                                let i_t = choose|i: int|
                                    0 <= i < es.len() && #[trigger] es[i].id == e && is_candidate(es[i]);
                                assert(d1.entities@[i_t].id == e);
                            }
                        },
                    }
                },
                None => {
                    assert(focus_moved(&d0, data, new_focus));
                },
            }
        },
        FocusAction::Reset => {
            data.resources.focus_manager.reset_focus();
        },
        FocusAction::Stay => {},
    }
}

} // verus!

verus! {

/// The components `c` hold a focused focusable.
pub open spec fn is_focused(c: Components) -> bool {
    c.focusable is Some && c.focusable.unwrap().focused
}

/// The focus manager of `d` holds the entity `id`.
pub open spec fn holds_focus(d: GameData, id: EntityId) -> bool {
    d.resources.focus_manager.current is Some && d.resources.focus_manager.current.unwrap().0 == id
}

/// Every focused focusable of `d` is the entity the focus manager holds.
pub open spec fn focus_consistent(d: GameData) -> bool {
    forall|k: int|
        0 <= k < d.entities@.len() && is_focused(#[trigger] d.entities@[k].components) ==> holds_focus(
            d,
            d.entities@[k].id,
        )
}

/// Moving the focus keeps it in one place: when every focused focusable was the
/// focus manager's entity, it still is once the focus moved, so at most one
/// focusable is focused.
pub proof fn law_single_focus(d0: GameData, d1: GameData, t: Option<(EntityId, usize)>)
    requires
        focus_consistent(d0),
        focus_moved(&d0, &d1, t),
        d1.wf(),
    ensures
        focus_consistent(d1),
        forall|a: int, b: int|
            0 <= a < d1.entities@.len() && 0 <= b < d1.entities@.len() && is_focused(
                #[trigger] d1.entities@[a].components,
            ) && is_focused(#[trigger] d1.entities@[b].components) ==> a == b,
{
    let cur = d0.resources.focus_manager.current;
    if !(t is None || (cur is Some && cur.unwrap().1 == t.unwrap().1)) {
        let previous = match cur {
            Some((e, _)) => Some(e),
            None => None,
        };
        assert forall|k: int|
            0 <= k < d1.entities@.len() && is_focused(#[trigger] d1.entities@[k].components) implies holds_focus(
            d1,
            d1.entities@[k].id,
        ) by {
            let r = d0.entities@[k];
            assert(d1.entities@[k] == refocused(r, t.unwrap().0, previous));
            if r.id != t.unwrap().0 && !(previous == Some(r.id) && r.components.focusable is Some) {
                assert(d1.entities@[k] == r);
                assert(is_focused(d0.entities@[k].components));
            }
        }
    }
    assert forall|a: int, b: int|
        0 <= a < d1.entities@.len() && 0 <= b < d1.entities@.len() && is_focused(#[trigger] d1.entities@[a].components)
            && is_focused(#[trigger] d1.entities@[b].components) implies a == b by {
        if a != b {
            assert(holds_focus(d1, d1.entities@[a].id));
            assert(holds_focus(d1, d1.entities@[b].id));
            if a < b {
                assert(d1.entities@[a].id != d1.entities@[b].id);
            } else {
                assert(d1.entities@[b].id != d1.entities@[a].id);
            }
        }
    }
}

/// Tab and Shift+Tab give the focus only to an entity of the world that is
/// focusable and visible: neither hidden itself nor hidden through a parent; the
/// rank it gets is that entity's own.
pub proof fn law_focus_goes_to_visible_focusables(
    es: Seq<EntityRecord>,
    current: Option<usize>,
    r: Option<(EntityId, usize)>,
)
    requires
        is_next_focus(focus_candidates(es), current, r) || is_previous_focus(focus_candidates(es), current, r),
        r is Some,
    ensures
        exists|i: int|
            0 <= i < es.len() && #[trigger] es[i].id == r.unwrap().0 && es[i].components.focusable is Some
                && !es[i].components.hide && !es[i].components.hide_propagated
                && es[i].components.focusable.unwrap().rank == r.unwrap().1,
{
    let cs = focus_candidates(es);
    let m = if is_next_focus(cs, current, r) {
        choose|m: int| #![trigger cs[m]] r == Some(cs[m]) && if moves_forward(cs, current) {
            is_first_min_above(cs, cs.len() as int, current.unwrap(), m)
        } else {
            is_first_min(cs, cs.len() as int, m)
        }
    } else {
        choose|m: int| #![trigger cs[m]] r == Some(cs[m]) && if moves_backward(cs, current) {
            is_first_max_below(cs, cs.len() as int, current.unwrap(), m)
        } else {
            is_first_max(cs, cs.len() as int, m)
        }
    };
    lemma_candidates_are_entities(es, m);
}

/// Every entity that is focusable and visible, neither hidden itself nor
/// through a parent, is among the focus candidates, with its rank.
pub proof fn law_visible_focusables_are_candidates(es: Seq<EntityRecord>, i: int)
    requires
        0 <= i < es.len(),
        es[i].components.focusable is Some,
        !es[i].components.hide,
        !es[i].components.hide_propagated,
    ensures
        focus_candidates(es).contains((es[i].id, es[i].components.focusable.unwrap().rank)),
    decreases es.len(),
{
    let x = (es[i].id, es[i].components.focusable.unwrap().rank);
    let prev = focus_candidates(es.drop_last());
    if i < es.len() - 1 {
        assert(es.drop_last()[i] == es[i]);
        law_visible_focusables_are_candidates(es.drop_last(), i);
        let k = choose|k: int| 0 <= k < prev.len() && prev[k] == x;
        if is_candidate(es.last()) {
            assert(focus_candidates(es)[k] == x);
        }
    } else {
        assert(es.last() == es[i]);
        assert(focus_candidates(es)[prev.len() as int] == x);
    }
}

} // verus!
