//! Buttons under the mouse: their material follows the pointer and the left
//! mouse button. Which buttons the pointer is over is a matter of coordinates,
//! which the renderer works out; the rules of the buttons are here.
use vstd::prelude::*;
use crate::components::EntityId;
use crate::inputs::{Input, MouseButton};
use crate::systems::animation::opt_material_view;
use crate::systems::assets::{change_button_material, material_after_changes};
use crate::ui::UiButton;
use crate::world::{contains_id, extend_ids, lemma_wf_same_ids, same_ids, Components, EntityRecord, GameData};

verus! {

/// What the mouse cursor becomes.
#[derive(PartialEq, Eq, Structural, Clone, Copy, Debug)]
pub enum CursorChange {
    /// The pointing hand: the mouse is over a button.
    Pointer,
    /// The usual arrow: the mouse left a hovered button.
    Default,
    /// The cursor stays as it is.
    Unchanged,
}

/// What a frame of buttons and mouse gives back to the window.
pub struct HoverOutcome {
    pub cursor: CursorChange,
    /// The buttons clicked in this frame, whose click action runs.
    pub clicked: Vec<EntityId>,
}

/// The entity with the components `c` is a button the mouse can reach: shown,
/// placed, and with its children.
pub open spec fn hoverable(c: Components) -> bool {
    &&& c.ui_button is Some
    &&& c.transform is Some
    &&& c.children is Some
    &&& !c.hide
    &&& !c.hide_propagated
}

/// The material the button `r` asks for its first child, with the list the change
/// goes to: `0` a clicked button, `1` a button at rest, `2` a hovered button.
/// `inside` tells whether the mouse is over it, `pressed` whether the left button
/// is held down.
pub open spec fn button_change(r: EntityRecord, inside: bool, pressed: bool) -> Option<(u8, (EntityId, usize, Seq<EntityId>))> {
    if !hoverable(r.components) {
        None
    } else {
        let b = r.components.ui_button.unwrap();
        let kids = r.components.children.unwrap()@;
        if inside {
            if !pressed && b.hover is Some {
                Some((2u8, (kids[0], b.hover.unwrap(), kids)))
            } else if b.clicked is Some {
                Some((0u8, (kids[0], b.clicked.unwrap(), kids)))
            } else {
                None
            }
        } else if b.background is Some {
            Some((1u8, (kids[0], b.background.unwrap(), kids)))
        } else {
            None
        }
    }
}

/// The changes of the list `g` that the buttons of `es` ask for, in order.
pub open spec fn group_changes(es: Seq<EntityRecord>, pointed: Seq<EntityId>, pressed: bool, g: u8) -> Seq<
    (EntityId, usize, Seq<EntityId>),
>
    decreases es.len(),
{
    if es.len() == 0 {
        Seq::empty()
    } else {
        let prev = group_changes(es.drop_last(), pointed, pressed, g);
        match button_change(es.last(), pointed.contains(es.last().id), pressed) {
            Some((h, c)) => if h == g {
                prev.push(c)
            } else {
                prev
            },
            None => prev,
        }
    }
}

/// All the changes, in the order they are made: clicked buttons first, then
/// buttons at rest, then hovered buttons.
pub open spec fn hover_changes(es: Seq<EntityRecord>, pointed: Seq<EntityId>, pressed: bool) -> Seq<
    (EntityId, usize, Seq<EntityId>),
> {
    group_changes(es, pointed, pressed, 0u8) + group_changes(es, pointed, pressed, 1u8) + group_changes(
        es,
        pointed,
        pressed,
        2u8,
    )
}

/// The button of the entity with the components `c` once the mouse moved: a
/// button with a hover material under the mouse, the left button up, is hovered;
/// a button away from the mouse is not.
pub open spec fn hovered_after(c: Components, inside: bool, pressed: bool) -> Option<UiButton> {
    if !hoverable(c) {
        c.ui_button
    } else {
        let b = c.ui_button.unwrap();
        if inside && !pressed && b.hover is Some {
            Some(UiButton { hovered: true, ..b })
        } else if !inside {
            Some(UiButton { hovered: false, ..b })
        } else {
            Some(b)
        }
    }
}

/// The entity `r` with its button marked as the mouse left it.
pub open spec fn hover_marked(r: EntityRecord, pointed: Seq<EntityId>, pressed: bool) -> EntityRecord {
    EntityRecord {
        id: r.id,
        components: Components {
            ui_button: hovered_after(r.components, pointed.contains(r.id), pressed),
            ..r.components
        },
    }
}

/// Some button of `es` is under the mouse.
pub open spec fn any_pointed(es: Seq<EntityRecord>, pointed: Seq<EntityId>) -> bool
    decreases es.len(),
{
    if es.len() == 0 {
        false
    } else {
        any_pointed(es.drop_last(), pointed) || (hoverable(es.last().components) && pointed.contains(es.last().id))
    }
}

/// Some hovered button of `es` is no longer under the mouse.
pub open spec fn any_left(es: Seq<EntityRecord>, pointed: Seq<EntityId>) -> bool
    decreases es.len(),
{
    if es.len() == 0 {
        false
    } else {
        any_left(es.drop_last(), pointed) || (hoverable(es.last().components) && !pointed.contains(es.last().id)
            && es.last().components.ui_button.unwrap().hovered)
    }
}

/// The cursor once the mouse moved over the buttons of `es`.
pub open spec fn cursor_after(es: Seq<EntityRecord>, pointed: Seq<EntityId>) -> CursorChange {
    if any_pointed(es, pointed) {
        CursorChange::Pointer
    } else if any_left(es, pointed) {
        CursorChange::Default
    } else {
        CursorChange::Unchanged
    }
}

/// The buttons of `es` clicked in this frame: under the mouse, with a material
/// for the click, when the left button went down (`event`).
pub open spec fn click_ids(es: Seq<EntityRecord>, pointed: Seq<EntityId>, pressed: bool, event: bool) -> Seq<EntityId>
    decreases es.len(),
{
    if es.len() == 0 {
        Seq::empty()
    } else {
        let prev = click_ids(es.drop_last(), pointed, pressed, event);
        let r = es.last();
        if event && pointed.contains(r.id) && (button_change(r, true, pressed) matches Some((g, _)) && g == 0u8) {
            prev.push(r.id)
        } else {
            prev
        }
    }
}

/// The changes held in `v`, their children taken by their identifiers.
pub open spec fn changes_view(v: Seq<(EntityId, usize, Vec<EntityId>)>) -> Seq<(EntityId, usize, Seq<EntityId>)> {
    v.map_values(|c: (EntityId, usize, Vec<EntityId>)| (c.0, c.1, c.2@))
}

proof fn lemma_changes_view_push(v: Seq<(EntityId, usize, Vec<EntityId>)>, x: (EntityId, usize, Vec<EntityId>))
    ensures
        changes_view(v.push(x)) == changes_view(v).push((x.0, x.1, x.2@)),
{
    assert(changes_view(v.push(x)) =~= changes_view(v).push((x.0, x.1, x.2@)));
}

/// Every change a button of `es` asks for has a first child and names a material
/// of the `n` materials.
pub open spec fn changes_can_be_made(es: Seq<EntityRecord>, pointed: Seq<EntityId>, pressed: bool, n: nat) -> bool {
    forall|k: int|
        0 <= k < es.len() ==> match #[trigger] button_change(es[k], pointed.contains(es[k].id), pressed) {
            Some((_, c)) => c.2.len() > 0 && c.1 < n,
            None => true,
        }
}

/// The changes of a list are changes some button asks for.
proof fn lemma_group_changes_ok(es: Seq<EntityRecord>, pointed: Seq<EntityId>, pressed: bool, g: u8, n: nat)
    requires
        changes_can_be_made(es, pointed, pressed, n),
    ensures
        forall|j: int|
            0 <= j < group_changes(es, pointed, pressed, g).len() ==> (#[trigger] group_changes(
                es,
                pointed,
                pressed,
                g,
            )[j]).2.len() > 0 && group_changes(es, pointed, pressed, g)[j].1 < n,
    decreases es.len(),
{
    if es.len() > 0 {
        let prefix = es.drop_last();
        assert forall|k: int| 0 <= k < prefix.len() implies match #[trigger] button_change(
            prefix[k],
            pointed.contains(prefix[k].id),
            pressed,
        ) {
            Some((_, c)) => c.2.len() > 0 && c.1 < n,
            None => true,
        } by {
            assert(prefix[k] == es[k]);
        }
        lemma_group_changes_ok(prefix, pointed, pressed, g, n);
        let last = es[es.len() - 1];
        assert(es.last() == last);
        let bc = button_change(last, pointed.contains(last.id), pressed);
        let gc = group_changes(es, pointed, pressed, g);
        let prev = group_changes(prefix, pointed, pressed, g);
        assert forall|j: int| 0 <= j < gc.len() implies (#[trigger] gc[j]).2.len() > 0 && gc[j].1 < n by {
            if j < prev.len() {
                assert(gc[j] == prev[j]);
            }
        }
    }
}

/// The material changes read only the identifier and the material reference of
/// an entity.
proof fn lemma_changes_read_ref(cs: Seq<(EntityId, usize, Seq<EntityId>)>, x: EntityRecord, y: EntityRecord)
    requires
        x.id == y.id,
        x.components.material_ref == y.components.material_ref,
    ensures
        material_after_changes(cs, x) == material_after_changes(cs, y),
    decreases cs.len(),
{
    if cs.len() > 0 {
        lemma_changes_read_ref(cs.drop_last(), x, y);
    }
}

/// Whether every change the buttons of `data` ask for, `pointed` listing the
/// entities under the mouse, can be made: each such button has a first child and
/// names a material of the asset manager.
pub fn can_compute_hover(data: &GameData, pointed: &Vec<EntityId>) -> (r: bool)
    ensures
        r == changes_can_be_made(
            data.entities@,
            pointed@,
            data.resources.inputs.pressed@.contains(Input::Mouse(MouseButton::Left)),
            data.resources.assets.materials@.len(),
        ),
{
    let ghost es = data.entities@;
    let ghost pressed_spec = data.resources.inputs.pressed@.contains(Input::Mouse(MouseButton::Left));
    let pressed = data.resources.inputs.input_pressed(&Input::Mouse(MouseButton::Left));
    let nmat = data.resources.assets.materials.len();
    let mut i: usize = 0;
    while i < data.entities.len()
        invariant
            i <= es.len(),
            es == data.entities@,
            pressed == pressed_spec,
            pressed_spec == data.resources.inputs.pressed@.contains(Input::Mouse(MouseButton::Left)),
            nmat == data.resources.assets.materials@.len(),
            forall|k: int|
                0 <= k < i ==> match #[trigger] button_change(es[k], pointed@.contains(es[k].id), pressed) {
                    Some((_, c)) => c.2.len() > 0 && c.1 < nmat,
                    None => true,
                },
        decreases data.entities.len() - i,
    {
        let ghost e = es[i as int];
        let ghost bc = button_change(e, pointed@.contains(e.id), pressed);
        let c = &data.entities[i].components;
        let inside = contains_id(pointed, data.entities[i].id);
        let reachable = c.ui_button.is_some() && c.transform.is_some() && c.children.is_some() && !c.hide
            && !c.hide_propagated;
        if reachable {
            let kids = match &c.children {
                Some(ch) => ch.len(),
                None => 0,
            };
            let wanted = match &c.ui_button {
                Some(b) => if inside {
                    if !pressed && b.hover.is_some() {
                        b.hover
                    } else {
                        b.clicked
                    }
                } else {
                    b.background
                },
                None => None,
            };
            match wanted {
                Some(m) => {
                    if kids == 0 || m >= nmat {
                        assert(es[i as int] == e);
                        assert(bc matches Some((_, c)) && !(c.2.len() > 0 && c.1 < nmat));
                        return false;
                    }
                },
                None => {},
            }
        }
        i = i + 1;
    }
    true
}

/// The mouse over the buttons: each shown button gives its first child the
/// material of its state, hovered, clicked or at rest, and is marked hovered or
/// not; `pointed` lists the entities under the mouse. Returns what the cursor
/// becomes and the buttons clicked in this frame.
#[verifier::rlimit(40)]
pub fn compute_hover(data: &mut GameData, pointed: &Vec<EntityId>) -> (r: HoverOutcome)
    requires
        old(data).wf(),
        changes_can_be_made(
            old(data).entities@,
            pointed@,
            old(data).resources.inputs.pressed@.contains(Input::Mouse(MouseButton::Left)),
            old(data).resources.assets.materials@.len(),
        ),
    ensures
        final(data).entities@.len() == old(data).entities@.len(),
        forall|k: int|
            0 <= k < old(data).entities@.len() ==> {
                let e0 = old(data).entities@[k];
                let e1 = #[trigger] final(data).entities@[k];
                let pressed = old(data).resources.inputs.pressed@.contains(Input::Mouse(MouseButton::Left));
                let (m, replaced) = material_after_changes(hover_changes(old(data).entities@, pointed@, pressed), e0);
                &&& e1.id == e0.id
                &&& e1.components == Components {
                    material: e1.components.material,
                    material_ref: e1.components.material_ref,
                    ui_button: hovered_after(e0.components, pointed@.contains(e0.id), pressed),
                    ..e0.components
                }
                &&& e1.components.material_ref == m
                &&& (replaced ==> opt_material_view(e1.components.material) == Some(
                    old(data).resources.assets.materials@[m.unwrap() as int]@,
                ))
                &&& (!replaced ==> e1.components.material == e0.components.material)
            },
        r.cursor == cursor_after(old(data).entities@, pointed@),
        r.clicked@ == click_ids(
            old(data).entities@,
            pointed@,
            old(data).resources.inputs.pressed@.contains(Input::Mouse(MouseButton::Left)),
            old(data).resources.inputs.pressed_events@.contains(Input::Mouse(MouseButton::Left)),
        ),
        final(data).next_id == old(data).next_id,
        final(data).resources == old(data).resources,
{
    let ghost d0 = *data;
    let ghost es = data.entities@;
    let ghost pts = pointed@;
    let ghost nmat = data.resources.assets.materials@.len();
    let pressed = data.resources.inputs.input_pressed(&Input::Mouse(MouseButton::Left));
    let event = data.resources.inputs.input_pressed_event(&Input::Mouse(MouseButton::Left));
    let mut clicked_changes: Vec<(EntityId, usize, Vec<EntityId>)> = Vec::new();
    let mut rest_changes: Vec<(EntityId, usize, Vec<EntityId>)> = Vec::new();
    let mut hovered_changes: Vec<(EntityId, usize, Vec<EntityId>)> = Vec::new();
    let mut clicked: Vec<EntityId> = Vec::new();
    let mut hover = false;
    let mut reset_hover = false;
    let n = data.entities.len();
    let mut i: usize = 0;
    while i < n
        invariant
            n == es.len(),
            i <= n,
            pts == pointed@,
            data.entities@.len() == n,
            forall|j: int| 0 <= j < i ==> #[trigger] data.entities@[j] == hover_marked(es[j], pts, pressed),
            forall|j: int| i <= j < n ==> #[trigger] data.entities@[j] == es[j],
            changes_can_be_made(es, pts, pressed, nmat),
            changes_view(clicked_changes@) == group_changes(
                es.subrange(0, i as int),
                pts,
                pressed,
                0u8,
            ),
            changes_view(rest_changes@) == group_changes(
                es.subrange(0, i as int),
                pts,
                pressed,
                1u8,
            ),
            changes_view(hovered_changes@) == group_changes(
                es.subrange(0, i as int),
                pts,
                pressed,
                2u8,
            ),
            clicked@ == click_ids(es.subrange(0, i as int), pts, pressed, event),
            hover == any_pointed(es.subrange(0, i as int), pts),
            reset_hover == any_left(es.subrange(0, i as int), pts),
            data.next_id == d0.next_id,
            data.resources == d0.resources,
        decreases n - i,
    {
        let ghost pre = es.subrange(0, i as int);
        let ghost cur = es.subrange(0, i + 1);
        assert(cur.drop_last() == pre);
        assert(cur.last() == es[i as int]);
        let ghost e = es[i as int];
        let ghost change = button_change(e, pts.contains(e.id), pressed);
        let ghost c0 = clicked_changes@;
        let ghost c1 = rest_changes@;
        let ghost c2 = hovered_changes@;
        let id = data.entities[i].id;
        let inside = contains_id(pointed, id);
        let reachable = data.entities[i].components.ui_button.is_some() && data.entities[i].components.transform.is_some()
            && data.entities[i].components.children.is_some() && !data.entities[i].components.hide
            && !data.entities[i].components.hide_propagated;
        if reachable {
            let mut kids: Vec<EntityId> = Vec::new();
            match &data.entities[i].components.children {
                Some(ch) => extend_ids(&mut kids, ch),
                None => {},
            }
            assert(kids@ == e.components.children.unwrap()@);
            let mut slot: Option<UiButton> = None;
            std::mem::swap(&mut slot, &mut data.entities[i].components.ui_button);
            let mut b = match slot {
                Some(b) => b,
                None => {
                    return HoverOutcome { cursor: CursorChange::Unchanged, clicked };
                },
            };
            if inside {
                if !pressed && b.hover.is_some() {
                    b.hovered = true;
                    let m = match b.hover {
                        Some(m) => m,
                        None => 0,
                    };
                    assert(change == Some((2u8, (kids@[0], m, kids@))));
                    let first = kids[0];
                    proof {
                        lemma_changes_view_push(c2, (first, m, kids));
                    }
                    hovered_changes.push((first, m, kids));
                } else if b.clicked.is_some() {
                    let m = match b.clicked {
                        Some(m) => m,
                        None => 0,
                    };
                    assert(change == Some((0u8, (kids@[0], m, kids@))));
                    if event {
                        clicked.push(id);
                    }
                    let first = kids[0];
                    proof {
                        lemma_changes_view_push(c0, (first, m, kids));
                    }
                    clicked_changes.push((first, m, kids));
                }
                hover = true;
            } else {
                if b.background.is_some() {
                    let m = match b.background {
                        Some(m) => m,
                        None => 0,
                    };
                    assert(change == Some((1u8, (kids@[0], m, kids@))));
                    let first = kids[0];
                    proof {
                        lemma_changes_view_push(c1, (first, m, kids));
                    }
                    rest_changes.push((first, m, kids));
                }
                if b.hovered {
                    b.hovered = false;
                    reset_hover = true;
                }
            }
            data.entities[i].components.ui_button = Some(b);
            assert(data.entities@[i as int] == hover_marked(e, pts, pressed));
        } else {
            assert(hover_marked(e, pts, pressed) == e);
        }
        i = i + 1;
    }
    assert(es.subrange(0, n as int) == es);
    let ghost mid = *data;
    assert(same_ids(d0.entities@, mid.entities@));
    proof {
        lemma_wf_same_ids(&d0, &mid);
        lemma_group_changes_ok(es, pts, pressed, 0u8, nmat);
        lemma_group_changes_ok(es, pts, pressed, 1u8, nmat);
        lemma_group_changes_ok(es, pts, pressed, 2u8, nmat);
    }
    let mut all = clicked_changes;
    all.append(&mut rest_changes);
    all.append(&mut hovered_changes);
    let ghost cs = changes_view(all@);
    assert(cs =~= hover_changes(es, pts, pressed));
    assert forall|j: int| 0 <= j < all@.len() implies (#[trigger] all@[j]).2@.len() > 0 && all@[j].1 < nmat by {
        assert(cs[j] == (all@[j].0, all@[j].1, all@[j].2@));
    }
    assert(cs =~= all@.map_values(|c: (EntityId, usize, Vec<EntityId>)| (c.0, c.1, c.2@)));
    change_button_material(data, &all);
    assert forall|k: int| 0 <= k < es.len() implies material_after_changes(cs, mid.entities@[k])
        == material_after_changes(cs, #[trigger] es[k]) by {
        lemma_changes_read_ref(cs, mid.entities@[k], es[k]);
    }
    let cursor = if hover {
        CursorChange::Pointer
    } else if reset_hover {
        CursorChange::Default
    } else {
        CursorChange::Unchanged
    };
    HoverOutcome { cursor, clicked }
}

/// The cursor becomes the pointing hand only when a shown button is under the mouse.
pub proof fn law_pointer_needs_a_pointed_button(es: Seq<EntityRecord>, pointed: Seq<EntityId>)
    ensures
        cursor_after(es, pointed) == CursorChange::Pointer ==> exists|k: int|
            0 <= k < es.len() && hoverable(#[trigger] es[k].components) && pointed.contains(es[k].id),
    decreases es.len(),
{
    if es.len() > 0 && any_pointed(es, pointed) {
        let init = es.drop_last();
        if any_pointed(init, pointed) {
            law_pointer_needs_a_pointed_button(init, pointed);
            let k = choose|k: int| 0 <= k < init.len() && hoverable(#[trigger] init[k].components) && pointed.contains(init[k].id);
            assert(es[k] == init[k]);
        } else {
            assert(es[es.len() - 1] == es.last());
        }
    }
}

} // verus!
