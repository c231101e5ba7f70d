//! User-interface entities: the markers and focus they need.
use vstd::prelude::*;
use crate::components::{fresh_transform, Color, Material, MaterialView, Transform, UiFocusable, UiImage};
use crate::systems::animation::opt_material_view;
use crate::ui::{text_set, UiText};
use crate::world::{appended, Components, EntityRecord, GameData};

verus! {

/// The user-interface components that need the `UiComponent` marker.
#[derive(PartialEq, Eq, Structural, Clone, Copy, Debug)]
pub enum UiKind {
    Image,
    TextImage,
    Text,
}

/// The components `c` hold a user-interface component of kind `kind`.
pub open spec fn has_ui_kind(c: Components, kind: UiKind) -> bool {
    match kind {
        UiKind::Image => c.ui_image is Some,
        UiKind::TextImage => c.ui_text_image is Some,
        UiKind::Text => c.ui_text is Some,
    }
}

/// Whether the components `c` hold a user-interface component of kind `kind`.
fn holds_ui_kind(c: &Components, kind: UiKind) -> (r: bool)
    ensures
        r == has_ui_kind(*c, kind),
{
    match kind {
        UiKind::Image => c.ui_image.is_some(),
        UiKind::TextImage => c.ui_text_image.is_some(),
        UiKind::Text => c.ui_text.is_some(),
    }
}

/// System responsible to add the `UiComponent` marker to any entity holding a
/// user-interface component of kind `kind` and missing it.
pub fn missing_ui_component_system(data: &mut GameData, kind: UiKind)
    ensures
        final(data).entities@.len() == old(data).entities@.len(),
        forall|k: int|
            0 <= k < old(data).entities@.len() ==> {
                &&& (#[trigger] final(data).entities@[k]).id == old(data).entities@[k].id
                &&& final(data).entities@[k].components == Components {
                    ui_component: old(data).entities@[k].components.ui_component || has_ui_kind(
                        old(data).entities@[k].components,
                        kind,
                    ),
                    ..old(data).entities@[k].components
                }
            },
        final(data).next_id == old(data).next_id,
        final(data).resources == old(data).resources,
{
    let ghost es = data.entities@;
    let n = data.entities.len();
    let mut k: usize = 0;
    while k < n
        invariant
            n == es.len(),
            data.entities@.len() == n,
            k <= n,
            forall|i: int|
                0 <= i < k ==> {
                    &&& (#[trigger] data.entities@[i]).id == es[i].id
                    &&& data.entities@[i].components == Components {
                        ui_component: es[i].components.ui_component || has_ui_kind(es[i].components, kind),
                        ..es[i].components
                    }
                },
            forall|i: int| k <= i < n ==> #[trigger] data.entities@[i] == es[i],
            data.next_id == old(data).next_id,
            data.resources == old(data).resources,
        decreases n - k,
    {
        let ghost before = data.entities@;
        if holds_ui_kind(&data.entities[k].components, kind) && !data.entities[k].components.ui_component {
            data.entities[k].components.ui_component = true;
        }
        proof {
            assert forall|i: int| 0 <= i < n && i != k implies #[trigger] data.entities@[i] == before[i] by {}
        }
        k = k + 1;
    }
}

/// The focus an input gets when it has none: its tab index as rank, unfocused.
pub open spec fn focus_of(c: Components) -> Option<UiFocusable> {
    match (c.ui_input, c.focusable) {
        (Some(input), None) => Some(UiFocusable { rank: input.tab_index, focused: false }),
        _ => c.focusable,
    }
}

/// System responsible to make each input that is not focusable focusable, with
/// its tab index as rank.
pub fn missing_focus_component_system(data: &mut GameData)
    ensures
        final(data).entities@.len() == old(data).entities@.len(),
        forall|k: int|
            0 <= k < old(data).entities@.len() ==> {
                &&& (#[trigger] final(data).entities@[k]).id == old(data).entities@[k].id
                &&& final(data).entities@[k].components == Components {
                    focusable: focus_of(old(data).entities@[k].components),
                    ..old(data).entities@[k].components
                }
            },
        final(data).next_id == old(data).next_id,
        final(data).resources == old(data).resources,
{
    let ghost es = data.entities@;
    let n = data.entities.len();
    let mut k: usize = 0;
    while k < n
        invariant
            n == es.len(),
            data.entities@.len() == n,
            k <= n,
            forall|i: int|
                0 <= i < k ==> {
                    &&& (#[trigger] data.entities@[i]).id == es[i].id
                    &&& data.entities@[i].components == Components { focusable: focus_of(es[i].components), ..es[i].components }
                },
            forall|i: int| k <= i < n ==> #[trigger] data.entities@[i] == es[i],
            data.next_id == old(data).next_id,
            data.resources == old(data).resources,
        decreases n - k,
    {
        let ghost before = data.entities@;
        if data.entities[k].components.focusable.is_none() {
            let rank = match &data.entities[k].components.ui_input {
                Some(input) => Some(input.tab_index()),
                None => None,
            };
            match rank {
                Some(r) => {
                    data.entities[k].components.focusable = Some(UiFocusable { rank: r, focused: false });
                },
                None => {},
            }
        }
        proof {
            assert forall|i: int| 0 <= i < n && i != k implies #[trigger] data.entities@[i] == before[i] by {}
        }
        k = k + 1;
    }
}

// ---------------------------------------------------------------------------
// Buttons.

/// The entity `e` is a button that has no children yet.
pub open spec fn needs_button_child(e: EntityRecord) -> bool {
    &&& e.components.ui_button is Some
    &&& e.components.transform is Some
    &&& e.components.children is None
}

/// The buttons of `es` that need a child, in order.
pub open spec fn buttons_needing_child(es: Seq<EntityRecord>) -> Seq<EntityRecord>
    decreases es.len(),
{
    if es.len() == 0 {
        Seq::empty()
    } else {
        let prev = buttons_needing_child(es.drop_last());
        if needs_button_child(es.last()) {
            prev.push(es.last())
        } else {
            prev
        }
    }
}

/// The material of the child of the button `b`: its background among the
/// materials `materials`, or a transparent black.
pub open spec fn button_material(materials: Seq<Material>, b: crate::ui::UiButton) -> MaterialView {
    match b.background {
        Some(a) => materials[a as int]@,
        None => MaterialView::Color(Color { r: 0, g: 0, b: 0, alpha_bits: 0 }),
    }
}

/// The components `c` are those of the child of the button `e`: an image of the
/// size of the button, painted with its material, and a text showing its text,
/// on the layer of the button.
pub open spec fn button_child(e: EntityRecord, materials: Seq<Material>, c: Components) -> bool {
    let b = e.components.ui_button.unwrap();
    &&& c == Components {
        material: c.material,
        parent: Some(e.id),
        transform: Some(fresh_transform(e.components.transform.unwrap().layer)),
        ui_image: Some(UiImage { width: b.width, height: b.height }),
        ui_text: Some(
            UiText {
                text: b.text,
                font_ref: b.font_ref,
                font_size: b.font_size,
                font_color: b.font_color,
                dirty: true,
                sync: None,
            },
        ),
        ..Components::empty_spec()
    }
    &&& opt_material_view(c.material) == Some(button_material(materials, b))
}

/// Every background of a button of `es` is a material of `materials`.
pub open spec fn backgrounds_known(es: Seq<EntityRecord>, materials: Seq<Material>) -> bool {
    forall|k: int|
        0 <= k < es.len() && (#[trigger] es[k]).components.ui_button is Some
            && es[k].components.ui_button.unwrap().background is Some ==> es[k].components.ui_button.unwrap().background.unwrap()
            < materials.len()
}

/// No more buttons need a child than there are entities.
proof fn lemma_buttons_needing_len(es: Seq<EntityRecord>)
    ensures
        buttons_needing_child(es).len() <= es.len(),
        forall|i: int| 0 <= i < buttons_needing_child(es).len() ==> exists|k: int| 0 <= k < es.len() && #[trigger] buttons_needing_child(es)[i] == es[k],
    decreases es.len(),
{
    if es.len() > 0 {
        lemma_buttons_needing_len(es.drop_last());
        let prev = buttons_needing_child(es.drop_last());
        assert forall|i: int| 0 <= i < buttons_needing_child(es).len() implies exists|k: int| 0 <= k < es.len() && #[trigger] buttons_needing_child(es)[i] == es[k] by {
            if i < prev.len() {
                let k = choose|k: int| 0 <= k < es.drop_last().len() && #[trigger] prev[i] == es.drop_last()[k];
                assert(es[k] == es.drop_last()[k]);
            } else {
                assert(buttons_needing_child(es)[i] == es[es.len() - 1]);
            }
        }
    }
}

/// This system is responsible of handling components needed to represent buttons:
/// it gives each button without children a child that shows it.
pub fn set_childs_on_buttons(data: &mut GameData)
    requires
        old(data).wf(),
        old(data).next_id + old(data).entities@.len() < u64::MAX,
        backgrounds_known(old(data).entities@, old(data).resources.assets.materials@),
    ensures
        ({
            let es = old(data).entities@;
            let bs = buttons_needing_child(es);
            &&& final(data).entities@.len() == es.len() + bs.len()
            &&& final(data).entities@.subrange(0, es.len() as int) == es
            &&& forall|i: int|
                0 <= i < bs.len() ==> {
                    let e = #[trigger] final(data).entities@[es.len() + i];
                    &&& e.id == old(data).next_id + i
                    &&& button_child(bs[i], old(data).resources.assets.materials@, e.components)
                }
        }),
        final(data).wf(),
        final(data).next_id == old(data).next_id + buttons_needing_child(old(data).entities@).len(),
        final(data).resources == old(data).resources,
{
    let ghost es = data.entities@;
    let ghost materials = data.resources.assets.materials@;
    let mut to_add: Vec<Components> = Vec::new();
    let n = data.entities.len();
    let mut k: usize = 0;
    while k < n
        invariant
            n == es.len(),
            es == data.entities@,
            materials == data.resources.assets.materials@,
            backgrounds_known(es, materials),
            k <= n,
            to_add@.len() == buttons_needing_child(es.subrange(0, k as int)).len(),
            forall|i: int|
                0 <= i < to_add@.len() ==> button_child(
                    buttons_needing_child(es.subrange(0, k as int))[i],
                    materials,
                    #[trigger] to_add@[i],
                ),
        decreases n - k,
    {
        let ghost pre = es.subrange(0, k as int);
        let ghost cur = es.subrange(0, k + 1);
        assert(cur.drop_last() == pre);
        assert(cur.last() == es[k as int]);
        let ghost before = to_add@;
        let r = &data.entities[k];
        if r.components.children.is_none() {
            match (&r.components.ui_button, &r.components.transform) {
                (Some(b), Some(t)) => {
                    let mut text = UiText::new(b.text.clone(), b.font_ref).with_font_size(b.font_size);
                    match b.font_color {
                        Some(color) => {
                            text = text.with_font_color(color);
                        },
                        None => {},
                    }
                    let material = match b.background {
                        Some(a) => data.resources.assets.get_material_for_ref(a),
                        None => Material::Color(Color { r: 0, g: 0, b: 0, alpha_bits: 0 }),
                    };
                    let mut c = Components::empty();
                    c.parent = Some(r.id);
                    c.transform = Some(Transform::from_layer(t.layer));
                    c.ui_image = Some(UiImage { width: b.width, height: b.height });
                    c.ui_text = Some(text);
                    c.material = Some(material);
                    to_add.push(c);
                    proof {
                        assert forall|i: int| 0 <= i < to_add@.len() implies button_child(
                            buttons_needing_child(cur)[i],
                            materials,
                            #[trigger] to_add@[i],
                        ) by {
                            if i < before.len() {
                                assert(to_add@[i] == before[i]);
                            }
                        }
                    }
                },
                _ => {},
            }
        }
        k = k + 1;
    }
    assert(es.subrange(0, n as int) == es);
    let ghost cs = to_add@;
    proof {
        lemma_buttons_needing_len(es);
    }
    data.push_all(to_add);
    proof {
        let bs = buttons_needing_child(es);
        assert(data.entities@.subrange(0, es.len() as int) =~= es);
        assert forall|i: int| 0 <= i < bs.len() implies {
            let e = #[trigger] data.entities@[es.len() + i];
            &&& e.id == old(data).next_id + i
            &&& button_child(bs[i], materials, e.components)
        } by {
            assert(data.entities@[es.len() + i].components == cs[i]);
        }
    }
}

// ---------------------------------------------------------------------------
// Texts that follow a value.

/// The text `t1` is the text `t0` once it followed the values given by `value_of`.
pub open spec fn text_followed<F: Fn(usize) -> String>(value_of: F, t0: Option<UiText>, t1: Option<UiText>) -> bool {
    match t0 {
        Some(t) => match t.sync {
            Some(key) => t1 is Some && exists|v: String| #[trigger] value_of.ensures((key,), v) && t1.unwrap()@ == text_set(t@, v@),
            None => t1 == t0,
        },
        None => t1 == t0,
    }
}

/// System responsible of setting each text that follows a value of the game to
/// that value, which `value_of` gives for the key the text holds.
pub fn sync_text_value_system<F: Fn(usize) -> String>(data: &mut GameData, value_of: F)
    requires
        forall|key: usize| value_of.requires((key,)),
    ensures
        final(data).entities@.len() == old(data).entities@.len(),
        forall|k: int|
            0 <= k < old(data).entities@.len() ==> {
                &&& (#[trigger] final(data).entities@[k]).id == old(data).entities@[k].id
                &&& final(data).entities@[k].components == Components {
                    ui_text: final(data).entities@[k].components.ui_text,
                    ..old(data).entities@[k].components
                }
                &&& text_followed(value_of, old(data).entities@[k].components.ui_text, final(data).entities@[k].components.ui_text)
            },
        final(data).next_id == old(data).next_id,
        final(data).resources == old(data).resources,
{
    let ghost es = data.entities@;
    let n = data.entities.len();
    let mut k: usize = 0;
    while k < n
        invariant
            n == es.len(),
            data.entities@.len() == n,
            k <= n,
            forall|key: usize| value_of.requires((key,)),
            forall|i: int|
                0 <= i < k ==> {
                    &&& (#[trigger] data.entities@[i]).id == es[i].id
                    &&& data.entities@[i].components == Components { ui_text: data.entities@[i].components.ui_text, ..es[i].components }
                    &&& text_followed(value_of, es[i].components.ui_text, data.entities@[i].components.ui_text)
                },
            forall|i: int| k <= i < n ==> #[trigger] data.entities@[i] == es[i],
            data.next_id == old(data).next_id,
            data.resources == old(data).resources,
        decreases n - k,
    {
        let ghost before = data.entities@;
        let mut slot: Option<UiText> = None;
        std::mem::swap(&mut slot, &mut data.entities[k].components.ui_text);
        match slot {
            Some(mut text) => {
                match text.sync {
                    Some(key) => {
                        let v = value_of(key);
                        let ghost vv = v;
                        text.set_text(v);
                        assert(value_of.ensures((key,), vv));
                    },
                    None => {},
                }
                data.entities[k].components.ui_text = Some(text);
            },
            None => {},
        }
        proof {
            assert forall|i: int| 0 <= i < n && i != k implies #[trigger] data.entities@[i] == before[i] by {}
        }
        k = k + 1;
    }
}

} // verus!
