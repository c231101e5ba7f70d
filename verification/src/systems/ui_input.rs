//! Text inputs: their text child, the keys typed into the focused one, and the
//! text they show.
use vstd::prelude::*;
use crate::components::{fresh_transform, EntityId, Transform};
use crate::inputs::{Input, KeyCode};
use crate::ui::{UiInput, UiText};
use crate::text::char_text;
use crate::world::{appended, Components, EntityRecord, GameData};

verus! {

/// The entity `e` is an input that has no text child yet.
pub open spec fn needs_text_child(e: EntityRecord) -> bool {
    &&& e.components.ui_input is Some
    &&& e.components.transform is Some
    &&& e.components.children is None
}

/// The text child of the input `e`: a text on the layer of the input that shows
/// its text, in its font, size and color.
pub open spec fn input_text_child(e: EntityRecord) -> Components {
    let input = e.components.ui_input.unwrap();
    Components {
        parent: Some(e.id),
        transform: Some(fresh_transform(e.components.transform.unwrap().layer)),
        ui_text: Some(
            UiText {
                text: input.text,
                font_ref: input.font_ref,
                font_size: input.font_size,
                font_color: input.font_color,
                dirty: true,
                sync: None,
            },
        ),
        ..Components::empty_spec()
    }
}

/// The text children the inputs of `es` need, in order.
pub open spec fn input_text_children(es: Seq<EntityRecord>) -> Seq<Components>
    decreases es.len(),
{
    if es.len() == 0 {
        Seq::empty()
    } else {
        let prev = input_text_children(es.drop_last());
        if needs_text_child(es.last()) {
            prev.push(input_text_child(es.last()))
        } else {
            prev
        }
    }
}

/// No more text children are needed than there are entities.
proof fn lemma_input_text_children_len(es: Seq<EntityRecord>)
    ensures
        input_text_children(es).len() <= es.len(),
    decreases es.len(),
{
    if es.len() > 0 {
        lemma_input_text_children_len(es.drop_last());
    }
}

/// This system is responsible of handling components needed to represent a ui
/// input: it gives each input without children a text child.
pub fn set_childs_on_inputs(data: &mut GameData)
    requires
        old(data).wf(),
        old(data).next_id + old(data).entities@.len() < u64::MAX,
    ensures
        final(data).wf(),
        final(data).entities@ == appended(
            old(data).entities@,
            input_text_children(old(data).entities@),
            old(data).next_id,
        ),
        final(data).next_id == old(data).next_id + input_text_children(old(data).entities@).len(),
        final(data).resources == old(data).resources,
{
    let ghost es = data.entities@;
    let mut to_add: Vec<Components> = Vec::new();
    let n = data.entities.len();
    let mut k: usize = 0;
    while k < n
        invariant
            n == es.len(),
            es == data.entities@,
            k <= n,
            to_add@ == input_text_children(es.subrange(0, k as int)),
        decreases n - k,
    {
        assert(es.subrange(0, k + 1).drop_last() == es.subrange(0, k as int));
        assert(es.subrange(0, k + 1).last() == es[k as int]);
        let r = &data.entities[k];
        if r.components.children.is_none() {
            match (&r.components.ui_input, &r.components.transform) {
                (Some(input), Some(t)) => {
                    let mut text = UiText::new(input.text.clone(), input.font_ref).with_font_size(input.font_size);
                    match input.font_color {
                        Some(color) => {
                            text = text.with_font_color(color);
                        },
                        None => {},
                    }
                    let mut c = Components::empty();
                    c.parent = Some(r.id);
                    c.transform = Some(Transform::from_layer(t.layer));
                    c.ui_text = Some(text);
                    to_add.push(c);
                },
                _ => {},
            }
        }
        k = k + 1;
    }
    assert(es.subrange(0, n as int) == es);
    proof {
        lemma_input_text_children_len(es);
    }
    data.push_all(to_add);
}

// ---------------------------------------------------------------------------
// Typing.

/// What `char::to_uppercase` gives for `c`, as a text.
pub uninterp spec fn uppercase(c: char) -> Seq<char>;

/// The upper case of `c`, by `char::to_uppercase`; an ASCII lower-case letter
/// gives its upper-case letter.
#[verifier::external_body]
fn uppercase_text(c: char) -> (r: String)
    ensures
        r@ == uppercase(c),
        ('a' <= c <= 'z') ==> r@ == seq![((c as u32) - 32) as char],
{
    c.to_uppercase().to_string()
}

/// The characters the key events `events` type, in order.
pub open spec fn typed_chars(events: Seq<Input>) -> Seq<char>
    decreases events.len(),
{
    if events.len() == 0 {
        Seq::empty()
    } else {
        let prev = typed_chars(events.drop_last());
        match events.last() {
            Input::Key(k) => match k.char_of() {
                Some(c) => prev.push(c),
                None => prev,
            },
            _ => prev,
        }
    }
}

/// The text the characters `cs` write, in upper case when `upper`.
pub open spec fn typed_text(cs: Seq<char>, upper: bool) -> Seq<char>
    decreases cs.len(),
{
    if cs.len() == 0 {
        Seq::empty()
    } else {
        typed_text(cs.drop_last(), upper) + if upper {
            uppercase(cs.last())
        } else {
            seq![cs.last()]
        }
    }
}

/// The input `b` is `a` with the text `text`.
pub open spec fn input_with_text(a: UiInput, b: UiInput, text: Seq<char>, dirty: bool) -> bool {
    &&& b.text@ == text
    &&& b.dirty == dirty
    &&& b.width == a.width
    &&& b.height == a.height
    &&& b.cursor == a.cursor
    &&& b.font_ref == a.font_ref
    &&& b.font_size == a.font_size
    &&& b.font_color == a.font_color
    &&& b.tab_index == a.tab_index
}

/// The input `b` is the focused input `a` once the keys of `d` reached it: a
/// backspace event takes out the last character of a text that has one; else
/// the characters typed are added, in upper case while a shift key is held.
pub open spec fn typed_into(d: GameData, a: UiInput, b: UiInput) -> bool {
    let inputs = d.resources.inputs;
    if a.text@.len() > 0 && inputs.pressed_events@.contains(Input::Key(KeyCode::BackSpace)) {
        input_with_text(a, b, a.text@.drop_last(), true)
    } else {
        let cs = typed_chars(inputs.pressed_events@);
        let upper = inputs.pressed@.contains(Input::Key(KeyCode::LShift)) || inputs.pressed@.contains(
            Input::Key(KeyCode::RShift),
        );
        input_with_text(a, b, a.text@ + typed_text(cs, upper), a.dirty || cs.len() > 0)
    }
}

/// The input focused in `d`, by its position, if the focused entity is an input.
pub open spec fn focused_input(d: GameData) -> Option<int> {
    match d.resources.focus_manager.current {
        Some((e, _)) => if d.has(e) && d.get(e).ui_input is Some {
            Some(d.index_of(e))
        } else {
            None
        },
        None => None,
    }
}

/// A backspace on the focused input of `d` takes out its last byte, which holds a
/// whole character only when it is an ASCII one.
pub open spec fn backspace_removes_a_byte(d: GameData) -> bool {
    match focused_input(d) {
        Some(i) => {
            let text = d.entities@[i].components.ui_input.unwrap().text@;
            (text.len() > 0 && d.resources.inputs.pressed_events@.contains(Input::Key(KeyCode::BackSpace))) ==> (
            text.last() as u32) < 128
        },
        None => true,
    }
}

/// This system is responsible of handling the keys typed on the focused input.
pub fn register_keyboard_inputs_on_ui_input(data: &mut GameData)
    requires
        old(data).wf(),
        backspace_removes_a_byte(*old(data)),
    ensures
        final(data).next_id == old(data).next_id,
        final(data).resources == old(data).resources,
        final(data).entities@.len() == old(data).entities@.len(),
        match focused_input(*old(data)) {
            None => final(data).entities@ == old(data).entities@,
            Some(i) => {
                &&& forall|j: int| 0 <= j < old(data).entities@.len() && j != i ==> #[trigger] final(data).entities@[j] == old(data).entities@[j]
                &&& final(data).entities@[i].id == old(data).entities@[i].id
                &&& final(data).entities@[i].components == Components {
                    ui_input: final(data).entities@[i].components.ui_input,
                    ..old(data).entities@[i].components
                }
                &&& final(data).entities@[i].components.ui_input is Some
                &&& typed_into(
                    *old(data),
                    old(data).entities@[i].components.ui_input.unwrap(),
                    final(data).entities@[i].components.ui_input.unwrap(),
                )
            },
        },
{
    let ghost d0 = *data;
    let focused = data.resources.focus_manager.current_focus_entity();
    let e = match focused {
        Some(e) => e,
        None => {
            return;
        },
    };
    let idx = match data.find(e) {
        Some(i) => i,
        None => {
            return;
        },
    };
    proof {
        crate::world::lemma_index_of(&d0, e, idx as int);
    }
    let mut slot: Option<UiInput> = None;
    std::mem::swap(&mut slot, &mut data.entities[idx].components.ui_input);
    let mut input = match slot {
        Some(input) => input,
        None => {
            std::mem::swap(&mut slot, &mut data.entities[idx].components.ui_input);
            assert(data.entities@ =~= d0.entities@);
            return;
        },
    };
    let ghost input0 = input;
    let backspace = data.resources.inputs.input_pressed_event(&Input::Key(KeyCode::BackSpace));
    let s = input.text.as_str();
    let len = s.unicode_len();
    if len > 0 && backspace {
        let shorter = s.substring_char(0, len - 1).to_owned();
        input.set_text(shorter);
        assert(input.text@ =~= input0.text@.drop_last());
    } else {
        let events = data.resources.inputs.all_pressed_events();
        let upper = data.resources.inputs.key_pressed(&KeyCode::LShift) || data.resources.inputs.key_pressed(
            &KeyCode::RShift,
        );
        let ghost evs = events@;
        let mut typed = false;
        let mut k: usize = 0;
        while k < events.len()
            invariant
                k <= evs.len(),
                evs == events@,
                input.text@ == input0.text@ + typed_text(typed_chars(evs.subrange(0, k as int)), upper),
                input.dirty == (input0.dirty || typed_chars(evs.subrange(0, k as int)).len() > 0),
                input_with_text(input0, input, input.text@, input.dirty),
            decreases events.len() - k,
        {
            assert(evs.subrange(0, k + 1).drop_last() == evs.subrange(0, k as int));
            assert(evs.subrange(0, k + 1).last() == evs[k as int]);
            let ghost prev_chars = typed_chars(evs.subrange(0, k as int));
            match &events[k] {
                Input::Key(key) => {
                    match key.to_char() {
                        Some(c) => {
                            let piece = if upper {
                                uppercase_text(c)
                            } else {
                                char_text(c)
                            };
                            let joined = input.text.as_str().to_owned().concat(piece.as_str());
                            input.set_text(joined);
                            input.dirty = true;
                            assert(prev_chars.push(c).drop_last() == prev_chars);
                            assert(input.text@ =~= input0.text@ + typed_text(prev_chars.push(c), upper));
                        },
                        None => {},
                    }
                },
                _ => {},
            }
            k = k + 1;
        }
        assert(evs.subrange(0, evs.len() as int) == evs);
    }
    data.entities[idx].components.ui_input = Some(input);
}

// ---------------------------------------------------------------------------
// Inputs and their texts.

/// The entity `r` is an input whose text changed, with children.
pub open spec fn syncs(r: EntityRecord) -> bool {
    &&& r.components.ui_input is Some
    &&& r.components.ui_input.unwrap().dirty
    &&& r.components.children is Some
}

/// The text child of the input `r`: its first child.
pub open spec fn text_target(r: EntityRecord) -> EntityId {
    r.components.children.unwrap()@[0]
}

/// The last input of `es` whose text goes to the entity `x`, by its position.
pub open spec fn last_sync(es: Seq<EntityRecord>, x: EntityId) -> Option<int>
    decreases es.len(),
{
    if es.len() == 0 {
        None
    } else if syncs(es.last()) && text_target(es.last()) == x {
        Some(es.len() - 1)
    } else {
        last_sync(es.drop_last(), x)
    }
}

/// Every input of `es` whose text changed has a first child, alive and with a text.
pub open spec fn sync_targets_ready(d: GameData) -> bool {
    forall|k: int|
        0 <= k < d.entities@.len() && syncs(#[trigger] d.entities@[k]) ==> {
            &&& d.entities@[k].components.children.unwrap()@.len() > 0
            &&& d.has(text_target(d.entities@[k]))
            &&& d.get(text_target(d.entities@[k])).ui_text is Some
        }
}

/// The position of the last input of `data` whose text goes to `x`.
fn find_last_sync(data: &GameData, x: EntityId) -> (r: Option<usize>)
    requires
        sync_targets_ready(*data),
    ensures
        r is Some <==> last_sync(data.entities@, x) is Some,
        r is Some ==> r.unwrap() as int == last_sync(data.entities@, x).unwrap(),
{
    let ghost es = data.entities@;
    let mut k = data.entities.len();
    assert(es.subrange(0, k as int) == es);
    while k > 0
        invariant
            k <= es.len(),
            es == data.entities@,
            sync_targets_ready(*data),
            last_sync(es, x) == last_sync(es.subrange(0, k as int), x),
        decreases k,
    {
        let ghost pre = es.subrange(0, k as int);
        assert(pre.drop_last() == es.subrange(0, k - 1));
        assert(pre.last() == es[k - 1]);
        let r = &data.entities[k - 1];
        let is_sync = match &r.components.ui_input {
            Some(input) => input.dirty && r.components.children.is_some(),
            None => false,
        };
        if is_sync {
            let first = match &r.components.children {
                Some(cs) => cs[0],
                None => 0,
            };
            if first == x {
                return Some(k - 1);
            }
        }
        k = k - 1;
    }
    None
}

/// The text of `t1` is the text `text`, set by the synchronization of an input.
pub open spec fn text_synced(t0: UiText, t1: UiText, text: Seq<char>) -> bool {
    &&& t1.text@ == text
    &&& t1.dirty
    &&& t1.font_ref == t0.font_ref
    &&& t1.font_size == t0.font_size
    &&& t1.font_color == t0.font_color
    &&& t1.sync == t0.sync
}

/// The entity `e1` is `e0` once the changed inputs of `es` gave their text to
/// their text child and were marked clean.
pub open spec fn synced(es: Seq<EntityRecord>, e0: EntityRecord, e1: EntityRecord) -> bool {
    &&& e1.id == e0.id
    &&& e1.components == Components {
        ui_input: e1.components.ui_input,
        ui_text: e1.components.ui_text,
        ..e0.components
    }
    &&& if syncs(e0) {
        e1.components.ui_input == Some(UiInput { dirty: false, ..e0.components.ui_input.unwrap() })
    } else {
        e1.components.ui_input == e0.components.ui_input
    }
    &&& match last_sync(es, e0.id) {
        Some(j) => e1.components.ui_text is Some && text_synced(
            e0.components.ui_text.unwrap(),
            e1.components.ui_text.unwrap(),
            es[j].components.ui_input.unwrap().text@,
        ),
        None => e1.components.ui_text == e0.components.ui_text,
    }
}

/// The last input whose text goes to `x` is an input whose text changed, with children.
proof fn lemma_last_sync(es: Seq<EntityRecord>, x: EntityId)
    ensures
        last_sync(es, x) is Some ==> {
            let j = last_sync(es, x).unwrap();
            0 <= j < es.len() && syncs(es[j]) && text_target(es[j]) == x
        },
    decreases es.len(),
{
    if es.len() > 0 {
        lemma_last_sync(es.drop_last(), x);
    }
}

/// This system is responsible of handling synchronization between ui inputs and
/// ui texts: each input whose text changed gives it to its first child, and is
/// marked clean.
pub fn synchronize_input_and_text(data: &mut GameData)
    requires
        old(data).wf(),
        sync_targets_ready(*old(data)),
    ensures
        final(data).entities@.len() == old(data).entities@.len(),
        forall|k: int|
            0 <= k < old(data).entities@.len() ==> synced(
                old(data).entities@,
                old(data).entities@[k],
                #[trigger] final(data).entities@[k],
            ),
        final(data).next_id == old(data).next_id,
        final(data).resources == old(data).resources,
{
    let ghost es = data.entities@;
    let ghost d0 = *data;
    let n = data.entities.len();
    // The texts first, read from the inputs as they are.
    let mut texts: Vec<Option<String>> = Vec::new();
    let mut k: usize = 0;
    while k < n
        invariant
            n == es.len(),
            data.entities@ == es,
            *data == d0,
            sync_targets_ready(d0),
            k <= n,
            texts@.len() == k,
            forall|i: int|
                0 <= i < k ==> match last_sync(es, es[i].id) {
                    Some(j) => (#[trigger] texts@[i]) is Some && texts@[i].unwrap()@ == es[j].components.ui_input.unwrap().text@,
                    None => texts@[i] is None,
                },
        decreases n - k,
    {
        let found = find_last_sync(data, data.entities[k].id);
        let t = match found {
            Some(j) => {
                proof {
                    lemma_last_sync(es, es[k as int].id);
                }
                match &data.entities[j].components.ui_input {
                    Some(input) => Some(input.text.clone()),
                    None => None,
                }
            },
            None => None,
        };
        texts.push(t);
        k = k + 1;
    }
    let mut k: usize = 0;
    while k < n
        invariant
            n == es.len(),
            data.entities@.len() == n,
            k <= n,
            texts@.len() == n,
            sync_targets_ready(d0),
            d0.wf(),
            d0.entities@ == es,
            forall|i: int|
                0 <= i < n ==> match last_sync(es, es[i].id) {
                    Some(j) => (#[trigger] texts@[i]) is Some && texts@[i].unwrap()@ == es[j].components.ui_input.unwrap().text@,
                    None => texts@[i] is None,
                },
            forall|i: int| 0 <= i < k ==> synced(es, es[i], #[trigger] data.entities@[i]),
            forall|i: int| k <= i < n ==> #[trigger] data.entities@[i] == es[i],
            data.next_id == d0.next_id,
            data.resources == d0.resources,
        decreases n - k,
    {
        let ghost before = data.entities@;
        proof {
            lemma_last_sync(es, es[k as int].id);
        }
        let mut slot: Option<UiInput> = None;
        std::mem::swap(&mut slot, &mut data.entities[k].components.ui_input);
        match slot {
            Some(mut input) => {
                if input.dirty && data.entities[k].components.children.is_some() {
                    input.dirty = false;
                }
                data.entities[k].components.ui_input = Some(input);
            },
            None => {},
        }
        match &texts[k] {
            Some(t) => {
                let mut tslot: Option<UiText> = None;
                std::mem::swap(&mut tslot, &mut data.entities[k].components.ui_text);
                match tslot {
                    Some(mut text) => {
                        text.set_text(t.clone());
                        text.dirty = true;
                        data.entities[k].components.ui_text = Some(text);
                    },
                    None => {
                        proof {
                            let j = last_sync(es, es[k as int].id).unwrap();
                            assert(syncs(es[j]));
                            crate::world::lemma_index_of(&d0, es[k as int].id, k as int);
                        }
                    },
                }
            },
            None => {},
        }
        proof {
            assert forall|i: int| 0 <= i < n && i != k implies #[trigger] data.entities@[i] == before[i] by {}
        }
        k = k + 1;
    }
}

/// Without upper case, the characters typed are written as they were typed.
proof fn lemma_typed_as_is(cs: Seq<char>)
    ensures
        typed_text(cs, false) == cs,
    decreases cs.len(),
{
    if cs.len() > 0 {
        lemma_typed_as_is(cs.drop_last());
        assert(cs.drop_last().push(cs.last()) =~= cs);
    }
}

/// With a shift key held, left or right, the focused input gets each typed
/// character in upper case; with none held, as typed. `b` is the focused input
/// `a` once the keys of `d` reached it, and no backspace took a character out.
pub proof fn law_shift_types_upper_case(d: GameData, a: UiInput, b: UiInput)
    requires
        typed_into(d, a, b),
        !(a.text@.len() > 0 && d.resources.inputs.pressed_events@.contains(Input::Key(KeyCode::BackSpace))),
    ensures
        d.resources.inputs.pressed@.contains(Input::Key(KeyCode::LShift)) ==> b.text@ == a.text@ + typed_text(
            typed_chars(d.resources.inputs.pressed_events@),
            true,
        ),
        d.resources.inputs.pressed@.contains(Input::Key(KeyCode::RShift)) ==> b.text@ == a.text@ + typed_text(
            typed_chars(d.resources.inputs.pressed_events@),
            true,
        ),
        !d.resources.inputs.pressed@.contains(Input::Key(KeyCode::LShift)) && !d.resources.inputs.pressed@.contains(
            Input::Key(KeyCode::RShift),
        ) ==> b.text@ == a.text@ + typed_chars(d.resources.inputs.pressed_events@),
{
    lemma_typed_as_is(typed_chars(d.resources.inputs.pressed_events@));
}

/// In upper case, each typed character is written as `char::to_uppercase`
/// gives it, in order: the text typed is the upper cases of the characters,
/// one after the other.
pub proof fn law_upper_case_text_is_each_upper_case(cs: Seq<char>, i: int)
    requires
        0 <= i <= cs.len(),
    ensures
        typed_text(cs, true) == typed_text(cs.take(i), true) + typed_text(cs.skip(i), true),
    decreases cs.len(),
{
    if i == cs.len() {
        assert(cs.take(i) =~= cs);
        assert(cs.skip(i) =~= Seq::<char>::empty());
        assert(typed_text(cs, true) + Seq::<char>::empty() =~= typed_text(cs, true));
    } else {
        law_upper_case_text_is_each_upper_case(cs.drop_last(), i);
        assert(cs.drop_last().take(i) =~= cs.take(i));
        assert(cs.skip(i).drop_last() =~= cs.drop_last().skip(i));
        assert(cs.skip(i).last() == cs.last());
        let u = uppercase(cs.last());
        assert(typed_text(cs.take(i), true) + typed_text(cs.drop_last().skip(i), true) + u =~= typed_text(
            cs.take(i),
            true,
        ) + (typed_text(cs.drop_last().skip(i), true) + u));
    }
}

} // verus!
