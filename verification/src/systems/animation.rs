//! Runs the animations: each modifier of a running animation moves its entity
//! on by as many keyframes as its timer completed cycles.
use vstd::prelude::*;
use crate::animations::{
    modifier_label, status_updated, Animation, AnimationModifier, AnimationModifierType, AnimationStatus,
    AnimationView, Animations, ComputedKeyframeModifier,
};
use crate::components::{Color, EntityId, Material, MaterialView, Sprite};
use crate::time::{lemma_with_timer_has, timer_index, with_timer, without_timer, distinct_names, TimerType, TimerView, Timers};
use crate::ui::{text_set, UiText, UiTextView};
use crate::text::{decimal, decimal_text};
use vstd::utf8::{decode_utf8, encode_utf8, is_char_boundary};
use vstd::string::StringSliceAdditionalSpecFns;
use crate::world::{Components, EntityRecord, GameData};

verus! {

/// Work on floating-point values that the renderer does for the animations.
pub enum AnimationEffect {
    /// Apply `keyframes` keyframes of the modifier at `modifier` of the animation
    /// `animation` to the transform of `entity`.
    Transform { entity: EntityId, animation: String, modifier: usize, keyframes: usize },
    /// Move the alpha of the color of `entity` `keyframes` times by
    /// `(to - from) / number_of_keyframes`, clamped to `[0, 1]`; `from` and `to`
    /// are the bit patterns `from_bits` and `to_bits`.
    Alpha { entity: EntityId, from_bits: u32, to_bits: u32, number_of_keyframes: usize, keyframes: usize },
}

/// What an animation reads and changes of its entity.
pub struct EntityParts {
    pub has_transform: bool,
    pub sprite: Option<Sprite>,
    pub material: Option<MaterialView>,
    pub text: Option<UiTextView>,
    pub hide: bool,
}

// ---------------------------------------------------------------------------
// Sprites.

/// The sprite modifier `m` can run: its tiles cover its keyframes.
pub open spec fn sprite_ready(m: AnimationModifier) -> bool {
    match m.modifier_type {
        AnimationModifierType::SpriteModifier { tile_numbers, tile_numbers_variant, .. } => {
            &&& m.number_of_keyframes >= 1
            &&& tile_numbers@.len() > m.number_of_keyframes
            &&& (tile_numbers_variant is Some ==> tile_numbers_variant.unwrap()@.len() > m.number_of_keyframes)
            &&& (m.next_sprite_index is Some ==> m.next_sprite_index.unwrap() <= m.number_of_keyframes)
        },
        _ => true,
    }
}

/// The modifier and sprite after one application of the sprite modifier `m`.
pub open spec fn sprite_step(m: AnimationModifier, status: AnimationStatus, sprite: Option<Sprite>) -> (
    AnimationModifier,
    Option<Sprite>,
) {
    match m.modifier_type {
        AnimationModifierType::SpriteModifier { tile_numbers, tile_numbers_variant, end_tile_number } => {
            if sprite is None || status == AnimationStatus::ForceStopped {
                (m, sprite)
            } else if m.current_keyframe == m.number_of_keyframes - 1 && status != AnimationStatus::Looping {
                (
                    AnimationModifier { next_sprite_index: None, variant: !m.variant, ..m },
                    Some(Sprite { tile_number: end_tile_number }),
                )
            } else {
                let next: int = match m.next_sprite_index {
                    Some(i) => i as int,
                    None => 0,
                };
                let tile = if tile_numbers_variant is Some && m.variant {
                    tile_numbers_variant.unwrap()@[next]
                } else {
                    tile_numbers@[next]
                };
                if next >= m.number_of_keyframes {
                    (
                        AnimationModifier { next_sprite_index: Some(0), variant: !m.variant, ..m },
                        Some(Sprite { tile_number: tile }),
                    )
                } else {
                    (
                        AnimationModifier { next_sprite_index: Some((next + 1) as usize), ..m },
                        Some(Sprite { tile_number: tile }),
                    )
                }
            }
        },
        _ => (m, sprite),
    }
}

/// Shows the next tile of the sprite modifier `m` on `sprite`.
fn apply_sprite_modifier(sprite: &mut Option<Sprite>, status: AnimationStatus, m: &mut AnimationModifier)
    requires
        (*old(sprite)) is Some ==> sprite_ready(*old(m)),
    ensures
        (*final(m), *final(sprite)) == sprite_step(*old(m), status, *old(sprite)),
{
    if sprite.is_none() || status == AnimationStatus::ForceStopped {
        return;
    }
    let n = m.number_of_keyframes;
    let next = match m.next_sprite_index {
        Some(i) => i,
        None => 0,
    };
    match &m.modifier_type {
        AnimationModifierType::SpriteModifier { tile_numbers, tile_numbers_variant, end_tile_number } => {
            if m.current_keyframe == n - 1 && status != AnimationStatus::Looping {
                *sprite = Some(Sprite::new(*end_tile_number));
                m.next_sprite_index = None;
                m.variant = !m.variant;
            } else {
                let tile = match tile_numbers_variant {
                    Some(v) => {
                        if m.variant {
                            v[next]
                        } else {
                            tile_numbers[next]
                        }
                    },
                    None => tile_numbers[next],
                };
                *sprite = Some(Sprite::new(tile));
                if next >= n {
                    m.next_sprite_index = Some(0);
                    m.variant = !m.variant;
                } else {
                    m.next_sprite_index = Some(next + 1);
                }
            }
        },
        _ => {},
    }
}

// ---------------------------------------------------------------------------
// Colors.

/// `a / d`, rounded toward zero.
pub open spec fn quotient_toward_zero(a: int, d: int) -> int {
    let q: int = (vstd::math::abs(a) / vstd::math::abs(d)) as int;
    if (a < 0) != (d < 0) {
        -q
    } else {
        q
    }
}

/// `a / d` on 16-bit integers, rounded toward zero.
fn divide_toward_zero(a: i16, d: i16) -> (r: i16)
    requires
        d != 0,
        -256 < a < 256,
    ensures
        r == quotient_toward_zero(a as int, d as int),
        -256 < r < 256,
{
    let ua: u32 = if a < 0 {
        (0 - (a as i32)) as u32
    } else {
        a as u32
    };
    let ud: u32 = if d < 0 {
        (0 - (d as i32)) as u32
    } else {
        d as u32
    };
    let q: u32 = ua / ud;
    assert(q <= ua) by (nonlinear_arith)
        requires
            ud >= 1,
            q == ua / ud,
    ;
    if (a < 0) != (d < 0) {
        0 - (q as i16)
    } else {
        q as i16
    }
}

/// The keyframe step of the color modifier `m` for a material that now has the color `c`.
pub open spec fn color_keyframe(m: AnimationModifier, c: Color) -> Option<ComputedKeyframeModifier> {
    match m.modifier_type {
        AnimationModifierType::Color { target } => {
            let n = (m.number_of_keyframes as i16) as int;
            Some(
                ComputedKeyframeModifier::Color {
                    r: quotient_toward_zero(target.r - c.r, n) as i16,
                    g: quotient_toward_zero(target.g - c.g, n) as i16,
                    b: quotient_toward_zero(target.b - c.b, n) as i16,
                    alpha_from_bits: c.alpha_bits,
                    alpha_to_bits: target.alpha_bits,
                },
            )
        },
        _ => None,
    }
}

/// `c` moved by one keyframe step; its alpha is left to the renderer.
pub open spec fn color_moved(c: Color, r: i16, g: i16, b: i16) -> Color {
    Color {
        r: #[verifier::truncate] ((r + c.r) as u8),
        g: #[verifier::truncate] ((g + c.g) as u8),
        b: #[verifier::truncate] ((b + c.b) as u8),
        alpha_bits: c.alpha_bits,
    }
}

/// The color `c` after `i` of the keyframes a color modifier of type `t`, at
/// keyframe `current` of `n`, applies with the step `(r, g, b)`: a keyframe that
/// reaches the end sets the target color.
pub open spec fn color_after(
    c: Color,
    t: AnimationModifierType,
    r: i16,
    g: i16,
    b: i16,
    current: int,
    n: int,
    i: nat,
) -> Color
    decreases i,
{
    if i == 0 {
        c
    } else {
        let prev = color_after(c, t, r, g, b, current, n, (i - 1) as nat);
        if current + i - 1 >= n {
            match t {
                AnimationModifierType::Color { target } => target,
                _ => prev,
            }
        } else {
            color_moved(prev, r, g, b)
        }
    }
}

/// The color modifier `m` with its keyframe step computed when it starts.
pub open spec fn color_prepared(m: AnimationModifier, material: Option<MaterialView>) -> AnimationModifier {
    match material {
        Some(MaterialView::Color(c)) => if m.current_keyframe == 0 {
            AnimationModifier { single_keyframe_modifier: color_keyframe(m, c), ..m }
        } else {
            m
        },
        _ => m,
    }
}

/// The material after the color modifier `m` applied `tc` keyframes.
pub open spec fn color_material(m: AnimationModifier, material: Option<MaterialView>, tc: nat) -> Option<MaterialView> {
    let m1 = color_prepared(m, material);
    match material {
        Some(MaterialView::Color(c)) => match m1.single_keyframe_modifier {
            Some(ComputedKeyframeModifier::Color { r, g, b, .. }) => Some(
                MaterialView::Color(
                    color_after(c, m.modifier_type, r, g, b, m.current_keyframe as int, m.number_of_keyframes as int, tc),
                ),
            ),
            _ => material,
        },
        _ => material,
    }
}

/// The alpha work the color modifier `m` asks of the renderer for `entity`.
pub open spec fn color_effects(entity: EntityId, m: AnimationModifier, material: Option<MaterialView>, tc: nat) -> Seq<AnimationEffect> {
    let m1 = color_prepared(m, material);
    match material {
        Some(MaterialView::Color(c)) => match m1.single_keyframe_modifier {
            Some(ComputedKeyframeModifier::Color { alpha_from_bits, alpha_to_bits, .. }) => {
                if tc > 0 && m.current_keyframe + tc <= m.number_of_keyframes {
                    seq![AnimationEffect::Alpha {
                        entity,
                        from_bits: alpha_from_bits,
                        to_bits: alpha_to_bits,
                        number_of_keyframes: m.number_of_keyframes,
                        keyframes: tc as usize,
                    }]
                } else {
                    Seq::empty()
                }
            },
            _ => Seq::empty(),
        },
        _ => Seq::empty(),
    }
}

/// The color modifier `m` can run on `material`: its step, once computed, is
/// one that the computation gives.
pub open spec fn color_ready(m: AnimationModifier, has_color: bool) -> bool {
    &&& (m.modifier_type is Color && has_color) ==> (m.number_of_keyframes as i16) != 0
    &&& (m.single_keyframe_modifier matches Some(ComputedKeyframeModifier::Color { r, g, b, .. }) ==> (-256 < r < 256
        && -256 < g < 256 && -256 < b < 256))
}

/// Moves the color of `material` by `tc` keyframes of the color modifier `m`.
fn apply_color_modifier(
    entity: EntityId,
    material: &mut Option<Material>,
    m: &mut AnimationModifier,
    tc: usize,
    effects: &mut Vec<AnimationEffect>,
)
    requires
        color_ready(*old(m), opt_material_view(*old(material)) matches Some(MaterialView::Color(_))),
    ensures
        *final(m) == color_prepared(*old(m), opt_material_view(*old(material))),
        opt_material_view(*final(material)) == color_material(*old(m), opt_material_view(*old(material)), tc as nat),
        final(effects)@ == old(effects)@ + color_effects(entity, *old(m), opt_material_view(*old(material)), tc as nat),
{
    let ghost m0 = *m;
    let ghost mat0 = opt_material_view(*material);
    let initial = match material {
        Some(Material::Color(c)) => Some(*c),
        _ => None,
    };
    if let Some(c0) = initial {
        if m.current_keyframe == 0 {
            let computed = match &m.modifier_type {
                AnimationModifierType::Color { target } => {
                    let n: i16 = m.number_of_keyframes as i16;
                    Some(
                        ComputedKeyframeModifier::Color {
                            r: divide_toward_zero((target.r as i16) - (c0.r as i16), n),
                            g: divide_toward_zero((target.g as i16) - (c0.g as i16), n),
                            b: divide_toward_zero((target.b as i16) - (c0.b as i16), n),
                            alpha_from_bits: c0.alpha_bits,
                            alpha_to_bits: target.alpha_bits,
                        },
                    )
                },
                _ => None,
            };
            m.single_keyframe_modifier = computed;
        }
        assert(*m == color_prepared(m0, mat0));
        let step = match &m.single_keyframe_modifier {
            Some(ComputedKeyframeModifier::Color { r, g, b, alpha_from_bits, alpha_to_bits }) => Some(
                (*r, *g, *b, *alpha_from_bits, *alpha_to_bits),
            ),
            _ => None,
        };
        if let Some((r, g, b, from, to)) = step {
            let mut c = c0;
            let mut i: usize = 0;
            while i < tc
                invariant
                    i <= tc,
                    c == color_after(c0, m0.modifier_type, r, g, b, m0.current_keyframe as int, m0.number_of_keyframes as int, i as nat),
                    m.modifier_type == m0.modifier_type,
                    m.current_keyframe == m0.current_keyframe,
                    m.number_of_keyframes == m0.number_of_keyframes,
                    -256 < r < 256 && -256 < g < 256 && -256 < b < 256,
                decreases tc - i,
            {
                if m.will_be_last_keyframe(i) {
                    match &m.modifier_type {
                        AnimationModifierType::Color { target } => {
                            c = *target;
                        },
                        _ => {},
                    }
                } else {
                    c = Color {
                        r: #[verifier::truncate] ((r + (c.r as i16)) as u8),
                        g: #[verifier::truncate] ((g + (c.g as i16)) as u8),
                        b: #[verifier::truncate] ((b + (c.b as i16)) as u8),
                        alpha_bits: c.alpha_bits,
                    };
                }
                i = i + 1;
            }
            *material = Some(Material::Color(c));
            if tc > 0 && !m.will_be_last_keyframe(tc - 1) {
                effects.push(
                    AnimationEffect::Alpha {
                        entity,
                        from_bits: from,
                        to_bits: to,
                        number_of_keyframes: m.number_of_keyframes,
                        keyframes: tc,
                    },
                );
            } else {
                assert(effects@ == old(effects)@ + Seq::<AnimationEffect>::empty());
            }
        } else {
            assert(effects@ == old(effects)@ + Seq::<AnimationEffect>::empty());
        }
    } else {
        assert(effects@ == old(effects)@ + Seq::<AnimationEffect>::empty());
    }
}

/// A material, by its view.
pub open spec fn opt_material_view(m: Option<Material>) -> Option<MaterialView> {
    match m {
        Some(x) => Some(x@),
        None => None,
    }
}

// ---------------------------------------------------------------------------
// Blinks.

/// Whether the blink modifier `m`, after `tc` more keyframes, shows (`Some(false)`)
/// or hides (`Some(true)`) its entity, which `hidden` tells hidden now.
pub open spec fn blink_step(m: AnimationModifier, tc: nat, hidden: bool) -> Option<bool> {
    if tc > 0 {
        if m.current_keyframe + tc >= m.number_of_keyframes {
            Some(false)
        } else if !hidden {
            Some(true)
        } else {
            Some(false)
        }
    } else {
        None
    }
}

/// Whether the blink modifier `m` hides or shows its entity.
fn apply_blink_modifier(m: &AnimationModifier, tc: usize, hidden: bool) -> (r: Option<bool>)
    ensures
        r == blink_step(*m, tc as nat, hidden),
{
    if tc > 0 {
        if m.will_be_last_keyframe(tc) {
            Some(false)
        } else if !hidden {
            Some(true)
        } else {
            Some(false)
        }
    } else {
        None
    }
}

// ---------------------------------------------------------------------------
// Texts.

/// The text modifier `m` can run on `text`.
pub open spec fn text_ready(m: AnimationModifier, has_text: bool) -> bool {
    match m.modifier_type {
        AnimationModifierType::Text { content } => {
            &&& m.single_keyframe_modifier is Some
            &&& (has_text ==> encode_utf8(content@).len() <= usize::MAX)
            &&& (has_text ==> (m.single_keyframe_modifier matches Some(ComputedKeyframeModifier::Text { cursor })
                ==> is_char_boundary(encode_utf8(content@), cursor as int)))
        },
        _ => true,
    }
}

/// The modifier and text after one application of the text modifier `m`: the
/// text shows the characters of the first `cursor` bytes of the content, and the
/// cursor moves on by one byte, or back to the start once past the end.
pub open spec fn text_step(m: AnimationModifier, text: Option<UiTextView>) -> (AnimationModifier, Option<UiTextView>) {
    match m.single_keyframe_modifier {
        Some(ComputedKeyframeModifier::Text { cursor }) => {
            let (next, t2) = match (text, m.modifier_type) {
                (Some(t), AnimationModifierType::Text { content }) => (
                    if cursor < encode_utf8(content@).len() {
                        cursor + 1
                    } else {
                        0
                    },
                    Some(text_set(t, decode_utf8(encode_utf8(content@).subrange(0, cursor as int)))),
                ),
                _ => (0, text),
            };
            (
                AnimationModifier {
                    single_keyframe_modifier: Some(ComputedKeyframeModifier::Text { cursor: next as usize }),
                    ..m
                },
                t2,
            )
        },
        _ => (m, text),
    }
}

/// A text, by its view.
pub open spec fn opt_text_view(t: Option<UiText>) -> Option<UiTextView> {
    match t {
        Some(x) => Some(x@),
        None => None,
    }
}

/// Writes the next character of the text modifier `m` into `text`.
fn apply_text_modifier(m: &mut AnimationModifier, text: &mut Option<UiText>)
    requires
        text_ready(*old(m), (*old(text)) is Some),
    ensures
        (*final(m), opt_text_view(*final(text))) == text_step(*old(m), opt_text_view(*old(text))),
{
    let cursor = match &m.single_keyframe_modifier {
        Some(ComputedKeyframeModifier::Text { cursor }) => *cursor,
        _ => {
            return;
        },
    };
    let mut next: usize = 0;
    match text {
        Some(t) => {
            match &m.modifier_type {
                AnimationModifierType::Text { content } => {
                    let s = content.as_str();
                    let (head, _) = s.split_at(cursor);
                    let shown = head.to_owned();
                    proof {
                        vstd::utf8::encode_utf8_decode_utf8(head@);
                        assert(s@ == content@);
                        assert(s.spec_bytes() == encode_utf8(content@));
                        assert(head.spec_bytes() == encode_utf8(head@));
                        assert(encode_utf8(head@) =~= encode_utf8(content@).subrange(0, cursor as int));
                        assert(shown@ == decode_utf8(encode_utf8(content@).subrange(0, cursor as int)));
                    }
                    t.set_text(shown);
                    next = if cursor < s.len() {
                        cursor + 1
                    } else {
                        0
                    };
                },
                _ => {},
            }
        },
        None => {},
    }
    m.single_keyframe_modifier = Some(ComputedKeyframeModifier::Text { cursor: next });
}

// ---------------------------------------------------------------------------
// One modifier.

/// The name of the timer of a modifier labelled `label` in the animation
/// `animation` of `entity`.
pub open spec fn timer_name(entity: EntityId, animation: Seq<char>, label: Seq<char>) -> Seq<char> {
    decimal(entity as nat) + seq!['-'] + animation + seq!['-'] + label
}

/// Writes the timer name of a modifier.
fn modifier_timer_name(entity: EntityId, animation: &str, label: &str) -> (r: String)
    ensures
        r@ == timer_name(entity, animation@, label@),
{
    let r = decimal_text(entity).concat("-").concat(animation).concat("-").concat(label);
    proof {
        reveal_strlit("-");
    }
    r
}

/// What an animation reads and changes of the components `c`.
pub open spec fn parts_of(c: Components) -> EntityParts {
    EntityParts {
        has_transform: c.transform is Some,
        sprite: c.sprite,
        material: opt_material_view(c.material),
        text: opt_text_view(c.ui_text),
        hide: c.hide,
    }
}

/// `b` is `a` but for the parts an animation changes.
pub open spec fn same_but_parts(a: Components, b: Components) -> bool {
    b == Components { sprite: b.sprite, material: b.material, ui_text: b.ui_text, hide: b.hide, ..a }
}

/// The modifier `m` can run on an entity with or without a sprite, a color
/// material and a text.
pub open spec fn modifier_ready(m: AnimationModifier, has_sprite: bool, has_color: bool, has_text: bool) -> bool {
    &&& m.single_keyframe_duration is Some
    &&& m.current_keyframe <= m.number_of_keyframes
    &&& (m.modifier_type is TransformModifier ==> m.single_keyframe_modifier is Some)
    &&& (has_sprite ==> sprite_ready(m))
    &&& color_ready(m, has_color)
    &&& text_ready(m, has_text)
}

/// Which parts the entity has.
pub open spec fn has_sprite(p: EntityParts) -> bool {
    p.sprite is Some
}

pub open spec fn has_color(p: EntityParts) -> bool {
    p.material matches Some(MaterialView::Color(_))
}

pub open spec fn has_text(p: EntityParts) -> bool {
    p.text is Some
}

/// The modifier `m` ready for the entity parts `p`.
pub open spec fn ready_for(m: AnimationModifier, p: EntityParts) -> bool {
    modifier_ready(m, has_sprite(p), has_color(p), has_text(p))
}

/// What one modifier did.
pub struct ModifierOutcome {
    pub modifier: AnimationModifier,
    pub parts: EntityParts,
    pub timers: Seq<TimerView>,
    pub effects: Seq<AnimationEffect>,
    /// Whether it hides (`true`) or shows (`false`) the entity, if it does either.
    pub blink: Option<bool>,
}

/// The keyframes the modifier `m` applies: as many as its timer `t` cycled,
/// but no more than it has left.
pub open spec fn keyframes_due(m: AnimationModifier, cycles: usize) -> nat {
    let left = m.number_of_keyframes - m.current_keyframe;
    if cycles > left {
        left as nat
    } else {
        cycles as nat
    }
}

/// What the modifier `m`, at `index` in the animation `animation` of `entity`,
/// does to the entity parts `p` when it applies `tc` keyframes.
pub open spec fn kind_step(
    entity: EntityId,
    animation: String,
    index: int,
    status: AnimationStatus,
    m: AnimationModifier,
    p: EntityParts,
    tc: nat,
) -> (AnimationModifier, EntityParts, Seq<AnimationEffect>, Option<bool>) {
    match m.modifier_type {
        AnimationModifierType::TransformModifier => (
            m,
            p,
            if m.single_keyframe_modifier matches Some(ComputedKeyframeModifier::TransformModifier) && p.has_transform
                && tc > 0 {
                seq![AnimationEffect::Transform { entity, animation, modifier: index as usize, keyframes: tc as usize }]
            } else {
                Seq::empty()
            },
            None,
        ),
        AnimationModifierType::SpriteModifier { .. } => {
            let (m2, sprite) = sprite_step(m, status, p.sprite);
            (m2, EntityParts { sprite, ..p }, Seq::empty(), None)
        },
        AnimationModifierType::Color { .. } => (
            color_prepared(m, p.material),
            EntityParts { material: color_material(m, p.material, tc), ..p },
            color_effects(entity, m, p.material, tc),
            None,
        ),
        AnimationModifierType::Text { .. } => {
            let (m2, text) = text_step(m, p.text);
            (m2, EntityParts { text, ..p }, Seq::empty(), None)
        },
        AnimationModifierType::Blink => (m, p, Seq::empty(), blink_step(m, tc, p.hide)),
    }
}

/// One run of the modifier `m`, at `index` in the animation `animation` of
/// `entity`, whose status is `status`, with the timers `ts`: it gets a timer,
/// applies the keyframes its timer cycled, and gives its timer up at its end.
pub open spec fn modifier_step(
    entity: EntityId,
    animation: String,
    index: int,
    status: AnimationStatus,
    m: AnimationModifier,
    p: EntityParts,
    ts: Seq<TimerView>,
) -> ModifierOutcome {
    let name = timer_name(entity, animation@, modifier_label(m.modifier_type));
    let created = timer_index(ts, name) is None;
    let ts1 = with_timer(ts, name, TimerType::Cyclic, m.single_keyframe_duration.unwrap());
    let tc = keyframes_due(m, ts1[timer_index(ts1, name).unwrap()].cycle);
    if tc > 0 || created || status == AnimationStatus::ForceStopped {
        let (m2, p2, effects, blink) = kind_step(entity, animation, index, status, m, p, tc);
        let m3 = AnimationModifier { current_keyframe: (m.current_keyframe + tc) as usize, ..m2 };
        if m3.current_keyframe >= m3.number_of_keyframes {
            ModifierOutcome {
                modifier: AnimationModifier { next_sprite_index: None, ..m3 },
                parts: p2,
                timers: without_timer(ts1, name),
                effects,
                blink,
            }
        } else {
            ModifierOutcome { modifier: m3, parts: p2, timers: ts1, effects, blink }
        }
    } else {
        ModifierOutcome { modifier: m, parts: p, timers: ts1, effects: Seq::empty(), blink: None }
    }
}

/// Which kind a modifier is.
enum ModifierKind {
    Transform,
    Sprite,
    Color,
    Text,
    Blink,
}

/// Runs the modifier `m`, at `index` in the animation `animation` of `entity`,
/// on the components `c`. Returns whether it hides or shows the entity.
fn step_modifier(
    entity: EntityId,
    animation: &String,
    index: usize,
    status: AnimationStatus,
    m: &mut AnimationModifier,
    c: &mut Components,
    timers: &mut Timers,
    effects: &mut Vec<AnimationEffect>,
) -> (blink: Option<bool>)
    requires
        ready_for(*old(m), parts_of(*old(c))),
        distinct_names(old(timers)@),
    ensures
        ({
            let o = modifier_step(entity, *animation, index as int, status, *old(m), parts_of(*old(c)), old(timers)@);
            &&& *final(m) == o.modifier
            &&& parts_of(*final(c)) == o.parts
            &&& final(timers)@ == o.timers
            &&& final(effects)@ == old(effects)@ + o.effects
            &&& blink == o.blink
        }),
        same_but_parts(*old(c), *final(c)),
        distinct_names(final(timers)@),
{
    let ghost e0 = effects@;
    let name = modifier_timer_name(entity, animation.as_str(), m.label());
    let duration = match m.single_keyframe_duration {
        Some(d) => d,
        None => 0,
    };
    // A timer just created is at the start of its first cycle.
    let created = timers.add_timer(name.as_str(), TimerType::Cyclic, duration);
    proof {
        lemma_with_timer_has(old(timers)@, name@, TimerType::Cyclic, duration);
    }
    let cycles = match timers.timer_cycle(name.as_str()) {
        Some(cy) => cy,
        None => 0,
    };
    let left = m.number_of_keyframes - m.current_keyframe;
    let tc = if cycles > left {
        left
    } else {
        cycles
    };
    let mut blink: Option<bool> = None;
    if tc > 0 || created || status == AnimationStatus::ForceStopped {
        blink = apply_kind(entity, animation, index, status, m, c, tc, effects);
        m.current_keyframe = m.current_keyframe + tc;
        if m.current_keyframe >= m.number_of_keyframes {
            m.next_sprite_index = None;
            let _deleted = timers.delete_timer(name.as_str());
        }
    } else {
        assert(effects@ == e0 + Seq::<AnimationEffect>::empty());
    }
    blink
}

/// Applies `tc` keyframes of the modifier `m` to the components `c`, as its kind does.
fn apply_kind(
    entity: EntityId,
    animation: &String,
    index: usize,
    status: AnimationStatus,
    m: &mut AnimationModifier,
    c: &mut Components,
    tc: usize,
    effects: &mut Vec<AnimationEffect>,
) -> (blink: Option<bool>)
    requires
        ready_for(*old(m), parts_of(*old(c))),
    ensures
        ({
            let (m2, p2, e, b) = kind_step(entity, *animation, index as int, status, *old(m), parts_of(*old(c)), tc as nat);
            &&& *final(m) == m2
            &&& parts_of(*final(c)) == p2
            &&& final(effects)@ == old(effects)@ + e
            &&& blink == b
        }),
        same_but_parts(*old(c), *final(c)),
{
    let ghost e0 = effects@;
    let kind = match &m.modifier_type {
        AnimationModifierType::TransformModifier => ModifierKind::Transform,
        AnimationModifierType::SpriteModifier { .. } => ModifierKind::Sprite,
        AnimationModifierType::Color { .. } => ModifierKind::Color,
        AnimationModifierType::Text { .. } => ModifierKind::Text,
        AnimationModifierType::Blink => ModifierKind::Blink,
    };
    match kind {
        ModifierKind::Transform => {
            let computed = match &m.single_keyframe_modifier {
                Some(ComputedKeyframeModifier::TransformModifier) => true,
                _ => false,
            };
            if computed && c.transform.is_some() && tc > 0 {
                effects.push(
                    AnimationEffect::Transform { entity, animation: animation.clone(), modifier: index, keyframes: tc },
                );
            } else {
                assert(effects@ == e0 + Seq::<AnimationEffect>::empty());
            }
            None
        },
        ModifierKind::Sprite => {
            apply_sprite_modifier(&mut c.sprite, status, m);
            assert(effects@ == e0 + Seq::<AnimationEffect>::empty());
            None
        },
        ModifierKind::Color => {
            apply_color_modifier(entity, &mut c.material, m, tc, effects);
            None
        },
        ModifierKind::Text => {
            apply_text_modifier(m, &mut c.ui_text);
            assert(effects@ == e0 + Seq::<AnimationEffect>::empty());
            None
        },
        ModifierKind::Blink => {
            assert(effects@ == e0 + Seq::<AnimationEffect>::empty());
            apply_blink_modifier(m, tc, c.hide)
        },
    }
}

// ---------------------------------------------------------------------------
// Animations.

/// A blink outcome as a sequence of at most one element.
pub open spec fn blink_seq(b: Option<bool>) -> Seq<bool> {
    match b {
        Some(x) => seq![x],
        None => Seq::empty(),
    }
}

/// What the modifiers of an animation did, one after the other.
pub struct ModifiersRun {
    pub modifiers: Seq<AnimationModifier>,
    pub parts: EntityParts,
    pub timers: Seq<TimerView>,
    pub effects: Seq<AnimationEffect>,
    pub blinks: Seq<bool>,
}

/// The modifiers `ms` of the animation `animation` of `entity` run in order.
pub open spec fn run_modifiers(
    entity: EntityId,
    animation: String,
    status: AnimationStatus,
    ms: Seq<AnimationModifier>,
    p: EntityParts,
    ts: Seq<TimerView>,
) -> ModifiersRun
    decreases ms.len(),
{
    if ms.len() == 0 {
        ModifiersRun { modifiers: Seq::empty(), parts: p, timers: ts, effects: Seq::empty(), blinks: Seq::empty() }
    } else {
        let prev = run_modifiers(entity, animation, status, ms.drop_last(), p, ts);
        let o = modifier_step(entity, animation, ms.len() - 1, status, ms.last(), prev.parts, prev.timers);
        ModifiersRun {
            modifiers: prev.modifiers.push(o.modifier),
            parts: o.parts,
            timers: o.timers,
            effects: prev.effects + o.effects,
            blinks: prev.blinks + blink_seq(o.blink),
        }
    }
}

/// Two entity parts with the same components present, and the same flags.
pub open spec fn same_shape(a: EntityParts, b: EntityParts) -> bool {
    &&& has_sprite(a) == has_sprite(b)
    &&& has_color(a) == has_color(b)
    &&& has_text(a) == has_text(b)
    &&& a.has_transform == b.has_transform
    &&& a.hide == b.hide
}

/// A modifier step keeps which components the entity has.
proof fn lemma_step_shape(
    entity: EntityId,
    animation: String,
    index: int,
    status: AnimationStatus,
    m: AnimationModifier,
    p: EntityParts,
    ts: Seq<TimerView>,
)
    ensures
        same_shape(p, modifier_step(entity, animation, index, status, m, p, ts).parts),
{
}

/// Runs the modifiers `ms` of the animation `animation` of `entity`, whose status is `status`.
fn run_animation_modifiers(
    entity: EntityId,
    animation: &String,
    status: AnimationStatus,
    ms: &mut Vec<AnimationModifier>,
    c: &mut Components,
    timers: &mut Timers,
    effects: &mut Vec<AnimationEffect>,
    blinks: &mut Vec<bool>,
)
    requires
        forall|i: int| 0 <= i < old(ms)@.len() ==> ready_for(#[trigger] old(ms)@[i], parts_of(*old(c))),
        distinct_names(old(timers)@),
    ensures
        ({
            let r = run_modifiers(entity, *animation, status, old(ms)@, parts_of(*old(c)), old(timers)@);
            &&& final(ms)@ == r.modifiers
            &&& parts_of(*final(c)) == r.parts
            &&& final(timers)@ == r.timers
            &&& final(effects)@ == old(effects)@ + r.effects
            &&& final(blinks)@ == old(blinks)@ + r.blinks
        }),
        same_but_parts(*old(c), *final(c)),
        same_shape(parts_of(*old(c)), parts_of(*final(c))),
        distinct_names(final(timers)@),
{
    let ghost ms0 = ms@;
    let ghost c0 = *c;
    let ghost ts0 = timers@;
    let ghost e0 = effects@;
    let ghost b0 = blinks@;
    let mut j: usize = 0;
    while j < ms.len()
        invariant
            ms@.len() == ms0.len(),
            j <= ms0.len(),
            forall|i: int| 0 <= i < ms0.len() ==> ready_for(#[trigger] ms0[i], parts_of(c0)),
            forall|i: int| j <= i < ms0.len() ==> #[trigger] ms@[i] == ms0[i],
            ({
                let r = run_modifiers(entity, *animation, status, ms0.subrange(0, j as int), parts_of(c0), ts0);
                &&& ms@.subrange(0, j as int) == r.modifiers
                &&& parts_of(*c) == r.parts
                &&& timers@ == r.timers
                &&& effects@ == e0 + r.effects
                &&& blinks@ == b0 + r.blinks
            }),
            same_but_parts(c0, *c),
            same_shape(parts_of(c0), parts_of(*c)),
            distinct_names(timers@),
        decreases ms0.len() - j,
    {
        let ghost before = ms@;
        let ghost p_before = parts_of(*c);
        let ghost ts_before = timers@;
        assert(ms0.subrange(0, j + 1).drop_last() == ms0.subrange(0, j as int));
        assert(ms0.subrange(0, j + 1).last() == ms0[j as int]);
        assert(ready_for(ms0[j as int], parts_of(*c)));
        let blink = step_modifier(entity, animation, j, status, &mut ms[j], c, timers, effects);
        proof {
            lemma_step_shape(entity, *animation, j as int, status, ms0[j as int], p_before, ts_before);
        }
        match blink {
            Some(b) => {
                blinks.push(b);
            },
            None => {},
        }
        proof {
            let r = run_modifiers(entity, *animation, status, ms0.subrange(0, j + 1), parts_of(c0), ts0);
            let rp = run_modifiers(entity, *animation, status, ms0.subrange(0, j as int), parts_of(c0), ts0);
            assert(ms@.subrange(0, j + 1) =~= rp.modifiers.push(ms@[j as int]));
            assert(effects@ == e0 + r.effects);
            assert(blinks@ =~= b0 + r.blinks);
            assert forall|i: int| j + 1 <= i < ms0.len() implies #[trigger] ms@[i] == ms0[i] by {
                assert(ms@[i] == before[i]);
            }
        }
        j = j + 1;
    }
    assert(ms0.subrange(0, ms0.len() as int) == ms0);
    assert(ms@.subrange(0, ms0.len() as int) == ms@);
}

/// The animations of an entity, by their views.
pub open spec fn animations_view(s: Seq<(String, Animation)>) -> Seq<(String, AnimationView)> {
    s.map_values(|e: (String, Animation)| (e.0, e.1@))
}

/// What the animations of an entity did, one after the other.
pub struct AnimationsRun {
    pub animations: Seq<(String, AnimationView)>,
    pub parts: EntityParts,
    pub timers: Seq<TimerView>,
    pub effects: Seq<AnimationEffect>,
    pub blinks: Seq<bool>,
}

/// The animations `anims` of `entity` run in order: each that is not stopped runs
/// its modifiers, then computes its status.
pub open spec fn run_animations(
    entity: EntityId,
    anims: Seq<(String, AnimationView)>,
    p: EntityParts,
    ts: Seq<TimerView>,
) -> AnimationsRun
    decreases anims.len(),
{
    if anims.len() == 0 {
        AnimationsRun { animations: Seq::empty(), parts: p, timers: ts, effects: Seq::empty(), blinks: Seq::empty() }
    } else {
        let prev = run_animations(entity, anims.drop_last(), p, ts);
        let (key, a) = anims.last();
        if a.status != AnimationStatus::Stopped {
            let r = run_modifiers(entity, key, a.status, a.modifiers, prev.parts, prev.timers);
            AnimationsRun {
                animations: prev.animations.push((key, status_updated(AnimationView { modifiers: r.modifiers, ..a }))),
                parts: r.parts,
                timers: r.timers,
                effects: prev.effects + r.effects,
                blinks: prev.blinks + r.blinks,
            }
        } else {
            AnimationsRun { animations: prev.animations.push((key, a)), ..prev }
        }
    }
}

/// The timers `ts` without those of the modifiers `ms` of the animation `key` of `entity`.
pub open spec fn release_modifier_timers(
    entity: EntityId,
    key: Seq<char>,
    ms: Seq<AnimationModifier>,
    ts: Seq<TimerView>,
) -> Seq<TimerView>
    decreases ms.len(),
{
    if ms.len() == 0 {
        ts
    } else {
        without_timer(
            release_modifier_timers(entity, key, ms.drop_last(), ts),
            timer_name(entity, key, modifier_label(ms.last().modifier_type)),
        )
    }
}

/// The timers `ts` without those of the stopped animations of `anims`.
pub open spec fn release_timers(entity: EntityId, anims: Seq<(String, AnimationView)>, ts: Seq<TimerView>) -> Seq<TimerView>
    decreases anims.len(),
{
    if anims.len() == 0 {
        ts
    } else {
        let prev = release_timers(entity, anims.drop_last(), ts);
        let (key, a) = anims.last();
        if a.status == AnimationStatus::Stopped {
            release_modifier_timers(entity, key@, a.modifiers, prev)
        } else {
            prev
        }
    }
}

/// Whether an entity that `hidden` tells hidden is hidden after the blinks
/// `blinks`: one that hides wins over those that show.
pub open spec fn hidden_after(hidden: bool, blinks: Seq<bool>) -> bool {
    if blinks.contains(true) {
        true
    } else if blinks.contains(false) {
        false
    } else {
        hidden
    }
}

/// Every modifier of every animation of `anims` that is not stopped can run on the parts `p`.
pub open spec fn animations_ready(anims: Seq<(String, AnimationView)>, p: EntityParts) -> bool {
    forall|i: int, j: int|
        0 <= i < anims.len() && anims[i].1.status != AnimationStatus::Stopped && 0 <= j
            < anims[i].1.modifiers.len() ==> ready_for(#[trigger] anims[i].1.modifiers[j], p)
}

/// Gives up the timers of the modifiers `ms` of the animation `key` of `entity`.
fn release_animation_timers(entity: EntityId, key: &String, ms: &Vec<AnimationModifier>, timers: &mut Timers)
    requires
        distinct_names(old(timers)@),
    ensures
        distinct_names(final(timers)@),
        final(timers)@ == release_modifier_timers(entity, key@, ms@, old(timers)@),
{
    let mut j: usize = 0;
    while j < ms.len()
        invariant
            j <= ms@.len(),
            distinct_names(timers@),
            timers@ == release_modifier_timers(entity, key@, ms@.subrange(0, j as int), old(timers)@),
        decreases ms.len() - j,
    {
        assert(ms@.subrange(0, j + 1).drop_last() == ms@.subrange(0, j as int));
        assert(ms@.subrange(0, j + 1).last() == ms@[j as int]);
        let name = modifier_timer_name(entity, key.as_str(), ms[j].label());
        let _deleted = timers.delete_timer(name.as_str());
        j = j + 1;
    }
    assert(ms@.subrange(0, ms@.len() as int) == ms@);
}

/// Runs the animations `anims` of `entity` on its components `c`.
fn animate_entity(
    entity: EntityId,
    anims: &mut Animations,
    c: &mut Components,
    timers: &mut Timers,
    effects: &mut Vec<AnimationEffect>,
)
    requires
        animations_ready(animations_view(old(anims).animations@), parts_of(*old(c))),
        distinct_names(old(timers)@),
    ensures
        ({
            let r = run_animations(entity, animations_view(old(anims).animations@), parts_of(*old(c)), old(timers)@);
            &&& animations_view(final(anims).animations@) == r.animations
            &&& parts_of(*final(c)) == (EntityParts { hide: hidden_after(old(c).hide, r.blinks), ..r.parts })
            &&& final(timers)@ == release_timers(entity, r.animations, r.timers)
            &&& final(effects)@ == old(effects)@ + r.effects
        }),
        same_but_parts(*old(c), *final(c)),
        distinct_names(final(timers)@),
{
    let ghost v0 = animations_view(anims.animations@);
    let ghost c0 = *c;
    let ghost ts0 = timers@;
    let ghost e0 = effects@;
    let mut blinks: Vec<bool> = Vec::new();
    let n = anims.animations.len();
    let mut i: usize = 0;
    while i < n
        invariant
            n == v0.len(),
            anims.animations@.len() == n,
            i <= n,
            animations_ready(v0, parts_of(c0)),
            forall|k: int| i <= k < n ==> #[trigger] animations_view(anims.animations@)[k] == v0[k],
            ({
                let r = run_animations(entity, v0.subrange(0, i as int), parts_of(c0), ts0);
                &&& animations_view(anims.animations@).subrange(0, i as int) == r.animations
                &&& parts_of(*c) == r.parts
                &&& timers@ == r.timers
                &&& effects@ == e0 + r.effects
                &&& blinks@ == r.blinks
            }),
            same_but_parts(c0, *c),
            same_shape(parts_of(c0), parts_of(*c)),
            distinct_names(timers@),
        decreases n - i,
    {
        let ghost before = animations_view(anims.animations@);
        assert(v0.subrange(0, i + 1).drop_last() == v0.subrange(0, i as int));
        assert(v0.subrange(0, i + 1).last() == v0[i as int]);
        assert(before[i as int] == v0[i as int]);
        let status = anims.animations[i].1.status;
        if status != AnimationStatus::Stopped {
            let key = anims.animations[i].0.clone();
            assert forall|j: int| 0 <= j < anims.animations@[i as int].1.modifiers@.len() implies ready_for(
                #[trigger] anims.animations@[i as int].1.modifiers@[j],
                parts_of(*c),
            ) by {
                assert(v0[i as int].1.modifiers[j] == anims.animations@[i as int].1.modifiers@[j]);
                assert(ready_for(v0[i as int].1.modifiers[j], parts_of(c0)));
            }
            run_animation_modifiers(
                entity,
                &key,
                status,
                &mut anims.animations[i].1.modifiers,
                c,
                timers,
                effects,
                &mut blinks,
            );
            anims.animations[i].1.try_update_status();
        }
        proof {
            let after = animations_view(anims.animations@);
            let r = run_animations(entity, v0.subrange(0, i + 1), parts_of(c0), ts0);
            let rp = run_animations(entity, v0.subrange(0, i as int), parts_of(c0), ts0);
            assert(after.subrange(0, i + 1) =~= rp.animations.push(after[i as int]));
            assert forall|k: int| i + 1 <= k < n implies #[trigger] after[k] == v0[k] by {
                assert(after[k] == before[k]);
            }
            assert(effects@ == e0 + r.effects);
        }
        i = i + 1;
    }
    assert(v0.subrange(0, n as int) == v0);
    assert(animations_view(anims.animations@).subrange(0, n as int) == animations_view(anims.animations@));
    let ghost done = animations_view(anims.animations@);
    let ghost ts_run = timers@;
    let mut i: usize = 0;
    while i < n
        invariant
            anims.animations@.len() == n,
            done == animations_view(anims.animations@),
            i <= n,
            distinct_names(timers@),
            timers@ == release_timers(entity, done.subrange(0, i as int), ts_run),
        decreases n - i,
    {
        assert(done.subrange(0, i + 1).drop_last() == done.subrange(0, i as int));
        assert(done.subrange(0, i + 1).last() == done[i as int]);
        if anims.animations[i].1.status == AnimationStatus::Stopped {
            release_animation_timers(entity, &anims.animations[i].0, &anims.animations[i].1.modifiers, timers);
        }
        i = i + 1;
    }
    assert(done.subrange(0, n as int) == done);
    let mut hides = false;
    let mut shows = false;
    let mut k: usize = 0;
    while k < blinks.len()
        invariant
            k <= blinks@.len(),
            hides == blinks@.subrange(0, k as int).contains(true),
            shows == blinks@.subrange(0, k as int).contains(false),
        decreases blinks.len() - k,
    {
        proof {
            vstd::seq_lib::lemma_seq_contains_after_push(blinks@.subrange(0, k as int), blinks@[k as int], true);
            vstd::seq_lib::lemma_seq_contains_after_push(blinks@.subrange(0, k as int), blinks@[k as int], false);
            assert(blinks@.subrange(0, k + 1) == blinks@.subrange(0, k as int).push(blinks@[k as int]));
        }
        if blinks[k] {
            hides = true;
        } else {
            shows = true;
        }
        k = k + 1;
    }
    assert(blinks@.subrange(0, blinks@.len() as int) == blinks@);
    if hides {
        c.hide = true;
    } else if shows {
        c.hide = false;
    }
}

// ---------------------------------------------------------------------------
// The system.

/// What the animations of the entity `e` do with the timers `ts`, if it has any.
pub open spec fn entity_run(e: EntityRecord, ts: Seq<TimerView>) -> Option<AnimationsRun> {
    match e.components.animations {
        Some(a) => Some(run_animations(e.id, animations_view(a.animations@), parts_of(e.components), ts)),
        None => None,
    }
}

/// The timers once the animations of `e` ran.
pub open spec fn timers_after_entity(e: EntityRecord, ts: Seq<TimerView>) -> Seq<TimerView> {
    match entity_run(e, ts) {
        Some(r) => release_timers(e.id, r.animations, r.timers),
        None => ts,
    }
}

/// The timers once the animations of the entities `es` ran, in order.
pub open spec fn timers_after(es: Seq<EntityRecord>, ts: Seq<TimerView>) -> Seq<TimerView>
    decreases es.len(),
{
    if es.len() == 0 {
        ts
    } else {
        timers_after_entity(es.last(), timers_after(es.drop_last(), ts))
    }
}

/// The work the animations of the entities `es` ask of the renderer, in order.
pub open spec fn effects_of(es: Seq<EntityRecord>, ts: Seq<TimerView>) -> Seq<AnimationEffect>
    decreases es.len(),
{
    if es.len() == 0 {
        Seq::empty()
    } else {
        let prev = effects_of(es.drop_last(), ts);
        match entity_run(es.last(), timers_after(es.drop_last(), ts)) {
            Some(r) => prev + r.effects,
            None => prev,
        }
    }
}

/// `e1` is the entity `e0` once its animations ran with the timers `ts`.
pub open spec fn animated(e0: EntityRecord, e1: EntityRecord, ts: Seq<TimerView>) -> bool {
    &&& e1.id == e0.id
    &&& match entity_run(e0, ts) {
        None => e1 == e0,
        Some(r) => {
            &&& e1.components.animations is Some
            &&& animations_view(e1.components.animations.unwrap().animations@) == r.animations
            &&& parts_of(e1.components) == (EntityParts { hide: hidden_after(e0.components.hide, r.blinks), ..r.parts })
            &&& same_but_parts(e0.components, Components { animations: e0.components.animations, ..e1.components })
        },
    }
}

/// Every animation of every entity of `es` can run.
pub open spec fn all_animations_ready(es: Seq<EntityRecord>) -> bool {
    forall|k: int|
        0 <= k < es.len() && (#[trigger] es[k]).components.animations is Some ==> animations_ready(
            animations_view(es[k].components.animations.unwrap().animations@),
            parts_of(es[k].components),
        )
}

/// System responsible of applying the modifiers of the running animations to
/// their entities. It uses timers to keep track of the animations, and merges
/// keyframes in case of long frames. Returns the work on floating-point values
/// (transforms, alpha) that it leaves to the renderer.
pub fn animation_executer_system(data: &mut GameData) -> (effects: Vec<AnimationEffect>)
    requires
        distinct_names(old(data).resources.timers@),
        all_animations_ready(old(data).entities@),
    ensures
        final(data).entities@.len() == old(data).entities@.len(),
        forall|k: int|
            0 <= k < old(data).entities@.len() ==> animated(
                old(data).entities@[k],
                #[trigger] final(data).entities@[k],
                timers_after(old(data).entities@.subrange(0, k), old(data).resources.timers@),
            ),
        final(data).resources.timers@ == timers_after(old(data).entities@, old(data).resources.timers@),
        distinct_names(final(data).resources.timers@),
        effects@ == effects_of(old(data).entities@, old(data).resources.timers@),
        final(data).next_id == old(data).next_id,
        final(data).resources == (crate::world::Resources { timers: final(data).resources.timers, ..old(data).resources }),
{
    let ghost es = data.entities@;
    let ghost ts0 = data.resources.timers@;
    let mut timers = Timers::new();
    std::mem::swap(&mut timers, &mut data.resources.timers);
    let mut effects: Vec<AnimationEffect> = Vec::new();
    let n = data.entities.len();
    let mut k: usize = 0;
    while k < n
        invariant
            n == es.len(),
            data.entities@.len() == n,
            k <= n,
            all_animations_ready(es),
            forall|i: int| 0 <= i < k ==> animated(es[i], #[trigger] data.entities@[i], timers_after(es.subrange(0, i), ts0)),
            forall|i: int| k <= i < n ==> #[trigger] data.entities@[i] == es[i],
            timers@ == timers_after(es.subrange(0, k as int), ts0),
            effects@ == effects_of(es.subrange(0, k as int), ts0),
            distinct_names(timers@),
            data.next_id == old(data).next_id,
            data.resources == (crate::world::Resources { timers: data.resources.timers, ..old(data).resources }),
        decreases n - k,
    {
        let ghost before = data.entities@;
        assert(es.subrange(0, k + 1).drop_last() == es.subrange(0, k as int));
        assert(es.subrange(0, k + 1).last() == es[k as int]);
        if data.entities[k].components.animations.is_some() {
            let mut slot: Option<Animations> = None;
            std::mem::swap(&mut slot, &mut data.entities[k].components.animations);
            match slot {
                Some(mut anims) => {
                    let id = data.entities[k].id;
                    animate_entity(id, &mut anims, &mut data.entities[k].components, &mut timers, &mut effects);
                    data.entities[k].components.animations = Some(anims);
                },
                None => {},
            }
        }
        proof {
            assert forall|i: int| k + 1 <= i < n implies #[trigger] data.entities@[i] == es[i] by {
                assert(data.entities@[i] == before[i]);
            }
            assert forall|i: int| 0 <= i < k + 1 implies animated(es[i], #[trigger] data.entities@[i], timers_after(es.subrange(0, i), ts0)) by {
                if i < k {
                    assert(data.entities@[i] == before[i]);
                }
            }
        }
        k = k + 1;
    }
    assert(es.subrange(0, n as int) == es);
    std::mem::swap(&mut timers, &mut data.resources.timers);
    effects
}

/// A modifier run never goes past its last keyframe: from a keyframe within its
/// keyframes, it stays within them.
pub proof fn law_modifier_stays_within_keyframes(
    entity: EntityId,
    animation: String,
    index: int,
    status: AnimationStatus,
    m: AnimationModifier,
    p: EntityParts,
    ts: Seq<TimerView>,
)
    requires
        m.current_keyframe <= m.number_of_keyframes,
    ensures
        modifier_step(entity, animation, index, status, m, p, ts).modifier.current_keyframe
            <= modifier_step(entity, animation, index, status, m, p, ts).modifier.number_of_keyframes,
{
}

/// Every modifier of `ms` stands within its keyframes.
pub open spec fn within_keyframes(ms: Seq<AnimationModifier>) -> bool {
    forall|j: int| 0 <= j < ms.len() ==> (#[trigger] ms[j]).current_keyframe <= ms[j].number_of_keyframes
}

/// Every modifier of every animation of `anims` stands within its keyframes.
pub open spec fn all_within_keyframes(anims: Seq<(String, AnimationView)>) -> bool {
    forall|i: int| 0 <= i < anims.len() ==> within_keyframes(#[trigger] anims[i].1.modifiers)
}

proof fn lemma_run_modifiers_within(
    entity: EntityId,
    animation: String,
    status: AnimationStatus,
    ms: Seq<AnimationModifier>,
    p: EntityParts,
    ts: Seq<TimerView>,
)
    requires
        within_keyframes(ms),
    ensures
        within_keyframes(run_modifiers(entity, animation, status, ms, p, ts).modifiers),
        run_modifiers(entity, animation, status, ms, p, ts).modifiers.len() == ms.len(),
    decreases ms.len(),
{
    if ms.len() > 0 {
        let init = ms.drop_last();
        assert forall|j: int| 0 <= j < init.len() implies (#[trigger] init[j]).current_keyframe
            <= init[j].number_of_keyframes by {
            assert(init[j] == ms[j]);
        }
        lemma_run_modifiers_within(entity, animation, status, init, p, ts);
        let prev = run_modifiers(entity, animation, status, init, p, ts);
        assert(ms.last() == ms[ms.len() - 1]);
        law_modifier_stays_within_keyframes(entity, animation, ms.len() - 1, status, ms.last(), prev.parts, prev.timers);
        let r = run_modifiers(entity, animation, status, ms, p, ts);
        assert forall|j: int| 0 <= j < r.modifiers.len() implies (#[trigger] r.modifiers[j]).current_keyframe
            <= r.modifiers[j].number_of_keyframes by {
            if j < prev.modifiers.len() {
                assert(r.modifiers[j] == prev.modifiers[j]);
            }
        }
    }
}

proof fn lemma_status_updated_within(a: AnimationView)
    requires
        within_keyframes(a.modifiers),
    ensures
        within_keyframes(status_updated(a).modifiers),
{
    let r = status_updated(a).modifiers;
    assert forall|j: int| 0 <= j < r.len() implies (#[trigger] r[j]).current_keyframe <= r[j].number_of_keyframes by {
        if !(a.status == AnimationStatus::ForceStopped) && crate::animations::all_done(a.modifiers) {
            assert(r[j] == AnimationModifier { current_keyframe: 0, ..a.modifiers[j] });
        }
    }
}

proof fn lemma_run_animations_within(entity: EntityId, anims: Seq<(String, AnimationView)>, p: EntityParts, ts: Seq<TimerView>)
    requires
        all_within_keyframes(anims),
    ensures
        all_within_keyframes(run_animations(entity, anims, p, ts).animations),
        run_animations(entity, anims, p, ts).animations.len() == anims.len(),
    decreases anims.len(),
{
    if anims.len() > 0 {
        let init = anims.drop_last();
        assert forall|i: int| 0 <= i < init.len() implies within_keyframes(#[trigger] init[i].1.modifiers) by {
            assert(init[i] == anims[i]);
        }
        lemma_run_animations_within(entity, init, p, ts);
        let prev = run_animations(entity, init, p, ts);
        let (key, a) = anims.last();
        assert(anims.last() == anims[anims.len() - 1]);
        assert(within_keyframes(a.modifiers));
        let r = run_animations(entity, anims, p, ts);
        if a.status != AnimationStatus::Stopped {
            lemma_run_modifiers_within(entity, key, a.status, a.modifiers, prev.parts, prev.timers);
            let rm = run_modifiers(entity, key, a.status, a.modifiers, prev.parts, prev.timers);
            lemma_status_updated_within(AnimationView { modifiers: rm.modifiers, ..a });
        }
        assert forall|i: int| 0 <= i < r.animations.len() implies within_keyframes(#[trigger] r.animations[i].1.modifiers) by {
            if i < prev.animations.len() {
                assert(r.animations[i] == prev.animations[i]);
            }
        }
    }
}

/// Over a whole run of the animation system, every modifier stays within its
/// keyframes: an entity whose modifiers all stand within their keyframes still
/// has them so once its animations ran.
pub proof fn law_animations_stay_within_keyframes(e0: EntityRecord, e1: EntityRecord, ts: Seq<TimerView>)
    requires
        animated(e0, e1, ts),
        e0.components.animations is Some,
        all_within_keyframes(animations_view(e0.components.animations.unwrap().animations@)),
    ensures
        e1.components.animations is Some,
        all_within_keyframes(animations_view(e1.components.animations.unwrap().animations@)),
{
    lemma_run_animations_within(
        e0.id,
        animations_view(e0.components.animations.unwrap().animations@),
        parts_of(e0.components),
        ts,
    );
}

/// Once the animation `a0` ran as `a1`: when it was neither stopped nor forced to
/// stop and all its modifiers reached their last keyframe, they start over.
pub open spec fn finished_restarted(a0: AnimationView, a1: AnimationView) -> bool {
    a0.status != AnimationStatus::Stopped && a0.status != AnimationStatus::ForceStopped
        && crate::animations::all_done(a1.modifiers) ==> forall|j: int|
        0 <= j < a1.modifiers.len() ==> (#[trigger] a1.modifiers[j]).current_keyframe == 0
}

proof fn lemma_run_animations_restart(entity: EntityId, anims: Seq<(String, AnimationView)>, p: EntityParts, ts: Seq<TimerView>)
    ensures
        run_animations(entity, anims, p, ts).animations.len() == anims.len(),
        forall|i: int|
            0 <= i < anims.len() ==> finished_restarted(
                #[trigger] anims[i].1,
                run_animations(entity, anims, p, ts).animations[i].1,
            ),
    decreases anims.len(),
{
    if anims.len() > 0 {
        let init = anims.drop_last();
        lemma_run_animations_restart(entity, init, p, ts);
        let prev = run_animations(entity, init, p, ts);
        let (key, a) = anims.last();
        let r = run_animations(entity, anims, p, ts);
        if a.status != AnimationStatus::Stopped {
            let rm = run_modifiers(entity, key, a.status, a.modifiers, prev.parts, prev.timers).modifiers;
            let a1 = status_updated(AnimationView { modifiers: rm, ..a });
            if a.status != AnimationStatus::ForceStopped && crate::animations::all_done(rm) {
                assert forall|j: int| 0 <= j < a1.modifiers.len() implies (#[trigger] a1.modifiers[j]).current_keyframe == 0 by {}
            }
            assert(finished_restarted(a, a1));
        }
        assert forall|i: int| 0 <= i < anims.len() implies finished_restarted(#[trigger] anims[i].1, r.animations[i].1) by {
            if i < init.len() {
                assert(anims[i] == init[i]);
                assert(r.animations[i] == prev.animations[i]);
            } else {
                assert(anims[i] == anims.last());
            }
        }
    }
}

/// Over a whole run of the animation system, an animation that was neither
/// stopped nor forced to stop, and whose modifiers all reached their last
/// keyframe, has them start over from keyframe 0.
pub proof fn law_finished_animations_restart(e0: EntityRecord, e1: EntityRecord, ts: Seq<TimerView>)
    requires
        animated(e0, e1, ts),
        e0.components.animations is Some,
    ensures
        e1.components.animations is Some,
        animations_view(e1.components.animations.unwrap().animations@).len() == animations_view(
            e0.components.animations.unwrap().animations@,
        ).len(),
        forall|i: int|
            0 <= i < animations_view(e0.components.animations.unwrap().animations@).len() ==> finished_restarted(
                #[trigger] animations_view(e0.components.animations.unwrap().animations@)[i].1,
                animations_view(e1.components.animations.unwrap().animations@)[i].1,
            ),
{
    lemma_run_animations_restart(
        e0.id,
        animations_view(e0.components.animations.unwrap().animations@),
        parts_of(e0.components),
        ts,
    );
}

/// A modifier that reached its last keyframe gives its timer up.
pub proof fn law_finished_modifier_frees_its_timer(
    entity: EntityId,
    animation: String,
    index: int,
    status: AnimationStatus,
    m: AnimationModifier,
    p: EntityParts,
    ts: Seq<TimerView>,
)
    requires
        m.current_keyframe <= m.number_of_keyframes,
        distinct_names(ts),
        modifier_step(entity, animation, index, status, m, p, ts).modifier.current_keyframe >= m.number_of_keyframes,
        modifier_step(entity, animation, index, status, m, p, ts).modifier.current_keyframe != m.current_keyframe,
    ensures
        timer_index(
            modifier_step(entity, animation, index, status, m, p, ts).timers,
            timer_name(entity, animation@, modifier_label(m.modifier_type)),
        ) is None,
{
    let name = timer_name(entity, animation@, modifier_label(m.modifier_type));
    crate::time::law_timer_add_delete(ts, name, TimerType::Cyclic, m.single_keyframe_duration.unwrap());
}

} // verus!
