//! Animations: named sets of modifiers that change an entity keyframe after keyframe.
use vstd::prelude::*;
use crate::components::Color;

verus! {

/// Where an animation stands.
#[derive(PartialEq, Eq, Structural, Clone, Copy, Debug)]
pub enum AnimationStatus {
    ForceStopped,
    Stopped,
    Running,
    Looping,
    Stopping,
}

/// What a modifier changes on its entity.
pub enum AnimationModifierType {
    /// Moves, scales or rotates the transform. The amounts are floating point and
    /// are applied by the renderer, keyframe by keyframe, as the system asks.
    TransformModifier,
    /// Shows the tiles `tile_numbers` one after the other, then `end_tile_number`.
    SpriteModifier {
        tile_numbers: Vec<usize>,
        tile_numbers_variant: Option<Vec<usize>>,
        end_tile_number: usize,
    },
    /// Moves the color of the material towards `target`.
    Color { target: Color },
    /// Writes `content` into the text, one more character per keyframe.
    Text { content: String },
    /// Hides and shows the entity in turn.
    Blink,
}

/// What one keyframe of a modifier does, once computed.
pub enum ComputedKeyframeModifier {
    TransformModifier,
    /// Step of each channel; the alpha moves from `alpha_from_bits` towards
    /// `alpha_to_bits` (bit patterns of `f32`), which the renderer computes.
    Color { r: i16, g: i16, b: i16, alpha_from_bits: u32, alpha_to_bits: u32 },
    Text { cursor: usize },
}

/// One modifier of an animation.
pub struct AnimationModifier {
    pub number_of_keyframes: usize,
    pub current_keyframe: usize,
    pub modifier_type: AnimationModifierType,
    /// Duration of one keyframe, in nanoseconds.
    pub single_keyframe_duration: Option<u64>,
    pub single_keyframe_modifier: Option<ComputedKeyframeModifier>,
    /// In case of a sprite modifier, the next index position in the tiles.
    pub next_sprite_index: Option<usize>,
    pub variant: bool,
}

/// The name of the kind of a modifier, as it prints.
pub open spec fn modifier_label(t: AnimationModifierType) -> Seq<char> {
    match t {
        AnimationModifierType::TransformModifier => "AnimationModifier-TransformModifier"@,
        AnimationModifierType::SpriteModifier { .. } => "AnimationModifier-SpriteModifier"@,
        AnimationModifierType::Color { .. } => "AnimationModifier-Color"@,
        AnimationModifierType::Text { .. } => "AnimationModifier-Text"@,
        AnimationModifierType::Blink => "AnimationModifier-Blink"@,
    }
}

/// A modifier of `number_of_keyframes` keyframes, at its first keyframe.
pub open spec fn fresh_modifier(number_of_keyframes: nat, t: AnimationModifierType) -> AnimationModifier {
    AnimationModifier {
        number_of_keyframes: number_of_keyframes as usize,
        current_keyframe: 0,
        modifier_type: t,
        single_keyframe_duration: None,
        single_keyframe_modifier: None,
        next_sprite_index: None,
        variant: false,
    }
}

impl AnimationModifier {
    /// A modifier of `number_of_keyframes` keyframes and of type `modifier_type`.
    fn new(number_of_keyframes: usize, modifier_type: AnimationModifierType) -> (r: Self)
        ensures
            r == fresh_modifier(number_of_keyframes as nat, modifier_type),
    {
        AnimationModifier {
            number_of_keyframes,
            current_keyframe: 0,
            modifier_type,
            single_keyframe_duration: None,
            single_keyframe_modifier: None,
            next_sprite_index: None,
            variant: false,
        }
    }

    /// A transform modifier over `number_of_keyframes` keyframes.
    pub fn transform(number_of_keyframes: usize) -> (r: Self)
        ensures
            r == fresh_modifier(number_of_keyframes as nat, AnimationModifierType::TransformModifier),
    {
        AnimationModifier::new(number_of_keyframes, AnimationModifierType::TransformModifier)
    }

    /// A sprite modifier showing `tile_numbers`, then `end_tile_number`; it has one
    /// keyframe less than there are tiles.
    pub fn sprite(tile_numbers: Vec<usize>, end_tile_number: usize) -> (r: Self)
        requires
            tile_numbers.len() >= 1,
        ensures
            r == fresh_modifier(
                (tile_numbers.len() - 1) as nat,
                AnimationModifierType::SpriteModifier {
                    tile_numbers,
                    tile_numbers_variant: None,
                    end_tile_number,
                },
            ),
    {
        let n = tile_numbers.len() - 1;
        AnimationModifier::new(
            n,
            AnimationModifierType::SpriteModifier {
                tile_numbers,
                tile_numbers_variant: None,
                end_tile_number,
            },
        )
    }

    /// A sprite modifier that shows `tile_numbers_variant` every other run.
    pub fn sprite_with_variant(
        tile_numbers: Vec<usize>,
        tile_numbers_variant: Vec<usize>,
        end_tile_number: usize,
    ) -> (r: Self)
        requires
            tile_numbers.len() >= 1,
        ensures
            r == fresh_modifier(
                (tile_numbers.len() - 1) as nat,
                AnimationModifierType::SpriteModifier {
                    tile_numbers,
                    tile_numbers_variant: Some(tile_numbers_variant),
                    end_tile_number,
                },
            ),
    {
        let n = tile_numbers.len() - 1;
        AnimationModifier::new(
            n,
            AnimationModifierType::SpriteModifier {
                tile_numbers,
                tile_numbers_variant: Some(tile_numbers_variant),
                end_tile_number,
            },
        )
    }

    /// A color modifier towards `target_color`.
    pub fn color(number_of_keyframes: usize, target_color: Color) -> (r: Self)
        ensures
            r == fresh_modifier(number_of_keyframes as nat, AnimationModifierType::Color { target: target_color }),
    {
        AnimationModifier::new(number_of_keyframes, AnimationModifierType::Color { target: target_color })
    }

    /// A modifier that blinks `number_of_blinks` times, two keyframes a blink.
    pub fn blink(number_of_blinks: usize) -> (r: Self)
        requires
            number_of_blinks * 2 <= usize::MAX,
        ensures
            r == fresh_modifier((number_of_blinks * 2) as nat, AnimationModifierType::Blink),
    {
        AnimationModifier::new(number_of_blinks * 2, AnimationModifierType::Blink)
    }

    /// A modifier that writes `content`, one keyframe per byte of it.
    pub fn text(content: String) -> (r: Self)
        ensures
            r == fresh_modifier(
                vstd::utf8::encode_utf8(content@).len(),
                AnimationModifierType::Text { content },
            ),
    {
        let n = content.as_str().len();
        AnimationModifier::new(n, AnimationModifierType::Text { content })
    }

    /// The kind of this modifier, as it prints.
    pub fn label(&self) -> (r: &'static str)
        ensures
            r@ == modifier_label(self.modifier_type),
    {
        match &self.modifier_type {
            AnimationModifierType::TransformModifier => "AnimationModifier-TransformModifier",
            AnimationModifierType::SpriteModifier { .. } => "AnimationModifier-SpriteModifier",
            AnimationModifierType::Color { .. } => "AnimationModifier-Color",
            AnimationModifierType::Text { .. } => "AnimationModifier-Text",
            AnimationModifierType::Blink => "AnimationModifier-Blink",
        }
    }

    /// Whether the modifier stands at its first keyframe.
    pub fn is_first_frame(&self) -> (r: bool)
        ensures
            r == (self.current_keyframe == 0),
    {
        self.current_keyframe == 0
    }

    /// Whether `added_keyframes` more keyframes reach the end of the modifier.
    pub fn will_be_last_keyframe(&self, added_keyframes: usize) -> (r: bool)
        ensures
            r == (self.current_keyframe + added_keyframes >= self.number_of_keyframes),
    {
        added_keyframes >= self.number_of_keyframes || self.current_keyframe >= self.number_of_keyframes
            - added_keyframes
    }
}

/// The keyframe modifier computed for `m` when its animation is created.
pub open spec fn initial_keyframe_modifier(t: AnimationModifierType) -> Option<ComputedKeyframeModifier> {
    match t {
        AnimationModifierType::TransformModifier => Some(ComputedKeyframeModifier::TransformModifier),
        AnimationModifierType::Text { .. } => Some(ComputedKeyframeModifier::Text { cursor: 0 }),
        _ => None,
    }
}

/// Whether an animation of `duration_nanos` sets up its modifiers: it does from
/// one millisecond on.
pub open spec fn sets_up_modifiers(duration_nanos: u64) -> bool {
    duration_nanos >= 1_000_000
}

/// `m` once set up for an animation of `duration_nanos`.
pub open spec fn set_up_modifier(m: AnimationModifier, duration_nanos: u64) -> AnimationModifier {
    AnimationModifier {
        single_keyframe_duration: Some(
            (duration_nanos as int / ((m.number_of_keyframes as u32) as int)) as u64,
        ),
        single_keyframe_modifier: initial_keyframe_modifier(m.modifier_type),
        ..m
    }
}

/// The modifiers `ms` once the animation of `duration_nanos` set them up.
pub open spec fn set_up_modifiers(ms: Seq<AnimationModifier>, duration_nanos: u64) -> Seq<AnimationModifier> {
    if sets_up_modifiers(duration_nanos) {
        ms.map_values(|m: AnimationModifier| set_up_modifier(m, duration_nanos))
    } else {
        ms
    }
}

/// An animation: modifiers that run for a duration.
pub struct Animation {
    /// Duration, in nanoseconds.
    pub duration: u64,
    pub modifiers: Vec<AnimationModifier>,
    pub status: AnimationStatus,
}

/// An animation, its modifiers taken as a sequence.
pub struct AnimationView {
    pub duration: u64,
    pub modifiers: Seq<AnimationModifier>,
    pub status: AnimationStatus,
}

impl View for Animation {
    type V = AnimationView;

    open spec fn view(&self) -> AnimationView {
        AnimationView { duration: self.duration, modifiers: self.modifiers@, status: self.status }
    }
}

impl Animation {
    /// Sets each modifier up for the animation's duration.
    fn initialise_animation(duration: u64, modifiers: &mut Vec<AnimationModifier>)
        requires
            sets_up_modifiers(duration) ==> forall|i: int|
                0 <= i < old(modifiers)@.len() ==> (#[trigger] old(modifiers)@[i].number_of_keyframes as u32) != 0,
        ensures
            final(modifiers)@ == set_up_modifiers(old(modifiers)@, duration),
    {
        if duration >= 1_000_000 {
            let ghost ms = modifiers@;
            let mut i: usize = 0;
            while i < modifiers.len()
                invariant
                    i <= modifiers@.len(),
                    modifiers@.len() == ms.len(),
                    forall|j: int| 0 <= j < ms.len() ==> (#[trigger] ms[j].number_of_keyframes as u32) != 0,
                    forall|j: int| 0 <= j < i ==> #[trigger] modifiers@[j] == set_up_modifier(ms[j], duration),
                    forall|j: int| i <= j < ms.len() ==> #[trigger] modifiers@[j] == ms[j],
                decreases modifiers.len() - i,
            {
                let n: u32 = modifiers[i].number_of_keyframes as u32;
                let keyframe = duration / (n as u64);
                let computed = match &modifiers[i].modifier_type {
                    AnimationModifierType::TransformModifier => Some(ComputedKeyframeModifier::TransformModifier),
                    AnimationModifierType::Text { .. } => Some(ComputedKeyframeModifier::Text { cursor: 0 }),
                    _ => None,
                };
                modifiers[i].single_keyframe_duration = Some(keyframe);
                modifiers[i].single_keyframe_modifier = computed;
                i = i + 1;
            }
            assert(modifiers@ =~= set_up_modifiers(ms, duration));
        }
    }

    /// A stopped animation of `duration` nanoseconds.
    pub fn new(duration: u64, modifiers: Vec<AnimationModifier>) -> (r: Self)
        requires
            sets_up_modifiers(duration) ==> forall|i: int|
                0 <= i < modifiers@.len() ==> (#[trigger] modifiers@[i].number_of_keyframes as u32) != 0,
        ensures
            r.duration == duration,
            r.modifiers@ == set_up_modifiers(modifiers@, duration),
            r.status == AnimationStatus::Stopped,
    {
        let mut modifiers = modifiers;
        Animation::initialise_animation(duration, &mut modifiers);
        Animation { duration, modifiers, status: AnimationStatus::Stopped }
    }

    /// A running animation of `duration` nanoseconds.
    pub fn running(duration: u64, modifiers: Vec<AnimationModifier>) -> (r: Self)
        requires
            sets_up_modifiers(duration) ==> forall|i: int|
                0 <= i < modifiers@.len() ==> (#[trigger] modifiers@[i].number_of_keyframes as u32) != 0,
        ensures
            r.duration == duration,
            r.modifiers@ == set_up_modifiers(modifiers@, duration),
            r.status == AnimationStatus::Running,
    {
        let mut modifiers = modifiers;
        Animation::initialise_animation(duration, &mut modifiers);
        Animation { duration, modifiers, status: AnimationStatus::Running }
    }

    /// A looping animation of `duration` nanoseconds.
    pub fn looping(duration: u64, modifiers: Vec<AnimationModifier>) -> (r: Self)
        requires
            sets_up_modifiers(duration) ==> forall|i: int|
                0 <= i < modifiers@.len() ==> (#[trigger] modifiers@[i].number_of_keyframes as u32) != 0,
        ensures
            r.duration == duration,
            r.modifiers@ == set_up_modifiers(modifiers@, duration),
            r.status == AnimationStatus::Looping,
    {
        let mut modifiers = modifiers;
        Animation::initialise_animation(duration, &mut modifiers);
        Animation { duration, modifiers, status: AnimationStatus::Looping }
    }

    /// Computes the status of the animation after its modifiers ran.
    pub fn try_update_status(&mut self)
        ensures
            final(self)@ == status_updated(old(self)@),
    {
        if self.status == AnimationStatus::ForceStopped {
            self.status = AnimationStatus::Stopped;
            return;
        }
        let ghost ms = self.modifiers@;
        let mut done: usize = 0;
        let mut i: usize = 0;
        while i < self.modifiers.len()
            invariant
                ms == self.modifiers@,
                i <= ms.len(),
                done <= i,
                (done == i) == all_done(ms.subrange(0, i as int)),
            decreases self.modifiers.len() - i,
        {
            assert(ms.subrange(0, i + 1).drop_last() == ms.subrange(0, i as int));
            if self.modifiers[i].current_keyframe == self.modifiers[i].number_of_keyframes {
                done = done + 1;
            }
            i = i + 1;
        }
        assert(ms.subrange(0, ms.len() as int) == ms);
        if done == self.modifiers.len() {
            let mut j: usize = 0;
            while j < self.modifiers.len()
                invariant
                    j <= ms.len(),
                    self.modifiers@.len() == ms.len(),
                    forall|k: int| 0 <= k < j ==> #[trigger] self.modifiers@[k] == (AnimationModifier { current_keyframe: 0, ..ms[k] }),
                    forall|k: int| j <= k < ms.len() ==> #[trigger] self.modifiers@[k] == ms[k],
                    self.status == old(self).status,
                    old(self).status != AnimationStatus::ForceStopped,
                    all_done(ms),
                    ms == old(self).modifiers@,
                    self.duration == old(self).duration,
                decreases self.modifiers.len() - j,
            {
                self.modifiers[j].current_keyframe = 0;
                j = j + 1;
            }
            assert(self.modifiers@ =~= rewound(ms));
            if self.status == AnimationStatus::Running || self.status == AnimationStatus::Stopping {
                self.status = AnimationStatus::Stopped;
            }
        }
    }
}

/// Every modifier of `ms` reached its last keyframe.
pub open spec fn all_done(ms: Seq<AnimationModifier>) -> bool
    decreases ms.len(),
{
    if ms.len() == 0 {
        true
    } else {
        all_done(ms.drop_last()) && ms.last().current_keyframe == ms.last().number_of_keyframes
    }
}

/// The modifiers `ms` back at their first keyframe.
pub open spec fn rewound(ms: Seq<AnimationModifier>) -> Seq<AnimationModifier> {
    ms.map_values(|m: AnimationModifier| AnimationModifier { current_keyframe: 0, ..m })
}

/// The animation `a` once its status was computed after its modifiers ran: a
/// forced stop ends; when every modifier reached its end they start over, and a
/// running or stopping animation stops.
pub open spec fn status_updated(a: AnimationView) -> AnimationView {
    if a.status == AnimationStatus::ForceStopped {
        AnimationView { status: AnimationStatus::Stopped, ..a }
    } else if all_done(a.modifiers) {
        AnimationView {
            modifiers: rewound(a.modifiers),
            status: if a.status == AnimationStatus::Running || a.status == AnimationStatus::Stopping {
                AnimationStatus::Stopped
            } else {
                a.status
            },
            ..a
        }
    } else {
        a
    }
}

/// Position of the animation named `name` in `s`, if any.
pub open spec fn animation_index(s: Seq<(String, Animation)>, name: Seq<char>) -> Option<int> {
    if exists|i: int| 0 <= i < s.len() && #[trigger] s[i].0@ == name {
        Some(choose|i: int| 0 <= i < s.len() && #[trigger] s[i].0@ == name)
    } else {
        None
    }
}

/// No two animations of `s` share a name.
pub open spec fn distinct_animation_names(s: Seq<(String, Animation)>) -> bool {
    forall|i: int, j: int| 0 <= i < j < s.len() ==> #[trigger] s[i].0@ != #[trigger] s[j].0@
}

/// In animations with distinct names, a name stands at one position only.
pub proof fn lemma_animation_index(s: Seq<(String, Animation)>, i: int)
    requires
        distinct_animation_names(s),
        0 <= i < s.len(),
    ensures
        animation_index(s, s[i].0@) == Some(i),
{
    let j = choose|j: int| 0 <= j < s.len() && #[trigger] s[j].0@ == s[i].0@;
    if j < i {
        assert(s[j].0@ != s[i].0@);
    } else if i < j {
        assert(s[i].0@ != s[j].0@);
    }
}

/// The animation `a` with the status `status`.
pub open spec fn with_status(a: Animation, status: AnimationStatus) -> Animation {
    Animation { status, ..a }
}

/// Whether an animation of status `status` is under way.
pub open spec fn is_under_way(status: AnimationStatus) -> bool {
    status == AnimationStatus::Running || status == AnimationStatus::Looping || status
        == AnimationStatus::Stopping
}

/// The status a stop request gives an animation of status `status`, if it changes it.
pub open spec fn stopped_status(status: AnimationStatus, force: bool) -> Option<AnimationStatus> {
    if status == AnimationStatus::Looping || status == AnimationStatus::Running {
        if force {
            Some(AnimationStatus::ForceStopped)
        } else {
            Some(AnimationStatus::Stopping)
        }
    } else {
        None
    }
}

/// The animations of an entity, by name.
pub struct Animations {
    pub animations: Vec<(String, Animation)>,
}

impl Animations {
    /// Animations named as given.
    pub fn new(animations: Vec<(String, Animation)>) -> (r: Self)
        requires
            distinct_animation_names(animations@),
        ensures
            r.animations@ == animations@,
    {
        Animations { animations }
    }

    /// A single animation, named `name`.
    pub fn single(name: &str, animation: Animation) -> (r: Self)
        ensures
            r.animations@.len() == 1,
            r.animations@[0].0@ == name@,
            r.animations@[0].1 == animation,
            distinct_animation_names(r.animations@),
    {
        let mut animations: Vec<(String, Animation)> = Vec::new();
        animations.push((name.to_owned(), animation));
        Animations { animations }
    }

    /// Position of the animation named `name`.
    fn find(&self, name: &str) -> (r: Option<usize>)
        requires
            distinct_animation_names(self.animations@),
        ensures
            r is None <==> animation_index(self.animations@, name@) is None,
            r is Some ==> r.unwrap() < self.animations@.len() && animation_index(self.animations@, name@)
                == Some(r.unwrap() as int),
    {
        let key = name.to_owned();
        let mut i: usize = 0;
        while i < self.animations.len()
            invariant
                i <= self.animations@.len(),
                key@ == name@,
                distinct_animation_names(self.animations@),
                forall|j: int| 0 <= j < i ==> #[trigger] self.animations@[j].0@ != name@,
            decreases self.animations.len() - i,
        {
            if self.animations[i].0 == key {
                proof {
                    lemma_animation_index(self.animations@, i as int);
                }
                return Some(i);
            }
            i = i + 1;
        }
        assert(animation_index(self.animations@, name@) is None) by {
            if exists|j: int| 0 <= j < self.animations@.len() && #[trigger] self.animations@[j].0@ == name@ {
                let j = choose|j: int| 0 <= j < self.animations@.len() && #[trigger] self.animations@[j].0@ == name@;
                assert(self.animations@[j].0@ != name@);
            }
        }
        None
    }

    /// Gives the animation `name` the status `status` if it is stopped.
    fn run(&mut self, name: &str, status: AnimationStatus) -> (r: bool)
        requires
            distinct_animation_names(old(self).animations@),
        ensures
            distinct_animation_names(final(self).animations@),
            r == (match animation_index(old(self).animations@, name@) {
                Some(i) => old(self).animations@[i].1.status == AnimationStatus::Stopped,
                None => false,
            }),
            r ==> final(self).animations@ == old(self).animations@.update(
                animation_index(old(self).animations@, name@).unwrap(),
                (
                    old(self).animations@[animation_index(old(self).animations@, name@).unwrap()].0,
                    with_status(old(self).animations@[animation_index(old(self).animations@, name@).unwrap()].1, status),
                ),
            ),
            !r ==> final(self).animations@ == old(self).animations@,
    {
        match self.find(name) {
            Some(i) => {
                if self.animations[i].1.status == AnimationStatus::Stopped {
                    let ghost before = self.animations@;
                    self.animations[i].1.status = status;
                    assert(self.animations@ =~= before.update(i as int, (before[i as int].0, with_status(before[i as int].1, status))));
                    assert forall|a: int, b: int| 0 <= a < b < self.animations@.len() implies #[trigger] self.animations@[a].0@
                        != #[trigger] self.animations@[b].0@ by {
                        assert(before[a].0@ != before[b].0@);
                    }
                    true
                } else {
                    false
                }
            },
            None => false,
        }
    }

    /// Runs the animation `name`. Returns true if the animation has been started,
    /// false if it does not exist or was already running.
    pub fn run_animation(&mut self, name: &str) -> (r: bool)
        requires
            distinct_animation_names(old(self).animations@),
        ensures
            distinct_animation_names(final(self).animations@),
            r == (match animation_index(old(self).animations@, name@) {
                Some(i) => old(self).animations@[i].1.status == AnimationStatus::Stopped,
                None => false,
            }),
            r ==> final(self).animations@ == old(self).animations@.update(
                animation_index(old(self).animations@, name@).unwrap(),
                (
                    old(self).animations@[animation_index(old(self).animations@, name@).unwrap()].0,
                    with_status(old(self).animations@[animation_index(old(self).animations@, name@).unwrap()].1, AnimationStatus::Running),
                ),
            ),
            !r ==> final(self).animations@ == old(self).animations@,
    {
        self.run(name, AnimationStatus::Running)
    }

    /// Loops the animation `name`. Returns true if the animation has been started,
    /// false if it does not exist or was already running.
    pub fn loop_animation(&mut self, name: &str) -> (r: bool)
        requires
            distinct_animation_names(old(self).animations@),
        ensures
            distinct_animation_names(final(self).animations@),
            r == (match animation_index(old(self).animations@, name@) {
                Some(i) => old(self).animations@[i].1.status == AnimationStatus::Stopped,
                None => false,
            }),
            r ==> final(self).animations@ == old(self).animations@.update(
                animation_index(old(self).animations@, name@).unwrap(),
                (
                    old(self).animations@[animation_index(old(self).animations@, name@).unwrap()].0,
                    with_status(old(self).animations@[animation_index(old(self).animations@, name@).unwrap()].1, AnimationStatus::Looping),
                ),
            ),
            !r ==> final(self).animations@ == old(self).animations@,
    {
        self.run(name, AnimationStatus::Looping)
    }

    /// Whether an animation named `name` is running, looping or stopping.
    pub fn animation_running(&mut self, name: &str) -> (r: bool)
        requires
            distinct_animation_names(old(self).animations@),
        ensures
            *final(self) == *old(self),
            r == (match animation_index(old(self).animations@, name@) {
                Some(i) => is_under_way(old(self).animations@[i].1.status),
                None => false,
            }),
    {
        match self.find(name) {
            Some(i) => {
                let st = self.animations[i].1.status;
                st == AnimationStatus::Running || st == AnimationStatus::Looping || st
                    == AnimationStatus::Stopping
            },
            None => false,
        }
    }

    /// Stops `animation` if it runs or loops: at once when `force`, else at the end
    /// of its current run. Returns whether it was stopped.
    pub fn stop_single_animation(force: bool, animation: &mut Animation) -> (r: bool)
        ensures
            r == (stopped_status(old(animation).status, force) is Some),
            r ==> *final(animation) == with_status(*old(animation), stopped_status(old(animation).status, force).unwrap()),
            !r ==> *final(animation) == *old(animation),
    {
        if animation.status == AnimationStatus::Looping || animation.status == AnimationStatus::Running {
            if force {
                animation.status = AnimationStatus::ForceStopped;
            } else {
                animation.status = AnimationStatus::Stopping;
            }
            true
        } else {
            false
        }
    }

    /// Stops the animation `name`. Returns true if the animation has been stopped,
    /// false if it does not exist or was not running.
    pub fn stop_animation(&mut self, name: &str, force: bool) -> (r: bool)
        requires
            distinct_animation_names(old(self).animations@),
        ensures
            distinct_animation_names(final(self).animations@),
            r == (match animation_index(old(self).animations@, name@) {
                Some(i) => stopped_status(old(self).animations@[i].1.status, force) is Some,
                None => false,
            }),
            r ==> final(self).animations@ == old(self).animations@.update(
                animation_index(old(self).animations@, name@).unwrap(),
                (
                    old(self).animations@[animation_index(old(self).animations@, name@).unwrap()].0,
                    with_status(
                        old(self).animations@[animation_index(old(self).animations@, name@).unwrap()].1,
                        stopped_status(old(self).animations@[animation_index(old(self).animations@, name@).unwrap()].1.status, force).unwrap(),
                    ),
                ),
            ),
            !r ==> final(self).animations@ == old(self).animations@,
    {
        match self.find(name) {
            Some(i) => {
                let ghost before = self.animations@;
                let stopped = Animations::stop_single_animation(force, &mut self.animations[i].1);
                if stopped {
                    assert(self.animations@ =~= before.update(i as int, (before[i as int].0, with_status(before[i as int].1, stopped_status(before[i as int].1.status, force).unwrap()))));
                } else {
                    assert(self.animations@ =~= before);
                }
                assert forall|a: int, b: int| 0 <= a < b < self.animations@.len() implies #[trigger] self.animations@[a].0@
                    != #[trigger] self.animations@[b].0@ by {
                    assert(before[a].0@ != before[b].0@);
                }
                stopped
            },
            None => false,
        }
    }

    /// Stops all the animations.
    pub fn stop_all_animation(&mut self, force: bool)
        ensures
            final(self).animations@.len() == old(self).animations@.len(),
            forall|i: int|
                0 <= i < old(self).animations@.len() ==> #[trigger] final(self).animations@[i] == (
                    old(self).animations@[i].0,
                    match stopped_status(old(self).animations@[i].1.status, force) {
                        Some(st) => with_status(old(self).animations@[i].1, st),
                        None => old(self).animations@[i].1,
                    },
                ),
    {
        let ghost before = self.animations@;
        let mut i: usize = 0;
        while i < self.animations.len()
            invariant
                i <= before.len(),
                self.animations@.len() == before.len(),
                forall|j: int|
                    0 <= j < i ==> #[trigger] self.animations@[j] == (
                        before[j].0,
                        match stopped_status(before[j].1.status, force) {
                            Some(st) => with_status(before[j].1, st),
                            None => before[j].1,
                        },
                    ),
                forall|j: int| i <= j < before.len() ==> #[trigger] self.animations@[j] == before[j],
            decreases self.animations.len() - i,
        {
            let _stopped = Animations::stop_single_animation(force, &mut self.animations[i].1);
            i = i + 1;
        }
    }

    /// The animations, to change them.
    pub fn animations_mut(&mut self) -> (r: &mut Vec<(String, Animation)>)
        ensures
            *r == old(self).animations,
            final(self).animations == *final(r),
    {
        &mut self.animations
    }

    /// Whether any animation is running, looping or stopping.
    pub fn any_animation_running(&self) -> (r: bool)
        ensures
            r == exists|i: int| 0 <= i < self.animations@.len() && is_under_way(#[trigger] self.animations@[i].1.status),
    {
        let mut i: usize = 0;
        while i < self.animations.len()
            invariant
                i <= self.animations@.len(),
                forall|j: int| 0 <= j < i ==> !is_under_way(#[trigger] self.animations@[j].1.status),
            decreases self.animations.len() - i,
        {
            let st = self.animations[i].1.status;
            if st == AnimationStatus::Running || st == AnimationStatus::Looping || st == AnimationStatus::Stopping {
                assert(is_under_way(self.animations@[i as int].1.status));
                return true;
            }
            i = i + 1;
        }
        false
    }
}

/// An animation started by `run_animation` is reported running by `animation_running`.
pub proof fn law_started_animation_runs(s: Seq<(String, Animation)>, name: Seq<char>)
    requires
        distinct_animation_names(s),
        animation_index(s, name) is Some,
        s[animation_index(s, name).unwrap()].1.status == AnimationStatus::Stopped,
    ensures
        ({
            let i = animation_index(s, name).unwrap();
            let s1 = s.update(i, (s[i].0, with_status(s[i].1, AnimationStatus::Running)));
            &&& animation_index(s1, name) == Some(i)
            &&& is_under_way(s1[i].1.status)
        }),
{
    let i = animation_index(s, name).unwrap();
    let s1 = s.update(i, (s[i].0, with_status(s[i].1, AnimationStatus::Running)));
    assert(distinct_animation_names(s1)) by {
        assert forall|a: int, b: int| 0 <= a < b < s1.len() implies #[trigger] s1[a].0@ != #[trigger] s1[b].0@ by {
            assert(s1[a].0 == s[a].0 && s1[b].0 == s[b].0);
        }
    }
    lemma_animation_index(s1, i);
}

/// Running an animation that already runs or loops is refused.
pub proof fn law_running_animation_cannot_start(s: Seq<(String, Animation)>, name: Seq<char>)
    requires
        animation_index(s, name) is Some,
        is_under_way(s[animation_index(s, name).unwrap()].1.status),
    ensures
        s[animation_index(s, name).unwrap()].1.status != AnimationStatus::Stopped,
{
}

/// Once all animations were stopped, none runs or loops any more.
pub proof fn law_stop_all_stops(status: AnimationStatus, force: bool)
    ensures
        ({
            let after = match stopped_status(status, force) {
                Some(st) => st,
                None => status,
            };
            after != AnimationStatus::Running && after != AnimationStatus::Looping
        }),
{
}

/// Some animation runs exactly when some animation, by its name, is reported running.
pub proof fn law_any_running_is_some_running(s: Seq<(String, Animation)>)
    requires
        distinct_animation_names(s),
    ensures
        (exists|i: int| 0 <= i < s.len() && is_under_way(#[trigger] s[i].1.status)) <==> (exists|name: Seq<char>|
            #[trigger] animation_index(s, name) is Some && is_under_way(s[animation_index(s, name).unwrap()].1.status)),
{
    if exists|i: int| 0 <= i < s.len() && is_under_way(#[trigger] s[i].1.status) {
        let i = choose|i: int| 0 <= i < s.len() && is_under_way(#[trigger] s[i].1.status);
        lemma_animation_index(s, i);
        assert(animation_index(s, s[i].0@) is Some);
    }
    if exists|name: Seq<char>|
        #[trigger] animation_index(s, name) is Some && is_under_way(s[animation_index(s, name).unwrap()].1.status) {
        let name = choose|name: Seq<char>|
            #[trigger] animation_index(s, name) is Some && is_under_way(s[animation_index(s, name).unwrap()].1.status);
        let i = animation_index(s, name).unwrap();
        assert(0 <= i < s.len() && is_under_way(s[i].1.status));
    }
}

/// A graceful stop ends the animation once its run completes: an animation that
/// runs or loops, stopped without force, whose modifiers all reached their last
/// keyframe, is stopped at its next status update, its modifiers back at their
/// first keyframe; it is then no longer under way and can be run again.
pub proof fn law_graceful_stop_ends(a: AnimationView)
    requires
        a.status == AnimationStatus::Running || a.status == AnimationStatus::Looping,
        all_done(a.modifiers),
    ensures
        stopped_status(a.status, false) == Some(AnimationStatus::Stopping),
        ({
            let after = status_updated(AnimationView { status: AnimationStatus::Stopping, ..a });
            &&& after.status == AnimationStatus::Stopped
            &&& !is_under_way(after.status)
            &&& after.modifiers.len() == a.modifiers.len()
            &&& forall|j: int| 0 <= j < after.modifiers.len() ==> (#[trigger] after.modifiers[j]).current_keyframe == 0
        }),
{
}

/// A stopping animation whose run is not over keeps stopping, and one whose
/// run is over is stopped: a status update never leaves a stopping animation
/// with all its modifiers at their last keyframe.
pub proof fn law_stopping_animation_ends_with_its_run(a: AnimationView)
    requires
        a.status == AnimationStatus::Stopping,
    ensures
        all_done(a.modifiers) ==> status_updated(a).status == AnimationStatus::Stopped,
        !all_done(a.modifiers) ==> status_updated(a).status == AnimationStatus::Stopping && status_updated(a).modifiers
            == a.modifiers,
{
}

/// Every animation that a stop request can stop is reported under way: a
/// running or a looping animation is running.
pub proof fn law_stoppable_animation_is_running(status: AnimationStatus, force: bool)
    ensures
        stopped_status(status, force) is Some ==> is_under_way(status),
        status == AnimationStatus::Running || status == AnimationStatus::Looping ==> is_under_way(status),
        is_under_way(status) <==> (status != AnimationStatus::Stopped && status != AnimationStatus::ForceStopped),
{
}

/// An animation started by `loop_animation` is reported running by
/// `animation_running`, and so some animation is running.
pub proof fn law_looped_animation_runs(s: Seq<(String, Animation)>, name: Seq<char>)
    requires
        distinct_animation_names(s),
        animation_index(s, name) is Some,
        s[animation_index(s, name).unwrap()].1.status == AnimationStatus::Stopped,
    ensures
        ({
            let i = animation_index(s, name).unwrap();
            let s1 = s.update(i, (s[i].0, with_status(s[i].1, AnimationStatus::Looping)));
            &&& animation_index(s1, name) == Some(i)
            &&& is_under_way(s1[i].1.status)
            &&& exists|j: int| 0 <= j < s1.len() && is_under_way(#[trigger] s1[j].1.status)
        }),
{
    let i = animation_index(s, name).unwrap();
    let s1 = s.update(i, (s[i].0, with_status(s[i].1, AnimationStatus::Looping)));
    assert(distinct_animation_names(s1)) by {
        assert forall|a: int, b: int| 0 <= a < b < s1.len() implies #[trigger] s1[a].0@ != #[trigger] s1[b].0@ by {
            assert(s1[a].0 == s[a].0 && s1[b].0 == s[b].0);
        }
    }
    lemma_animation_index(s1, i);
    assert(is_under_way(s1[i].1.status));
}

/// A status update leaves every animation within reach of `run_animation` or
/// still under way: a forced stop ends at once, keeping the keyframes reached; a
/// running animation ends when its run completes; a looping one never ends by
/// itself, and starts its run over once it completes; a stopped one stays so.
pub proof fn law_status_update_outcomes(a: AnimationView)
    ensures
        a.status == AnimationStatus::ForceStopped ==> status_updated(a).status == AnimationStatus::Stopped
            && status_updated(a).modifiers == a.modifiers,
        a.status == AnimationStatus::Running ==> (status_updated(a).status == AnimationStatus::Stopped <==> all_done(
            a.modifiers,
        )),
        a.status == AnimationStatus::Looping ==> status_updated(a).status == AnimationStatus::Looping,
        a.status == AnimationStatus::Stopped ==> status_updated(a).status == AnimationStatus::Stopped,
        status_updated(a).modifiers.len() == a.modifiers.len(),
        a.status != AnimationStatus::ForceStopped && all_done(a.modifiers) ==> forall|j: int|
            0 <= j < a.modifiers.len() ==> (#[trigger] status_updated(a).modifiers[j]).current_keyframe == 0,
        a.status != AnimationStatus::ForceStopped && !all_done(a.modifiers) ==> status_updated(a) == a,
{
}

} // verus!
