//! The game data: the entities with their components, and the resources.
use vstd::prelude::*;
use crate::animations::Animations;
use crate::font::{Font, TextGlyph};
use crate::components::{copy_material, Camera, Collider, EntityId, Material, MaterialView, Sprite, Transform, UiFocusable, UiImage};
use crate::inputs::InputsController;
use crate::time::Timers;
use crate::ui::{UiButton, UiInput, UiText};

verus! {

/// The components an entity carries. A missing component is `None` or `false`.
pub struct Components {
    pub parent: Option<EntityId>,
    pub children: Option<Vec<EntityId>>,
    pub hide: bool,
    pub hide_propagated: bool,
    pub focusable: Option<UiFocusable>,
    pub ui_input: Option<UiInput>,
    pub ui_text: Option<UiText>,
    pub transform: Option<Transform>,
    pub camera: Option<Camera>,
    pub default_camera: bool,
    pub ui_component: bool,
    pub ui_image: Option<UiImage>,
    pub ui_button: Option<UiButton>,
    /// The entity is one character image of a text.
    pub ui_text_image: Option<TextGlyph>,
    pub sprite: Option<Sprite>,
    pub material: Option<Material>,
    /// Reference, in the asset manager, of the material the entity is painted with.
    pub material_ref: Option<usize>,
    pub animations: Option<Animations>,
    pub collider: Option<Collider>,
    /// The entity draws the outline of its parent's collider.
    pub collider_debug: bool,
}

impl Components {
    /// No component at all.
    pub open spec fn empty_spec() -> Components {
        Components {
            parent: None,
            children: None,
            hide: false,
            hide_propagated: false,
            focusable: None,
            ui_input: None,
            ui_text: None,
            transform: None,
            camera: None,
            default_camera: false,
            ui_component: false,
            ui_image: None,
            ui_button: None,
            ui_text_image: None,
            sprite: None,
            material: None,
            material_ref: None,
            animations: None,
            collider: None,
            collider_debug: false,
        }
    }

    /// No component at all.
    pub fn empty() -> (c: Components)
        ensures
            c == Components::empty_spec(),
    {
        Components {
            parent: None,
            children: None,
            hide: false,
            hide_propagated: false,
            focusable: None,
            ui_input: None,
            ui_text: None,
            transform: None,
            camera: None,
            default_camera: false,
            ui_component: false,
            ui_image: None,
            ui_button: None,
            ui_text_image: None,
            sprite: None,
            material: None,
            material_ref: None,
            animations: None,
            collider: None,
            collider_debug: false,
        }
    }
}

/// An entity with its components.
pub struct EntityRecord {
    pub id: EntityId,
    pub components: Components,
}

/// The focus of the keyboard among the focusable UI components.
pub struct FocusManager {
    /// The focused entity with its rank.
    pub current: Option<(EntityId, usize)>,
}

impl FocusManager {
    /// Rank of the focused entity, if any.
    pub open spec fn current_focus_index_spec(&self) -> Option<usize> {
        match self.current {
            Some((_, rank)) => Some(rank),
            None => None,
        }
    }

    pub fn current_focus_index(&self) -> (r: Option<usize>)
        ensures
            r == (match self.current {
                Some((_, rank)) => Some(rank),
                None => None,
            }),
    {
        match self.current {
            Some((_, rank)) => Some(rank),
            None => None,
        }
    }

    pub fn current_focus_entity(&self) -> (r: Option<EntityId>)
        ensures
            r == (match self.current {
                Some((e, _)) => Some(e),
                None => None,
            }),
    {
        match self.current {
            Some((e, _)) => Some(e),
            None => None,
        }
    }

    pub fn change_focus(&mut self, entity: EntityId, rank: usize)
        ensures
            final(self).current == Some((entity, rank)),
    {
        self.current = Some((entity, rank));
    }

    pub fn reset_focus(&mut self)
        ensures
            final(self).current.is_none(),
    {
        self.current = None;
    }
}

/// Size of the window the game renders to.
pub struct Window {
    pub width: u32,
    pub height: u32,
}

/// A store of named flags shared by the systems.
pub struct GlobalStorage {
    pub flags: Vec<(String, bool)>,
}

/// `i` is the first position of a flag named `key` in `flags`.
pub open spec fn first_flag_at(flags: Seq<(String, bool)>, key: Seq<char>, i: int) -> bool {
    &&& 0 <= i < flags.len()
    &&& flags[i].0@ == key
    &&& forall|j: int| 0 <= j < i ==> #[trigger] flags[j].0@ != key
}

/// The first position of a flag named `key` in `flags`, if any.
pub open spec fn flag_index(flags: Seq<(String, bool)>, key: Seq<char>) -> Option<int> {
    if exists|i: int| #[trigger] first_flag_at(flags, key, i) {
        Some(choose|i: int| #[trigger] first_flag_at(flags, key, i))
    } else {
        None
    }
}

/// The first position of a name is unique.
pub proof fn lemma_first_flag_unique(flags: Seq<(String, bool)>, key: Seq<char>, i: int, j: int)
    requires
        first_flag_at(flags, key, i),
        first_flag_at(flags, key, j),
    ensures
        i == j,
{
    if i < j {
        assert(flags[i].0@ != key);
    } else if j < i {
        assert(flags[j].0@ != key);
    }
}

/// The value of the flag named `key`, if it is set.
pub open spec fn flag_value(flags: Seq<(String, bool)>, key: Seq<char>) -> Option<bool> {
    match flag_index(flags, key) {
        Some(i) => Some(flags[i].1),
        None => None,
    }
}

impl GlobalStorage {
    /// No flag.
    pub fn new() -> (r: GlobalStorage)
        ensures
            r.flags@.len() == 0,
    {
        GlobalStorage { flags: Vec::new() }
    }

    /// The value of the flag named `key`, if it is set.
    pub fn flag(&self, key: &str) -> (r: Option<bool>)
        ensures
            r == flag_value(self.flags@, key@),
    {
        let k = key.to_owned();
        let mut i: usize = 0;
        while i < self.flags.len()
            invariant
                i <= self.flags@.len(),
                k@ == key@,
                forall|j: int| 0 <= j < i ==> #[trigger] self.flags@[j].0@ != key@,
            decreases self.flags.len() - i,
        {
            if self.flags[i].0 == k {
                proof {
                    assert(first_flag_at(self.flags@, key@, i as int));
                    let c = choose|j: int| #[trigger] first_flag_at(self.flags@, key@, j);
                    lemma_first_flag_unique(self.flags@, key@, i as int, c);
                }
                return Some(self.flags[i].1);
            }
            i = i + 1;
        }
        proof {
            if exists|j: int| #[trigger] first_flag_at(self.flags@, key@, j) {
                let c = choose|j: int| #[trigger] first_flag_at(self.flags@, key@, j);
                assert(self.flags@[c].0@ != key@);
            }
        }
        None
    }

    /// Sets the flag named `key` to `value`.
    pub fn set_flag(&mut self, key: &str, value: bool)
        ensures
            flag_index(old(self).flags@, key@) is Some ==> final(self).flags@ == old(self).flags@.update(
                flag_index(old(self).flags@, key@).unwrap(),
                (old(self).flags@[flag_index(old(self).flags@, key@).unwrap()].0, value),
            ),
            flag_index(old(self).flags@, key@) is None ==> final(self).flags@.len() == old(self).flags@.len() + 1
                && final(self).flags@.drop_last() == old(self).flags@ && final(self).flags@.last().0@ == key@
                && final(self).flags@.last().1 == value,
            flag_value(final(self).flags@, key@) == Some(value),
    {
        let k = key.to_owned();
        let mut i: usize = 0;
        while i < self.flags.len()
            invariant
                i <= self.flags@.len(),
                k@ == key@,
                self.flags@ == old(self).flags@,
                forall|j: int| 0 <= j < i ==> #[trigger] self.flags@[j].0@ != key@,
            decreases self.flags.len() - i,
        {
            if self.flags[i].0 == k {
                proof {
                    assert(first_flag_at(self.flags@, key@, i as int));
                    let c = choose|j: int| #[trigger] first_flag_at(self.flags@, key@, j);
                    lemma_first_flag_unique(self.flags@, key@, i as int, c);
                }
                self.flags[i].1 = value;
                proof {
                    assert(first_flag_at(self.flags@, key@, i as int));
                    let c = choose|j: int| #[trigger] first_flag_at(self.flags@, key@, j);
                    lemma_first_flag_unique(self.flags@, key@, i as int, c);
                }
                return;
            }
            i = i + 1;
        }
        proof {
            if exists|j: int| #[trigger] first_flag_at(self.flags@, key@, j) {
                let c = choose|j: int| #[trigger] first_flag_at(self.flags@, key@, j);
                assert(self.flags@[c].0@ != key@);
            }
        }
        self.flags.push((k, value));
        proof {
            let n = self.flags@.len() - 1;
            assert(self.flags@.drop_last() == old(self).flags@);
            assert(first_flag_at(self.flags@, key@, n)) by {
                assert forall|j: int| 0 <= j < n implies #[trigger] self.flags@[j].0@ != key@ by {
                    assert(self.flags@[j] == old(self).flags@[j]);
                }
            }
            let c = choose|j: int| #[trigger] first_flag_at(self.flags@, key@, j);
            lemma_first_flag_unique(self.flags@, key@, n, c);
        }
    }
}

/// The assets of the game, by reference.
pub struct AssetManager {
    pub materials: Vec<Material>,
    pub fonts: Vec<Font>,
}

impl AssetManager {
    /// No asset.
    pub fn new() -> (r: AssetManager)
        ensures
            r.materials@.len() == 0,
            r.fonts@.len() == 0,
    {
        AssetManager { materials: Vec::new(), fonts: Vec::new() }
    }

    /// Registers the material `m`, and returns its reference.
    pub fn register_material(&mut self, m: Material) -> (r: usize)
        ensures
            r == old(self).materials@.len(),
            final(self).materials@ == old(self).materials@.push(m),
            final(self).fonts == old(self).fonts,
    {
        let r = self.materials.len();
        self.materials.push(m);
        r
    }

    /// The material of reference `r`.
    pub fn get_material_for_ref(&self, r: usize) -> (m: Material)
        requires
            r < self.materials@.len(),
        ensures
            m@ == self.materials@[r as int]@,
    {
        copy_material(&self.materials[r])
    }

    /// Registers the font `f`, and returns its reference.
    pub fn register_font(&mut self, f: Font) -> (r: usize)
        ensures
            r == old(self).fonts@.len(),
            final(self).fonts@ == old(self).fonts@.push(f),
            final(self).materials == old(self).materials,
    {
        let r = self.fonts.len();
        self.fonts.push(f);
        r
    }

    /// The font of reference `r`.
    pub fn get_font_for_ref(&self, r: usize) -> (f: &Font)
        requires
            r < self.fonts@.len(),
        ensures
            *f == self.fonts@[r as int],
    {
        &self.fonts[r]
    }
}

/// The resources of the game.
pub struct Resources {
    pub assets: AssetManager,
    pub inputs: InputsController,
    pub focus_manager: FocusManager,
    pub window: Window,
    pub global_storage: GlobalStorage,
    pub timers: Timers,
}

/// The entities and the resources of a game.
pub struct GameData {
    /// The entities, in the order they were created.
    pub entities: Vec<EntityRecord>,
    /// The identifier the next created entity gets.
    pub next_id: EntityId,
    pub resources: Resources,
}

impl GameData {
    /// Identifiers are distinct and below `next_id`.
    pub open spec fn wf(&self) -> bool {
        &&& forall|i: int, j: int|
            0 <= i < j < self.entities@.len() ==> #[trigger] self.entities@[i].id
                != #[trigger] self.entities@[j].id
        &&& forall|i: int| 0 <= i < self.entities@.len() ==> #[trigger] self.entities@[i].id < self.next_id
    }

    /// Whether an entity with identifier `id` is alive.
    pub open spec fn has(&self, id: EntityId) -> bool {
        exists|i: int| 0 <= i < self.entities@.len() && #[trigger] self.entities@[i].id == id
    }

    /// Position of the entity `id` among the entities.
    pub open spec fn index_of(&self, id: EntityId) -> int {
        choose|i: int| 0 <= i < self.entities@.len() && #[trigger] self.entities@[i].id == id
    }

    /// The components of the live entity `id`.
    pub open spec fn get(&self, id: EntityId) -> Components {
        self.entities@[self.index_of(id)].components
    }

    /// Empty game data.
    pub fn new(resources: Resources) -> (d: GameData)
        ensures
            d.wf(),
            d.entities@.len() == 0,
            d.next_id == 0,
            d.resources == resources,
    {
        GameData { entities: Vec::new(), next_id: 0, resources }
    }

    /// Position of the entity `id`, if it is alive.
    pub fn find(&self, id: EntityId) -> (r: Option<usize>)
        ensures
            match r {
                Some(i) => i < self.entities@.len() && self.entities@[i as int].id == id,
                None => !self.has(id),
            },
    {
        let mut i: usize = 0;
        while i < self.entities.len()
            invariant
                i <= self.entities@.len(),
                forall|j: int| 0 <= j < i ==> #[trigger] self.entities@[j].id != id,
            decreases self.entities.len() - i,
        {
            if self.entities[i].id == id {
                return Some(i);
            }
            i = i + 1;
        }
        None
    }

    /// Whether the entity `id` is alive.
    pub fn contains(&self, id: EntityId) -> (r: bool)
        ensures
            r == self.has(id),
    {
        self.find(id).is_some()
    }

    /// Creates an entity carrying `components`, and returns its identifier.
    pub fn push(&mut self, components: Components) -> (id: EntityId)
        requires
            old(self).wf(),
            old(self).next_id < u64::MAX,
        ensures
            final(self).wf(),
            id == old(self).next_id,
            !old(self).has(id),
            final(self).next_id == old(self).next_id + 1,
            final(self).entities@ == old(self).entities@.push(EntityRecord { id, components }),
            final(self).resources == old(self).resources,
    {
        let id = self.next_id;
        self.entities.push(EntityRecord { id, components });
        self.next_id = self.next_id + 1;
        id
    }

    /// Removes the entity `id`. Returns whether it was alive.
    pub fn remove(&mut self, id: EntityId) -> (r: bool)
        requires
            old(self).wf(),
        ensures
            final(self).wf(),
            r == old(self).has(id),
            r ==> final(self).entities@ == old(self).entities@.remove(old(self).index_of(id)),
            !r ==> final(self).entities@ == old(self).entities@,
            final(self).next_id == old(self).next_id,
            final(self).resources == old(self).resources,
    {
        match self.find(id) {
            Some(i) => {
                proof {
                    lemma_index_of(self, id, i as int);
                }
                let _e = self.entities.remove(i);
                true
            },
            None => false,
        }
    }
}

/// The position of a live entity is the one where its identifier stands.
pub proof fn lemma_index_of(d: &GameData, id: EntityId, i: int)
    requires
        d.wf(),
        0 <= i < d.entities@.len(),
        d.entities@[i].id == id,
    ensures
        d.has(id),
        d.index_of(id) == i,
{
    assert(d.has(id));
    let k = d.index_of(id);
    if k != i {
        if k < i {
            assert(d.entities@[k].id != d.entities@[i].id);
        } else {
            assert(d.entities@[i].id != d.entities@[k].id);
        }
    }
}

} // verus!

verus! {

/// Whether `v` holds `x`.
pub fn contains_id(v: &Vec<EntityId>, x: EntityId) -> (r: bool)
    ensures
        r == v@.contains(x),
{
    let mut i: usize = 0;
    while i < v.len()
        invariant
            i <= v.len(),
            forall|j: int| 0 <= j < i ==> v@[j] != x,
        decreases v.len() - i,
    {
        if v[i] == x {
            assert(v@[i as int] == x);
            return true;
        }
        i = i + 1;
    }
    false
}

} // verus!

verus! {

/// Concatenation holds exactly what either side holds.
pub proof fn lemma_concat_contains<A>(a: Seq<A>, b: Seq<A>, x: A)
    ensures
        (a + b).contains(x) <==> (a.contains(x) || b.contains(x)),
{
    if (a + b).contains(x) {
        let p = choose|p: int| 0 <= p < (a + b).len() && (a + b)[p] == x;
        if p < a.len() {
            assert(a[p] == x);
        } else {
            assert(b[p - a.len()] == x);
        }
    }
    if a.contains(x) {
        let p = choose|p: int| 0 <= p < a.len() && a[p] == x;
        assert((a + b)[p] == x);
    }
    if b.contains(x) {
        let p = choose|p: int| 0 <= p < b.len() && b[p] == x;
        assert((a + b)[a.len() + p] == x);
    }
}

/// Appends every identifier of `src` to `dst`.
pub fn extend_ids(dst: &mut Vec<EntityId>, src: &Vec<EntityId>)
    ensures
        final(dst)@ == old(dst)@ + src@,
{
    let mut c: usize = 0;
    while c < src.len()
        invariant
            c <= src.len(),
            dst@ == old(dst)@ + src@.subrange(0, c as int),
        decreases src.len() - c,
    {
        dst.push(src[c]);
        assert(src@.subrange(0, c as int).push(src@[c as int]) == src@.subrange(0, c + 1));
        c = c + 1;
    }
    assert(src@.subrange(0, src@.len() as int) == src@);
}

} // verus!

verus! {

/// `b` lists the same identifiers as `a`, in the same order.
pub open spec fn same_ids(a: Seq<EntityRecord>, b: Seq<EntityRecord>) -> bool {
    &&& a.len() == b.len()
    &&& forall|i: int| 0 <= i < a.len() ==> #[trigger] b[i].id == a[i].id
}

/// Changing components in place keeps the game data well formed.
pub proof fn lemma_wf_same_ids(d0: &GameData, d1: &GameData)
    requires
        d0.wf(),
        same_ids(d0.entities@, d1.entities@),
        d1.next_id == d0.next_id,
    ensures
        d1.wf(),
{
    assert forall|a: int, b: int|
        0 <= a < b < d1.entities@.len() implies #[trigger] d1.entities@[a].id
            != #[trigger] d1.entities@[b].id by {
        assert(d0.entities@[a].id != d0.entities@[b].id);
    }
    assert forall|a: int| 0 <= a < d1.entities@.len() implies #[trigger] d1.entities@[a].id
        < d1.next_id by {
        assert(d0.entities@[a].id < d0.next_id);
    }
}

} // verus!

verus! {
/// Setting the flag `key` leaves the other flags as they were.
pub proof fn lemma_set_flag_others(before: Seq<(String, bool)>, after: Seq<(String, bool)>, key: Seq<char>, value: bool)
    requires
        flag_index(before, key) is Some ==> after == before.update(flag_index(before, key).unwrap(), (before[flag_index(before, key).unwrap()].0, value)),
        flag_index(before, key) is None ==> after.len() == before.len() + 1 && after.drop_last() == before && after.last().0@ == key
            && after.last().1 == value,
    ensures
        forall|other: Seq<char>| other != key ==> #[trigger] flag_value(after, other) == flag_value(before, other),
{
    assert forall|other: Seq<char>| other != key implies #[trigger] flag_value(after, other) == flag_value(before, other) by {
        assert forall|i: int| 0 <= i < after.len() && after[i].0@ == other implies i < before.len() && before[i] == after[i] by {
            if flag_index(before, key) is Some {
                let k = flag_index(before, key).unwrap();
                if i == k {
                    assert(after[i].0@ == key);
                }
            } else {
                if i == before.len() {
                    assert(after[i] == after.last());
                } else {
                    assert(after[i] == after.drop_last()[i]);
                }
            }
        }
        assert forall|i: int| 0 <= i < before.len() && before[i].0@ == other implies i < after.len() && before[i] == after[i] by {
            if flag_index(before, key) is Some {
                let k = flag_index(before, key).unwrap();
                if i == k {
                    assert(before[i].0@ == key);
                }
            } else {
                assert(after.drop_last()[i] == after[i]);
            }
        }
        if exists|i: int| #[trigger] first_flag_at(after, other, i) {
            let i = choose|i: int| #[trigger] first_flag_at(after, other, i);
            assert(first_flag_at(before, other, i)) by {
                assert forall|j: int| 0 <= j < i implies #[trigger] before[j].0@ != other by {
                    assert(after[j].0@ != other);
                    if before[j].0@ == other {
                        assert(before[j] == after[j]);
                    }
                }
            }
            let c = choose|j: int| #[trigger] first_flag_at(before, other, j);
            lemma_first_flag_unique(before, other, i, c);
        }
        if exists|i: int| #[trigger] first_flag_at(before, other, i) {
            let i = choose|i: int| #[trigger] first_flag_at(before, other, i);
            assert(first_flag_at(after, other, i)) by {
                assert forall|j: int| 0 <= j < i implies #[trigger] after[j].0@ != other by {
                    assert(before[j].0@ != other);
                    if after[j].0@ == other {
                        assert(before[j] == after[j]);
                    }
                }
            }
            let c = choose|j: int| #[trigger] first_flag_at(after, other, j);
            lemma_first_flag_unique(after, other, i, c);
        }
    }
}

} // verus!

verus! {
/// The entities `es` followed by new entities with the components `cs`, numbered from `next`.
pub open spec fn appended(es: Seq<EntityRecord>, cs: Seq<Components>, next: u64) -> Seq<EntityRecord> {
    es + Seq::new(cs.len(), |i: int| EntityRecord { id: (next + i) as u64, components: cs[i] })
}

impl GameData {
    /// Creates one entity for each of `cs`, in order.
    pub fn push_all(&mut self, cs: Vec<Components>)
        requires
            old(self).wf(),
            old(self).next_id + cs@.len() < u64::MAX,
        ensures
            final(self).wf(),
            final(self).entities@ == appended(old(self).entities@, cs@, old(self).next_id),
            final(self).next_id == old(self).next_id + cs@.len(),
            final(self).resources == old(self).resources,
    {
        let ghost es = self.entities@;
        let ghost next0 = self.next_id;
        let ghost all = cs@;
        let mut rest = cs;
        let m = rest.len();
        let mut j: usize = 0;
        while j < m
            invariant
                m == all.len(),
                next0 + m < u64::MAX,
                j <= m,
                rest@ == all.subrange(j as int, m as int),
                self.wf(),
                self.entities@ == appended(es, all.subrange(0, j as int), next0),
                self.next_id == next0 + j,
                self.resources == old(self).resources,
            decreases m - j,
        {
            let c = rest.remove(0);
            assert(c == all[j as int]);
            assert(rest@ == all.subrange(j + 1, m as int));
            let _id = self.push(c);
            assert(self.entities@ =~= appended(es, all.subrange(0, j + 1), next0));
            j = j + 1;
        }
        assert(all.subrange(0, m as int) == all);
    }
}

} // verus!
