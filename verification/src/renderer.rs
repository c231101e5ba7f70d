//! What the renderer keeps track of between frames: the textures it loaded and
//! when their files were modified, and the entities it holds buffers for.
use vstd::prelude::*;
use crate::components::{Color, EntityId, Material, MaterialView};
use crate::time::{distinct_names, timer_index};
use crate::world::{EntityRecord, GameData};

verus! {

/// A file could not be read.
#[derive(PartialEq, Eq, Structural, Clone, Copy, Debug)]
pub enum FileReaderError {
    Unreadable,
}

/// `i` is the first position of the texture `path` in `entries`.
pub open spec fn first_texture_at(entries: Seq<(String, u64)>, path: Seq<char>, i: int) -> bool {
    &&& 0 <= i < entries.len()
    &&& entries[i].0@ == path
    &&& forall|j: int| 0 <= j < i ==> #[trigger] entries[j].0@ != path
}

/// The modification time recorded for the texture `path`, if it was loaded.
pub open spec fn timestamp_of(entries: Seq<(String, u64)>, path: Seq<char>) -> Option<u64> {
    if exists|i: int| #[trigger] first_texture_at(entries, path, i) {
        let i = choose|i: int| #[trigger] first_texture_at(entries, path, i);
        Some(entries[i].1)
    } else {
        None
    }
}

/// The first position of a path is unique.
proof fn lemma_first_texture_unique(entries: Seq<(String, u64)>, path: Seq<char>, i: int, j: int)
    requires
        first_texture_at(entries, path, i),
        first_texture_at(entries, path, j),
    ensures
        i == j,
{
    if i < j {
        assert(entries[i].0@ != path);
    } else if j < i {
        assert(entries[j].0@ != path);
    }
}

/// The bookkeeping of the 2D renderer.
pub struct ScionRenderer2D {
    /// Each texture loaded, with the modification time of its file, in nanoseconds.
    pub textures_timestamps: Vec<(String, u64)>,
    /// Entities with a transform uniform.
    pub transform_uniform: Vec<EntityId>,
    /// Entities with a vertex buffer.
    pub vertex_buffer: Vec<EntityId>,
    /// Entities with an index buffer.
    pub indexes_buffer: Vec<EntityId>,
}

/// Whether `v` holds `e`.
fn holds_entity(v: &Vec<EntityId>, e: EntityId) -> (r: bool)
    ensures
        r == v@.contains(e),
{
    let mut i: usize = 0;
    while i < v.len()
        invariant
            i <= v@.len(),
            forall|j: int| 0 <= j < i ==> v@[j] != e,
        decreases v.len() - i,
    {
        if v[i] == e {
            assert(v@[i as int] == e);
            return true;
        }
        i = i + 1;
    }
    false
}

/// Adds `e` to `v` if it is not there.
fn add_entity(v: &mut Vec<EntityId>, e: EntityId)
    ensures
        old(v)@.contains(e) ==> final(v)@ == old(v)@,
        !old(v)@.contains(e) ==> final(v)@ == old(v)@.push(e),
{
    if !holds_entity(v, e) {
        v.push(e);
    }
}

/// The entities of `v` that are alive in `data`, in order.
pub open spec fn alive_only(v: Seq<EntityId>, data: GameData) -> Seq<EntityId>
    decreases v.len(),
{
    if v.len() == 0 {
        Seq::empty()
    } else {
        let prev = alive_only(v.drop_last(), data);
        if data.has(v.last()) {
            prev.push(v.last())
        } else {
            prev
        }
    }
}

/// Keeps the entities of `v` that are alive in `data`.
fn retain_alive(v: &mut Vec<EntityId>, data: &GameData)
    ensures
        final(v)@ == alive_only(old(v)@, *data),
{
    let ghost v0 = v@;
    let mut kept: Vec<EntityId> = Vec::new();
    let mut i: usize = 0;
    while i < v.len()
        invariant
            v@ == v0,
            i <= v0.len(),
            kept@ == alive_only(v0.subrange(0, i as int), *data),
        decreases v.len() - i,
    {
        assert(v0.subrange(0, i + 1).drop_last() == v0.subrange(0, i as int));
        assert(v0.subrange(0, i + 1).last() == v0[i as int]);
        if data.contains(v[i]) {
            kept.push(v[i]);
        }
        i = i + 1;
    }
    assert(v0.subrange(0, v0.len() as int) == v0);
    *v = kept;
}

impl ScionRenderer2D {
    /// Nothing loaded yet.
    pub fn new() -> (r: Self)
        ensures
            r.textures_timestamps@.len() == 0,
            r.transform_uniform@.len() == 0,
            r.vertex_buffer@.len() == 0,
            r.indexes_buffer@.len() == 0,
    {
        ScionRenderer2D {
            textures_timestamps: Vec::new(),
            transform_uniform: Vec::new(),
            vertex_buffer: Vec::new(),
            indexes_buffer: Vec::new(),
        }
    }

    /// Position of the texture `path`.
    fn find_texture(&self, path: &str) -> (r: Option<usize>)
        ensures
            r is None <==> timestamp_of(self.textures_timestamps@, path@) is None,
            r is Some ==> first_texture_at(self.textures_timestamps@, path@, r.unwrap() as int),
    {
        let key = path.to_owned();
        let mut i: usize = 0;
        while i < self.textures_timestamps.len()
            invariant
                i <= self.textures_timestamps@.len(),
                key@ == path@,
                forall|j: int| 0 <= j < i ==> #[trigger] self.textures_timestamps@[j].0@ != path@,
            decreases self.textures_timestamps.len() - i,
        {
            if self.textures_timestamps[i].0 == key {
                assert(first_texture_at(self.textures_timestamps@, path@, i as int));
                return Some(i);
            }
            i = i + 1;
        }
        proof {
            if exists|j: int| #[trigger] first_texture_at(self.textures_timestamps@, path@, j) {
                let c = choose|j: int| #[trigger] first_texture_at(self.textures_timestamps@, path@, j);
                assert(self.textures_timestamps@[c].0@ != path@);
            }
        }
        None
    }

    /// Whether the texture `path` was not loaded yet.
    pub fn missing_texture(&self, path: &str) -> (r: bool)
        ensures
            r == (timestamp_of(self.textures_timestamps@, path@) is None),
    {
        self.find_texture(path).is_none()
    }

    /// Records that the texture `path` was loaded from a file modified at `timestamp`.
    pub fn upsert_texture_timestamps(&mut self, path: &str, timestamp: u64)
        ensures
            timestamp_of(final(self).textures_timestamps@, path@) == Some(timestamp),
            forall|other: Seq<char>| other != path@ ==> #[trigger] timestamp_of(final(self).textures_timestamps@, other)
                == timestamp_of(old(self).textures_timestamps@, other),
            final(self).transform_uniform == old(self).transform_uniform,
            final(self).vertex_buffer == old(self).vertex_buffer,
            final(self).indexes_buffer == old(self).indexes_buffer,
    {
        let ghost before = self.textures_timestamps@;
        match self.find_texture(path) {
            Some(i) => {
                self.textures_timestamps.set(i, (path.to_owned(), timestamp));
                proof {
                    let after = self.textures_timestamps@;
                    assert(first_texture_at(after, path@, i as int));
                    let c = choose|j: int| #[trigger] first_texture_at(after, path@, j);
                    lemma_first_texture_unique(after, path@, i as int, c);
                    lemma_same_first_elsewhere(before, after, path@);
                }
            },
            None => {
                self.textures_timestamps.push((path.to_owned(), timestamp));
                proof {
                    let after = self.textures_timestamps@;
                    let n = before.len() as int;
                    assert(first_texture_at(after, path@, n)) by {
                        assert forall|j: int| 0 <= j < n implies #[trigger] after[j].0@ != path@ by {
                            assert(after[j] == before[j]);
                            if before[j].0@ == path@ {
                                assert(exists|k: int| #[trigger] first_texture_at(before, path@, k)) by {
                                    lemma_some_first(before, path@, j);
                                }
                            }
                        }
                    }
                    let c = choose|j: int| #[trigger] first_texture_at(after, path@, j);
                    lemma_first_texture_unique(after, path@, n, c);
                    lemma_same_first_elsewhere(before, after, path@);
                }
            },
        }
    }

    /// Whether the texture `path` must be loaded again: it was never loaded, or
    /// its file was read and was modified at another time than recorded.
    pub fn should_reload_texture(&self, path: &str, new_timestamp: &Option<Result<u64, FileReaderError>>) -> (r: bool)
        ensures
            r == match timestamp_of(self.textures_timestamps@, path@) {
                None => true,
                Some(recorded) => match new_timestamp {
                    Some(Ok(t)) => *t != recorded,
                    _ => false,
                },
            },
    {
        match self.find_texture(path) {
            None => true,
            Some(i) => {
                proof {
                    let c = choose|j: int| #[trigger] first_texture_at(self.textures_timestamps@, path@, j);
                    lemma_first_texture_unique(self.textures_timestamps@, path@, i as int, c);
                }
                match new_timestamp {
                    Some(Ok(t)) => *t != self.textures_timestamps[i].1,
                    _ => false,
                }
            },
        }
    }

    /// Whether the entity `e` has no vertex buffer yet.
    pub fn missing_vertex_buffer(&self, e: EntityId) -> (r: bool)
        ensures
            r == !self.vertex_buffer@.contains(e),
    {
        !holds_entity(&self.vertex_buffer, e)
    }

    /// Records that the entity `e` has a vertex buffer.
    pub fn upsert_vertex_buffer(&mut self, e: EntityId)
        ensures
            final(self).vertex_buffer@.contains(e),
            old(self).vertex_buffer@.contains(e) ==> final(self).vertex_buffer@ == old(self).vertex_buffer@,
            !old(self).vertex_buffer@.contains(e) ==> final(self).vertex_buffer@ == old(self).vertex_buffer@.push(e),
            final(self).textures_timestamps == old(self).textures_timestamps,
            final(self).transform_uniform == old(self).transform_uniform,
            final(self).indexes_buffer == old(self).indexes_buffer,
    {
        add_entity(&mut self.vertex_buffer, e);
        assert(self.vertex_buffer@.contains(e) || self.vertex_buffer@[self.vertex_buffer@.len() - 1] == e);
    }

    /// Whether the entity `e` has no index buffer yet.
    pub fn missing_indexes_buffer(&self, e: EntityId) -> (r: bool)
        ensures
            r == !self.indexes_buffer@.contains(e),
    {
        !holds_entity(&self.indexes_buffer, e)
    }

    /// Records that the entity `e` has an index buffer.
    pub fn upsert_indexes_buffer(&mut self, e: EntityId)
        ensures
            final(self).indexes_buffer@.contains(e),
            old(self).indexes_buffer@.contains(e) ==> final(self).indexes_buffer@ == old(self).indexes_buffer@,
            !old(self).indexes_buffer@.contains(e) ==> final(self).indexes_buffer@ == old(self).indexes_buffer@.push(e),
            final(self).textures_timestamps == old(self).textures_timestamps,
            final(self).transform_uniform == old(self).transform_uniform,
            final(self).vertex_buffer == old(self).vertex_buffer,
    {
        add_entity(&mut self.indexes_buffer, e);
        assert(self.indexes_buffer@.contains(e) || self.indexes_buffer@[self.indexes_buffer@.len() - 1] == e);
    }

    /// Forgets the buffers of the entities that no longer exist.
    pub fn clean_buffers(&mut self, data: &GameData)
        ensures
            final(self).vertex_buffer@ == alive_only(old(self).vertex_buffer@, *data),
            final(self).indexes_buffer@ == alive_only(old(self).indexes_buffer@, *data),
            final(self).transform_uniform@ == alive_only(old(self).transform_uniform@, *data),
            final(self).textures_timestamps == old(self).textures_timestamps,
    {
        retain_alive(&mut self.vertex_buffer, data);
        retain_alive(&mut self.indexes_buffer, data);
        retain_alive(&mut self.transform_uniform, data);
    }
}

/// A path holding `path` has a first position.
proof fn lemma_some_first(entries: Seq<(String, u64)>, path: Seq<char>, j: int)
    requires
        0 <= j < entries.len(),
        entries[j].0@ == path,
    ensures
        exists|k: int| #[trigger] first_texture_at(entries, path, k),
    decreases j,
{
    if exists|k: int| 0 <= k < j && #[trigger] entries[k].0@ == path {
        let k = choose|k: int| 0 <= k < j && #[trigger] entries[k].0@ == path;
        lemma_some_first(entries, path, k);
    } else {
        assert(first_texture_at(entries, path, j));
    }
}

/// Entries that differ only at the positions of `path`, or past the end, give
/// the same timestamps to the other paths.
proof fn lemma_same_first_elsewhere(before: Seq<(String, u64)>, after: Seq<(String, u64)>, path: Seq<char>)
    requires
        after.len() >= before.len(),
        forall|j: int| 0 <= j < after.len() && #[trigger] after[j].0@ != path ==> j < before.len() && after[j] == before[j],
        forall|j: int| 0 <= j < before.len() && #[trigger] before[j].0@ != path ==> after[j] == before[j],
        forall|j: int| 0 <= j < before.len() && #[trigger] before[j].0@ == path ==> after[j].0@ == path,
    ensures
        forall|other: Seq<char>| other != path ==> #[trigger] timestamp_of(after, other) == timestamp_of(before, other),
{
    assert forall|other: Seq<char>| other != path implies #[trigger] timestamp_of(after, other) == timestamp_of(before, other) by {
        if exists|i: int| #[trigger] first_texture_at(after, other, i) {
            let i = choose|i: int| #[trigger] first_texture_at(after, other, i);
            assert(first_texture_at(before, other, i)) by {
                assert forall|j: int| 0 <= j < i implies #[trigger] before[j].0@ != other by {
                    assert(after[j].0@ != other);
                    if before[j].0@ != path {
                        assert(after[j] == before[j]);
                    }
                }
            }
            let c = choose|j: int| #[trigger] first_texture_at(before, other, j);
            lemma_first_texture_unique(before, other, i, c);
        }
        if exists|i: int| #[trigger] first_texture_at(before, other, i) {
            let i = choose|i: int| #[trigger] first_texture_at(before, other, i);
            assert(first_texture_at(after, other, i)) by {
                assert forall|j: int| 0 <= j < i implies #[trigger] after[j].0@ != other by {
                    assert(before[j].0@ != other);
                    if after[j].0@ != path {
                        assert(after[j] == before[j]);
                    }
                }
            }
            let c = choose|j: int| #[trigger] first_texture_at(after, other, j);
            lemma_first_texture_unique(after, other, i, c);
        }
    }
}

/// Reads the modification time of the file of the texture `path` with `read`,
/// when hot reloading is due or the texture was never loaded; else reads nothing.
pub fn read_modification_timestamp<F: FnOnce() -> Result<u64, FileReaderError>>(
    renderer: &ScionRenderer2D,
    hot_timer_cycle: bool,
    path: &str,
    read: F,
) -> (r: Option<Result<u64, FileReaderError>>)
    requires
        read.requires(()),
    ensures
        (hot_timer_cycle || timestamp_of(renderer.textures_timestamps@, path@) is None) ==> r is Some && read.ensures(
            (),
            r.unwrap(),
        ),
        !(hot_timer_cycle || timestamp_of(renderer.textures_timestamps@, path@) is None) ==> r is None,
{
    if hot_timer_cycle || renderer.missing_texture(path) {
        Some(read())
    } else {
        None
    }
}

/// The name of the timer of hot reloading.
pub open spec fn hot_reload_timer() -> Seq<char> {
    "hot-reload-timer"@
}

/// Whether the textures should be checked for a reload in this frame: when hot
/// reloading is enabled, its timer completed a cycle.
pub fn should_try_to_hot_reload(data: &GameData, hot_reload: bool) -> (r: bool)
    requires
        distinct_names(data.resources.timers@),
        hot_reload ==> timer_index(data.resources.timers@, hot_reload_timer()) is Some,
    ensures
        r == (hot_reload && data.resources.timers@[timer_index(data.resources.timers@, hot_reload_timer()).unwrap()].cycle > 0),
{
    if hot_reload {
        match data.resources.timers.timer_cycle("hot-reload-timer") {
            Some(cycle) => cycle > 0,
            None => false,
        }
    } else {
        false
    }
}

/// Decides whether the texture `path`, whose file was read as `new_timestamp`,
/// is loaded again; if so, records the time of its file, or `now` when the file
/// could not be read. Returns whether it is loaded again.
pub fn try_texture_update(
    renderer: &mut ScionRenderer2D,
    path: &str,
    new_timestamp: &Option<Result<u64, FileReaderError>>,
    now: u64,
) -> (r: bool)
    ensures
        r == match timestamp_of(old(renderer).textures_timestamps@, path@) {
            None => true,
            Some(recorded) => match new_timestamp {
                Some(Ok(t)) => *t != recorded,
                _ => false,
            },
        },
        r ==> timestamp_of(final(renderer).textures_timestamps@, path@) == Some(
            match new_timestamp {
                Some(Ok(t)) => *t,
                _ => now,
            },
        ),
        r ==> forall|other: Seq<char>| other != path@ ==> #[trigger] timestamp_of(final(renderer).textures_timestamps@, other)
            == timestamp_of(old(renderer).textures_timestamps@, other),
        !r ==> *final(renderer) == *old(renderer),
        final(renderer).vertex_buffer == old(renderer).vertex_buffer,
        final(renderer).indexes_buffer == old(renderer).indexes_buffer,
        final(renderer).transform_uniform == old(renderer).transform_uniform,
{
    if renderer.should_reload_texture(path, new_timestamp) {
        let timestamp = match new_timestamp {
            Some(Ok(t)) => *t,
            _ => now,
        };
        renderer.upsert_texture_timestamps(path, timestamp);
        true
    } else {
        false
    }
}

/// Decides whether the texture of a plain color, named `path`, is built: only
/// when it was never built; if so, records it as built at `now`. Returns whether
/// it is built.
pub fn try_color_update(renderer: &mut ScionRenderer2D, path: &str, now: u64) -> (r: bool)
    ensures
        r == (timestamp_of(old(renderer).textures_timestamps@, path@) is None),
        r ==> timestamp_of(final(renderer).textures_timestamps@, path@) == Some(now),
        r ==> forall|other: Seq<char>| other != path@ ==> #[trigger] timestamp_of(final(renderer).textures_timestamps@, other)
            == timestamp_of(old(renderer).textures_timestamps@, other),
        !r ==> *final(renderer) == *old(renderer),
        final(renderer).vertex_buffer == old(renderer).vertex_buffer,
        final(renderer).indexes_buffer == old(renderer).indexes_buffer,
        final(renderer).transform_uniform == old(renderer).transform_uniform,
{
    if renderer.missing_texture(path) {
        renderer.upsert_texture_timestamps(path, now);
        true
    } else {
        false
    }
}

/// What the renderer has to build or load in a frame.
#[derive(Clone, Debug, PartialEq, Eq)]
pub enum TextureUpdate {
    /// The texture of a plain color, under its name.
    Color { path: String, color: Color },
    /// The texture of the file `path`.
    Texture { path: String },
    /// The tileset whose texture is the file `path`.
    Tileset { path: String },
}

/// A texture update, its path taken by its characters.
pub enum TextureUpdateView {
    Color { path: Seq<char>, color: Color },
    Texture { path: Seq<char> },
    Tileset { path: Seq<char> },
}

impl View for TextureUpdate {
    type V = TextureUpdateView;

    open spec fn view(&self) -> TextureUpdateView {
        match self {
            TextureUpdate::Color { path, color } => TextureUpdateView::Color { path: path@, color: *color },
            TextureUpdate::Texture { path } => TextureUpdateView::Texture { path: path@ },
            TextureUpdate::Tileset { path } => TextureUpdateView::Tileset { path: path@ },
        }
    }
}

/// The modification time recorded for each texture path.
pub open spec fn stamps_of(entries: Seq<(String, u64)>) -> spec_fn(Seq<char>) -> Option<u64> {
    |p: Seq<char>| timestamp_of(entries, p)
}

/// `stamps`, with the time `t` recorded for `path`.
pub open spec fn recorded_at(stamps: spec_fn(Seq<char>) -> Option<u64>, path: Seq<char>, t: u64) -> spec_fn(
    Seq<char>,
) -> Option<u64> {
    |q: Seq<char>| if q == path { Some(t) } else { stamps(q) }
}

/// The material of each entity.
pub open spec fn materials_of(es: Seq<EntityRecord>) -> Seq<Option<MaterialView>> {
    es.map_values(
        |r: EntityRecord|
            match r.components.material {
                Some(m) => Some(m@),
                None => None,
            },
    )
}

/// Whether a material is painted with a plain color: a color or a diffuse color.
pub open spec fn colored(m: Option<Material>) -> bool {
    m matches Some(Material::Color(_)) || m matches Some(Material::Diffuse(_))
}

/// The color of a color or diffuse material.
pub open spec fn material_color(m: Option<Material>) -> Color {
    match m {
        Some(Material::Color(c)) => c,
        Some(Material::Diffuse(c)) => c,
        _ => arbitrary(),
    }
}

/// The path of the file of a texture or tileset material.
pub open spec fn file_path(m: Option<Material>) -> String {
    match m {
        Some(Material::Texture(p)) => p,
        Some(Material::Tileset(p)) => p,
        _ => arbitrary(),
    }
}

/// The file of `path` is read: hot reloading is due, or it was never loaded.
pub open spec fn file_read(stamps: spec_fn(Seq<char>) -> Option<u64>, path: Seq<char>, hot: bool) -> bool {
    hot || stamps(path) is None
}

/// The texture of `path` is loaded again, its file having been read as `read`
/// where it was read at all.
pub open spec fn file_reloaded(
    stamps: spec_fn(Seq<char>) -> Option<u64>,
    path: Seq<char>,
    hot: bool,
    read: Result<u64, FileReaderError>,
) -> bool {
    match stamps(path) {
        None => true,
        Some(recorded) => hot && read is Ok && read->Ok_0 != recorded,
    }
}

/// The time recorded for a texture loaded again: that of its file, or `now`
/// when the file could not be read.
pub open spec fn file_time(read: Result<u64, FileReaderError>, now: u64) -> u64 {
    match read {
        Ok(t) => t,
        Err(_) => now,
    }
}

/// A material of the color `c`, whose texture is named `o.1`: its texture is
/// built, and recorded at the time `o.2`, when it was never built.
pub open spec fn color_step(
    stamps: spec_fn(Seq<char>) -> Option<u64>,
    c: Color,
    o: (Result<u64, FileReaderError>, String, u64),
) -> (spec_fn(Seq<char>) -> Option<u64>, Option<TextureUpdateView>, bool) {
    if stamps(o.1@) is None {
        (recorded_at(stamps, o.1@, o.2), Some(TextureUpdateView::Color { path: o.1@, color: c }), false)
    } else {
        (stamps, None, false)
    }
}

/// One entity's material in a frame, given what its file read gave, the name
/// of its color's texture and the time (`o`): the timestamps after it, the
/// update it asks for, and whether its file was read.
pub open spec fn material_step(
    stamps: spec_fn(Seq<char>) -> Option<u64>,
    m: Option<MaterialView>,
    hot: bool,
    o: (Result<u64, FileReaderError>, String, u64),
) -> (spec_fn(Seq<char>) -> Option<u64>, Option<TextureUpdateView>, bool) {
    match m {
        Some(MaterialView::Color(c)) => color_step(stamps, c, o),
        Some(MaterialView::Diffuse(c)) => color_step(stamps, c, o),
        Some(MaterialView::Texture(p)) => if file_reloaded(stamps, p, hot, o.0) {
            (recorded_at(stamps, p, file_time(o.0, o.2)), Some(TextureUpdateView::Texture { path: p }), file_read(stamps, p, hot))
        } else {
            (stamps, None, file_read(stamps, p, hot))
        },
        Some(MaterialView::Tileset(p)) => if file_reloaded(stamps, p, hot, o.0) {
            (recorded_at(stamps, p, file_time(o.0, o.2)), Some(TextureUpdateView::Tileset { path: p }), file_read(stamps, p, hot))
        } else {
            (stamps, None, file_read(stamps, p, hot))
        },
        _ => (stamps, None, false),
    }
}

/// The materials `mats` taken in order, entity `i` with the outcome `outs[i]`:
/// the timestamps after them, the updates they ask for, and, for each entity,
/// whether its file was read.
pub open spec fn material_updates_after(
    stamps: spec_fn(Seq<char>) -> Option<u64>,
    mats: Seq<Option<MaterialView>>,
    hot: bool,
    outs: Seq<(Result<u64, FileReaderError>, String, u64)>,
) -> (spec_fn(Seq<char>) -> Option<u64>, Seq<TextureUpdateView>, Seq<bool>)
    decreases mats.len(),
{
    if mats.len() == 0 {
        (stamps, Seq::empty(), Seq::empty())
    } else {
        let before = material_updates_after(stamps, mats.drop_last(), hot, outs);
        let step = material_step(before.0, mats.last(), hot, outs[mats.len() - 1]);
        (
            step.0,
            match step.1 {
                Some(u) => before.1.push(u),
                None => before.1,
            },
            before.2.push(step.2),
        )
    }
}

/// The timestamps and updates after `mats` depend only on the outcomes of their own entities.
proof fn lemma_updates_own_outcomes(
    stamps: spec_fn(Seq<char>) -> Option<u64>,
    mats: Seq<Option<MaterialView>>,
    hot: bool,
    outs: Seq<(Result<u64, FileReaderError>, String, u64)>,
    outs2: Seq<(Result<u64, FileReaderError>, String, u64)>,
)
    requires
        outs.len() >= mats.len(),
        outs2.len() >= mats.len(),
        forall|k: int| 0 <= k < mats.len() ==> outs[k] == outs2[k],
    ensures
        material_updates_after(stamps, mats, hot, outs) == material_updates_after(stamps, mats, hot, outs2),
    decreases mats.len(),
{
    if mats.len() > 0 {
        lemma_updates_own_outcomes(stamps, mats.drop_last(), hot, outs, outs2);
    }
}

/// The flags of the materials `mats` number them.
proof fn lemma_read_flags_len(
    stamps: spec_fn(Seq<char>) -> Option<u64>,
    mats: Seq<Option<MaterialView>>,
    hot: bool,
    outs: Seq<(Result<u64, FileReaderError>, String, u64)>,
)
    ensures
        material_updates_after(stamps, mats, hot, outs).2.len() == mats.len(),
    decreases mats.len(),
{
    if mats.len() > 0 {
        lemma_read_flags_len(stamps, mats.drop_last(), hot, outs);
    }
}

/// Whether hot reloading is due in this frame: it is enabled and its timer
/// completed a cycle.
pub open spec fn hot_reload_due(data: GameData, hot_reload: bool) -> bool {
    hot_reload && data.resources.timers@[timer_index(data.resources.timers@, hot_reload_timer()).unwrap()].cycle > 0
}

/// The materials of `data` taken in order from the textures recorded in
/// `entries`, entity `i` with the outcome `outs[i]`.
pub open spec fn frame_updates(
    entries: Seq<(String, u64)>,
    data: GameData,
    hot_reload: bool,
    outs: Seq<(Result<u64, FileReaderError>, String, u64)>,
) -> (spec_fn(Seq<char>) -> Option<u64>, Seq<TextureUpdateView>, Seq<bool>) {
    material_updates_after(stamps_of(entries), materials_of(data.entities@), hot_reload_due(data, hot_reload), outs)
}

/// The textures that the materials of `data` ask the renderer to build or load
/// again in this frame, entity by entity: the texture of a plain or diffuse color, named
/// by `color_name`, when it was never built; that of a file or a tileset when it
/// was never loaded or, when hot reloading is due, when `read` gives its file
/// another modification time than recorded. The file is read only in those two
/// cases; each texture built is recorded with the time of its file, or with
/// `now` when there is none.
pub fn texture_updates<R, N, C>(
    renderer: &mut ScionRenderer2D,
    data: &GameData,
    hot_reload: bool,
    read: R,
    color_name: N,
    now: C,
) -> (r: Vec<TextureUpdate>) where
    R: Fn(&String) -> Result<u64, FileReaderError>,
    N: Fn(&Color) -> String,
    C: Fn() -> u64,

    requires
        distinct_names(data.resources.timers@),
        hot_reload ==> timer_index(data.resources.timers@, hot_reload_timer()) is Some,
        forall|p: &String| read.requires((p,)),
        forall|c: &Color| color_name.requires((c,)),
        now.requires(()),
    ensures
        exists|outs: Seq<(Result<u64, FileReaderError>, String, u64)>|
            #![trigger frame_updates(old(renderer).textures_timestamps@, *data, hot_reload, outs)]
            {
            &&& outs.len() == data.entities@.len()
            &&& forall|p: Seq<char>| #[trigger] timestamp_of(final(renderer).textures_timestamps@, p) == (frame_updates(
                old(renderer).textures_timestamps@,
                *data,
                hot_reload,
                outs,
            ).0)(p)
            &&& r@.map_values(|u: TextureUpdate| u@) == frame_updates(old(renderer).textures_timestamps@, *data, hot_reload, outs).1
            &&& forall|i: int|
                0 <= i < outs.len() && #[trigger] frame_updates(old(renderer).textures_timestamps@, *data, hot_reload, outs).2[i]
                    ==> read.ensures((&file_path(data.entities@[i].components.material),), outs[i].0)
            &&& forall|i: int|
                0 <= i < outs.len() && colored(#[trigger] data.entities@[i].components.material)
                    ==> color_name.ensures((&material_color(data.entities@[i].components.material),), outs[i].1)
            &&& forall|i: int|
                0 <= i < outs.len() && #[trigger] data.entities@[i].components.material is Some ==> now.ensures(
                    (),
                    outs[i].2,
                )
        },
        final(renderer).vertex_buffer == old(renderer).vertex_buffer,
        final(renderer).indexes_buffer == old(renderer).indexes_buffer,
        final(renderer).transform_uniform == old(renderer).transform_uniform,
{
    let hot = should_try_to_hot_reload(data, hot_reload);
    let ghost stamps0 = stamps_of(renderer.textures_timestamps@);
    let ghost mats = materials_of(data.entities@);
    let ghost mut outs: Seq<(Result<u64, FileReaderError>, String, u64)> = Seq::empty();
    let mut updates: Vec<TextureUpdate> = Vec::new();
    let n = data.entities.len();
    let mut i: usize = 0;
    while i < n
        invariant
            0 <= i <= n,
            n == data.entities@.len(),
            mats == materials_of(data.entities@),
            outs.len() == i,
            hot == hot_reload_due(*data, hot_reload),
            forall|p: &String| read.requires((p,)),
            forall|c: &Color| color_name.requires((c,)),
            now.requires(()),
            ({
                let after = material_updates_after(stamps0, mats.take(i as int), hot, outs);
                &&& forall|p: Seq<char>| #[trigger] timestamp_of(renderer.textures_timestamps@, p) == (after.0)(p)
                &&& updates@.map_values(|u: TextureUpdate| u@) == after.1
                &&& forall|k: int| 0 <= k < i && #[trigger] after.2[k] ==> read.ensures(
                    (&file_path(data.entities@[k].components.material),),
                    outs[k].0,
                )
            }),
            forall|k: int|
                0 <= k < i && colored(#[trigger] data.entities@[k].components.material)
                    ==> color_name.ensures((&material_color(data.entities@[k].components.material),), outs[k].1),
            forall|k: int|
                0 <= k < i && #[trigger] data.entities@[k].components.material is Some ==> now.ensures((), outs[k].2),
            renderer.vertex_buffer == old(renderer).vertex_buffer,
            renderer.indexes_buffer == old(renderer).indexes_buffer,
            renderer.transform_uniform == old(renderer).transform_uniform,
        decreases n - i,
    {
        let ghost before = material_updates_after(stamps0, mats.take(i as int), hot, outs);
        let ghost old_updates = updates@;
        let ghost old_entries = renderer.textures_timestamps@;
        let ghost mut o: (Result<u64, FileReaderError>, String, u64) = arbitrary();
        match &data.entities[i].components.material {
            Some(Material::Color(c)) | Some(Material::Diffuse(c)) => {
                let path = color_name(c);
                let t = now();
                proof {
                    o = (arbitrary(), path, t);
                }
                if try_color_update(renderer, path.as_str(), t) {
                    updates.push(TextureUpdate::Color { path, color: *c });
                }
            },
            Some(Material::Texture(path)) => {
                let t = now();
                let stamp = if hot || renderer.missing_texture(path.as_str()) {
                    let r = read(path);
                    proof {
                        o = (r, arbitrary(), t);
                    }
                    Some(r)
                } else {
                    proof {
                        o = (arbitrary(), arbitrary(), t);
                    }
                    None
                };
                if try_texture_update(renderer, path.as_str(), &stamp, t) {
                    updates.push(TextureUpdate::Texture { path: path.clone() });
                }
            },
            Some(Material::Tileset(path)) => {
                let t = now();
                let stamp = if hot || renderer.missing_texture(path.as_str()) {
                    let r = read(path);
                    proof {
                        o = (r, arbitrary(), t);
                    }
                    Some(r)
                } else {
                    proof {
                        o = (arbitrary(), arbitrary(), t);
                    }
                    None
                };
                if try_texture_update(renderer, path.as_str(), &stamp, t) {
                    updates.push(TextureUpdate::Tileset { path: path.clone() });
                }
            },
            None => {},
        }
        proof {
            let outs2 = outs.push(o);
            lemma_updates_own_outcomes(stamps0, mats.take(i as int), hot, outs, outs2);
            assert(mats.take(i + 1).drop_last() =~= mats.take(i as int));
            lemma_read_flags_len(stamps0, mats.take(i as int), hot, outs);
            outs = outs2;
            let after = material_updates_after(stamps0, mats.take(i + 1), hot, outs);
            assert(mats.take(i + 1).last() == mats[i as int]);
            assert forall|p: Seq<char>| #[trigger] timestamp_of(renderer.textures_timestamps@, p) == (after.0)(p) by {
                assert(timestamp_of(old_entries, p) == (before.0)(p));
            }
            assert(updates@.map_values(|u: TextureUpdate| u@) =~= after.1);
        }
        i = i + 1;
    }
    proof {
        assert(mats.take(n as int) =~= mats);
        lemma_read_flags_len(stamps0, mats, hot, outs);
        let after = material_updates_after(stamps0, mats, hot, outs);
        assert(forall|p: Seq<char>| #[trigger] timestamp_of(renderer.textures_timestamps@, p) == (after.0)(p));
        assert(updates@.map_values(|u: TextureUpdate| u@) == after.1);
        assert(frame_updates(old(renderer).textures_timestamps@, *data, hot_reload, outs) == after);
    }
    updates
}

/// A texture just recorded with the modification time of its file is not
/// missing, and is not loaded again while its file keeps that time.
pub proof fn law_recorded_texture_stays(entries: Seq<(String, u64)>, path: Seq<char>, t: u64)
    requires
        timestamp_of(entries, path) == Some(t),
    ensures
        !(timestamp_of(entries, path) is None),
        !(match timestamp_of(entries, path) {
            None => true,
            Some(recorded) => match Some(Ok::<u64, FileReaderError>(t)) {
                Some(Ok(x)) => x != recorded,
                _ => false,
            },
        }),
{
}

/// Once the buffers were cleaned, every entity they name is alive.
pub proof fn law_cleaned_buffers_alive(v: Seq<EntityId>, data: GameData, x: EntityId)
    ensures
        alive_only(v, data).contains(x) ==> data.has(x),
    decreases v.len(),
{
    if v.len() > 0 {
        law_cleaned_buffers_alive(v.drop_last(), data, x);
        vstd::seq_lib::lemma_seq_contains_after_push(alive_only(v.drop_last(), data), v.last(), x);
    }
}

} // verus!
