//! Components that entities of the [`crate::world::GameData`] can carry.
use vstd::prelude::*;

verus! {

/// Identifier of an entity. Identifiers are never reused by a world.
pub type EntityId = u64;

/// A color. Its alpha channel, a `f32` in `[0, 1]`, is held as the IEEE-754
/// bit pattern of that value: the library carries it and compares it, but
/// never computes with it.
#[derive(PartialEq, Eq, Structural, Clone, Copy, Debug)]
pub struct Color {
    pub r: u8,
    pub g: u8,
    pub b: u8,
    pub alpha_bits: u32,
}

/// The bit pattern of the `f32` value `1.0`.
pub const OPAQUE_ALPHA_BITS: u32 = 0x3f80_0000u32;

impl Color {
    /// Opaque color built from its three channels.
    pub fn new_rgb(r: u8, g: u8, b: u8) -> (c: Color)
        ensures
            c == (Color { r, g, b, alpha_bits: OPAQUE_ALPHA_BITS }),
    {
        Color { r, g, b, alpha_bits: OPAQUE_ALPHA_BITS }
    }

    /// Red channel.
    pub fn red(&self) -> (v: u8)
        ensures
            v == self.r,
    {
        self.r
    }

    /// Green channel.
    pub fn green(&self) -> (v: u8)
        ensures
            v == self.g,
    {
        self.g
    }

    /// Blue channel.
    pub fn blue(&self) -> (v: u8)
        ensures
            v == self.b,
    {
        self.b
    }

    /// Replaces every channel of this color by those of `color`.
    pub fn replace(&mut self, color: Color)
        ensures
            *final(self) == color,
    {
        self.r = color.r;
        self.g = color.g;
        self.b = color.b;
        self.alpha_bits = color.alpha_bits;
    }
}

/// Marks an entity as able to receive the keyboard focus, with its tab rank.
#[derive(PartialEq, Eq, Structural, Clone, Copy, Debug)]
pub struct UiFocusable {
    pub rank: usize,
    pub focused: bool,
}

/// The part of a transform that the systems read: its layer and its dirty flags.
/// The coordinates themselves are floating point and stay with the renderer.
#[derive(PartialEq, Eq, Structural, Clone, Copy, Debug)]
pub struct Transform {
    /// Layer (z) of the transform.
    pub layer: usize,
    /// The transform moved since its children were last updated.
    pub dirty: bool,
    /// The transform was attached to a parent and its global values must be recomputed.
    pub dirty_child: bool,
}

impl Transform {
    /// A new transform on layer `layer`: its global values are still to compute.
    pub fn from_layer(layer: usize) -> (t: Transform)
        ensures
            t == fresh_transform(layer),
    {
        Transform { layer, dirty: false, dirty_child: true }
    }
}

/// A new transform on layer `layer`.
pub open spec fn fresh_transform(layer: usize) -> Transform {
    Transform { layer, dirty: false, dirty_child: true }
}

/// A camera, sized after the window it renders to.
#[derive(PartialEq, Eq, Structural, Clone, Copy, Debug)]
pub struct Camera {
    pub width: u32,
    pub height: u32,
}

/// The tile of a tileset an entity shows.
#[derive(PartialEq, Eq, Structural, Clone, Copy, Debug)]
pub struct Sprite {
    pub tile_number: usize,
}

impl Sprite {
    /// A sprite showing the tile `tile_number`.
    pub fn new(tile_number: usize) -> (s: Sprite)
        ensures
            s.tile_number == tile_number,
    {
        Sprite { tile_number }
    }

    /// Shows the tile `tile_number`.
    pub fn set_tile_nb(&mut self, tile_number: usize)
        ensures
            final(self).tile_number == tile_number,
    {
        self.tile_number = tile_number;
    }
}

/// How an entity is painted.
pub enum Material {
    /// A plain color.
    Color(Color),
    /// A color lit as a diffuse surface.
    Diffuse(Color),
    /// The texture stored at this path.
    Texture(String),
    /// The tiles of the tileset whose texture is stored at this path.
    Tileset(String),
}

/// A material, its texture path taken by its characters.
pub enum MaterialView {
    Color(Color),
    Diffuse(Color),
    Texture(Seq<char>),
    Tileset(Seq<char>),
}

impl View for Material {
    type V = MaterialView;

    open spec fn view(&self) -> MaterialView {
        match self {
            Material::Color(c) => MaterialView::Color(*c),
            Material::Diffuse(c) => MaterialView::Diffuse(*c),
            Material::Texture(p) => MaterialView::Texture(p@),
            Material::Tileset(p) => MaterialView::Tileset(p@),
        }
    }
}

/// The group a collider belongs to; a collider collides with the groups it filters.
pub enum ColliderMask {
    /// No group.
    Empty,
    Character,
    Bullet,
    Death,
    Landscape,
    Custom(String),
    Item,
}

/// What a collider mask is, a custom mask taken by its name.
pub enum MaskView {
    Empty,
    Character,
    Bullet,
    Death,
    Landscape,
    Custom(Seq<char>),
    Item,
}

impl View for ColliderMask {
    type V = MaskView;

    open spec fn view(&self) -> MaskView {
        match self {
            ColliderMask::Empty => MaskView::Empty,
            ColliderMask::Character => MaskView::Character,
            ColliderMask::Bullet => MaskView::Bullet,
            ColliderMask::Death => MaskView::Death,
            ColliderMask::Landscape => MaskView::Landscape,
            ColliderMask::Custom(name) => MaskView::Custom(name@),
            ColliderMask::Item => MaskView::Item,
        }
    }
}

/// Whether `a` and `b` are the same mask.
pub fn same_mask(a: &ColliderMask, b: &ColliderMask) -> (r: bool)
    ensures
        r == (a@ == b@),
{
    match a {
        ColliderMask::Empty => matches!(b, ColliderMask::Empty),
        ColliderMask::Character => matches!(b, ColliderMask::Character),
        ColliderMask::Bullet => matches!(b, ColliderMask::Bullet),
        ColliderMask::Death => matches!(b, ColliderMask::Death),
        ColliderMask::Landscape => matches!(b, ColliderMask::Landscape),
        ColliderMask::Item => matches!(b, ColliderMask::Item),
        ColliderMask::Custom(x) => match b {
            ColliderMask::Custom(y) => *x == *y,
            _ => false,
        },
    }
}

/// A copy of the mask `m`.
pub fn copy_mask(m: &ColliderMask) -> (r: ColliderMask)
    ensures
        r@ == m@,
{
    match m {
        ColliderMask::Empty => ColliderMask::Empty,
        ColliderMask::Character => ColliderMask::Character,
        ColliderMask::Bullet => ColliderMask::Bullet,
        ColliderMask::Death => ColliderMask::Death,
        ColliderMask::Landscape => ColliderMask::Landscape,
        ColliderMask::Item => ColliderMask::Item,
        ColliderMask::Custom(x) => ColliderMask::Custom(x.clone()),
    }
}

/// A collision a collider took part in: the mask and the entity it met.
pub struct Collision {
    pub mask: ColliderMask,
    pub entity: EntityId,
}

/// The part of a collider the systems read: its group, the groups it collides
/// with, whether its outline is drawn, and its collisions. Its shape and offset
/// are floating point and stay with the renderer.
pub struct Collider {
    pub mask: ColliderMask,
    pub filters: Vec<ColliderMask>,
    pub debug_lines: bool,
    pub collisions: Vec<Collision>,
}

impl Collider {
    /// A collider of group `mask` colliding with the groups `filters`.
    pub fn new(mask: ColliderMask, filters: Vec<ColliderMask>) -> (c: Collider)
        ensures
            c.mask == mask,
            c.filters == filters,
            !c.debug_lines,
            c.collisions@.len() == 0,
    {
        Collider { mask, filters, debug_lines: false, collisions: Vec::new() }
    }

    /// This collider with its outline drawn.
    pub fn with_debug_lines(self) -> (c: Collider)
        ensures
            c == (Collider { debug_lines: true, ..self }),
    {
        let mut c = self;
        c.debug_lines = true;
        c
    }

    /// Whether its outline is drawn.
    pub fn debug_lines(&self) -> (r: bool)
        ensures
            r == self.debug_lines,
    {
        self.debug_lines
    }

    /// The collisions of the current frame.
    pub fn collisions(&self) -> (r: &Vec<Collision>)
        ensures
            r == self.collisions,
    {
        &self.collisions
    }

    /// Moves the collisions of `collisions` to this collider.
    pub fn add_collisions(&mut self, collisions: &mut Vec<Collision>)
        ensures
            final(self).collisions@ == old(self).collisions@ + old(collisions)@,
            final(collisions)@.len() == 0,
            final(self).mask == old(self).mask,
            final(self).filters == old(self).filters,
            final(self).debug_lines == old(self).debug_lines,
    {
        self.collisions.append(collisions);
    }

    /// Forgets the collisions.
    pub fn clear_collisions(&mut self)
        ensures
            *final(self) == (Collider { collisions: final(self).collisions, ..*old(self) }),
            final(self).collisions@.len() == 0,
    {
        self.collisions.clear();
    }
}

/// An image of the user interface, of a size in whole pixels.
#[derive(PartialEq, Eq, Structural, Clone, Copy, Debug)]
pub struct UiImage {
    pub width: usize,
    pub height: usize,
}

/// A copy of the material `m`.
pub fn copy_material(m: &Material) -> (r: Material)
    ensures
        r@ == m@,
{
    match m {
        Material::Color(c) => Material::Color(*c),
        Material::Diffuse(c) => Material::Diffuse(*c),
        Material::Texture(p) => Material::Texture(p.clone()),
        Material::Tileset(p) => Material::Tileset(p.clone()),
    }
}

} // verus!
