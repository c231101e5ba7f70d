//! Texts of the user interface drawn with their fonts: each character of a
//! changed text becomes an image, a child of the text.
use vstd::prelude::*;
use crate::components::{fresh_transform, Color, EntityId, Material, MaterialView, Transform, OPAQUE_ALPHA_BITS};
use crate::text::{decimal, decimal_text};
use crate::font::{byte_index_of, char_width, find_line_and_column, utf8_len, Font, TextGlyph};
use crate::systems::animation::opt_material_view;
use crate::systems::collider::{lemma_without_ids_from, remove_entities, without_ids};
use crate::ui::UiText;
use crate::world::{appended, contains_id, lemma_wf_same_ids, same_ids, Components, EntityRecord, GameData};

verus! {

/// The entity with the components `c` holds a text to draw again: changed, and placed.
pub open spec fn text_to_draw(c: Components) -> bool {
    &&& c.ui_text is Some
    &&& c.ui_text.unwrap().dirty
    &&& c.transform is Some
}

/// The entity `r` once its text is drawn: no longer dirty.
pub open spec fn text_drawn(r: EntityRecord) -> EntityRecord {
    if text_to_draw(r.components) {
        EntityRecord {
            id: r.id,
            components: Components {
                ui_text: Some(UiText { dirty: false, ..r.components.ui_text.unwrap() }),
                ..r.components
            },
        }
    } else {
        r
    }
}

/// The entities `es` once their texts are drawn.
pub open spec fn texts_drawn(es: Seq<EntityRecord>) -> Seq<EntityRecord> {
    Seq::new(es.len(), |i: int| text_drawn(es[i]))
}

/// Identifiers of the entities of `es` whose text is drawn again.
pub open spec fn texts_to_draw(es: Seq<EntityRecord>) -> Seq<EntityId>
    decreases es.len(),
{
    if es.len() == 0 {
        Seq::empty()
    } else {
        let prev = texts_to_draw(es.drop_last());
        if text_to_draw(es.last().components) {
            prev.push(es.last().id)
        } else {
            prev
        }
    }
}

/// Identifiers of the character images of `es` that belong to one of the texts `texts`.
pub open spec fn stale_glyphs(es: Seq<EntityRecord>, texts: Seq<EntityId>) -> Seq<EntityId>
    decreases es.len(),
{
    if es.len() == 0 {
        Seq::empty()
    } else {
        let prev = stale_glyphs(es.drop_last(), texts);
        let r = es.last();
        if r.components.ui_text_image is Some && r.components.parent is Some && texts.contains(
            r.components.parent.unwrap(),
        ) {
            prev.push(r.id)
        } else {
            prev
        }
    }
}

/// The character image a text asks for: its text, the layer of the text, where
/// the character is, and the path of the texture it is cut from.
pub type GlyphSpec = (EntityId, usize, TextGlyph, Seq<char>);

/// Whether `c` is a white space character: it has the Unicode `White_Space`
/// property, as `char::is_whitespace` tells.
pub open spec fn white_space(c: char) -> bool {
    ||| '\u{9}' <= c <= '\u{d}'
    ||| c == ' '
    ||| c == '\u{85}'
    ||| c == '\u{a0}'
    ||| c == '\u{1680}'
    ||| '\u{2000}' <= c <= '\u{200a}'
    ||| c == '\u{2028}'
    ||| c == '\u{2029}'
    ||| c == '\u{202f}'
    ||| c == '\u{205f}'
    ||| c == '\u{3000}'
}

/// Whether `c` is a white space character.
fn is_white_space(c: char) -> (r: bool)
    ensures
        r == white_space(c),
{
    ('\u{9}' <= c && c <= '\u{d}') || c == ' ' || c == '\u{85}' || c == '\u{a0}' || c == '\u{1680}' || ('\u{2000}'
        <= c && c <= '\u{200a}') || c == '\u{2028}' || c == '\u{2029}' || c == '\u{202f}' || c == '\u{205f}' || c
        == '\u{3000}'
}

/// The color a TrueType text is drawn in: its own, or white.
pub open spec fn text_color(t: UiText) -> Color {
    match t.font_color {
        Some(c) => c,
        None => Color { r: 255, g: 255, b: 255, alpha_bits: OPAQUE_ALPHA_BITS },
    }
}

/// The name of the texture of the font atlas that holds the characters of the
/// TrueType font `font_path` at the size `size` in the color `color`.
pub open spec fn atlas_name(font_path: Seq<char>, size: usize, color: Color) -> Seq<char> {
    font_path + seq!['_'] + decimal(size as nat) + seq!['_'] + decimal(color.r as nat) + seq!['_'] + decimal(
        color.g as nat,
    ) + seq!['_'] + decimal(color.b as nat) + seq!['_'] + decimal(color.alpha_bits as nat)
}

/// Writes the name of an atlas texture.
fn atlas_texture_name(font_path: &String, size: usize, color: Color) -> (r: String)
    ensures
        r@ == atlas_name(font_path@, size, color),
{
    let r = font_path.as_str().to_owned().concat("_").concat(decimal_text(size as u64).as_str()).concat("_").concat(
        decimal_text(color.r as u64).as_str(),
    ).concat("_").concat(decimal_text(color.g as u64).as_str()).concat("_").concat(
        decimal_text(color.b as u64).as_str(),
    ).concat("_").concat(decimal_text(color.alpha_bits as u64).as_str());
    proof {
        reveal_strlit("_");
    }
    r
}

/// The character images of the characters `text` of the text of `parent`, on
/// layer `layer`, in the TrueType font `font_ref`, cut from the atlas texture
/// `name`: one for each character that is no white space.
pub open spec fn true_type_glyphs(parent: EntityId, layer: usize, font_ref: usize, text: Seq<char>, name: Seq<char>) -> Seq<
    GlyphSpec,
>
    decreases text.len(),
{
    if text.len() == 0 {
        Seq::empty()
    } else {
        let prev = true_type_glyphs(parent, layer, font_ref, text.drop_last(), name);
        if white_space(text.last()) {
            prev
        } else {
            prev.push(
                (parent, layer, TextGlyph { font_ref, index: (text.len() - 1) as usize, line: 0, column: 0 }, name),
            )
        }
    }
}

/// The character images of the text of `r`, written with `font`: one for each
/// character with a bitmap font, on the layer of the text; one for each
/// character that is no white space with a TrueType font, on the layer above.
pub open spec fn text_glyphs(r: EntityRecord, font: Font) -> Seq<GlyphSpec> {
    match font {
        Font::Bitmap { texture_path, chars, texture_columns, .. } => {
            let t = r.components.ui_text.unwrap();
            Seq::new(
                t.text@.len(),
                |i: int|
                    {
                        let at = byte_index_of(chars@, t.text@[i]);
                        (
                            r.id,
                            r.components.transform.unwrap().layer,
                            TextGlyph {
                                font_ref: t.font_ref,
                                index: i as usize,
                                line: (at / (texture_columns as nat)) as usize,
                                column: (at % (texture_columns as nat)) as usize,
                            },
                            texture_path@,
                        )
                    },
            )
        },
        Font::TrueType { font_path } => {
            let t = r.components.ui_text.unwrap();
            true_type_glyphs(
                r.id,
                (r.components.transform.unwrap().layer + 1) as usize,
                t.font_ref,
                t.text@,
                atlas_name(font_path@, t.font_size, text_color(t)),
            )
        },
    }
}

/// The character images the texts of `es` ask for, in order.
pub open spec fn glyphs_to_add(es: Seq<EntityRecord>, fonts: Seq<Font>) -> Seq<GlyphSpec>
    decreases es.len(),
{
    if es.len() == 0 {
        Seq::empty()
    } else {
        let prev = glyphs_to_add(es.drop_last(), fonts);
        let r = es.last();
        if text_to_draw(r.components) {
            prev + text_glyphs(r, fonts[r.components.ui_text.unwrap().font_ref as int])
        } else {
            prev
        }
    }
}

/// The texts of `es` to draw with a TrueType font.
pub open spec fn true_type_texts(es: Seq<EntityRecord>, fonts: Seq<Font>) -> Seq<EntityId>
    decreases es.len(),
{
    if es.len() == 0 {
        Seq::empty()
    } else {
        let prev = true_type_texts(es.drop_last(), fonts);
        let r = es.last();
        if text_to_draw(r.components) && fonts[r.components.ui_text.unwrap().font_ref as int] is TrueType {
            prev.push(r.id)
        } else {
            prev
        }
    }
}

/// The components `c` are those of the character image `g`.
pub open spec fn is_glyph(c: Components, g: GlyphSpec) -> bool {
    &&& c == Components {
        material: c.material,
        ui_text_image: Some(g.2),
        ui_component: true,
        transform: Some(fresh_transform(g.1)),
        parent: Some(g.0),
        ..Components::empty_spec()
    }
    &&& opt_material_view(c.material) == Some(MaterialView::Texture(g.3))
}

/// The text `t` can be written with the font `font`: for a bitmap font, a grid of
/// at least one column, of ASCII characters, holding every character of `t`.
pub open spec fn writable_with(t: UiText, font: Font) -> bool {
    match font {
        Font::Bitmap { chars, texture_columns, .. } => {
            &&& texture_columns > 0
            &&& utf8_len(chars@) <= usize::MAX
            &&& forall|i: int| 0 <= i < t.text@.len() ==> chars@.contains(#[trigger] t.text@[i])
        },
        Font::TrueType { .. } => true,
    }
}

/// Every text of `es` to draw has its font among `fonts`, and can be written with it.
pub open spec fn texts_drawable(es: Seq<EntityRecord>, fonts: Seq<Font>) -> bool {
    forall|k: int|
        0 <= k < es.len() && text_to_draw(#[trigger] es[k].components) ==> {
            let t = es[k].components.ui_text.unwrap();
            &&& t.font_ref < fonts.len()
            &&& writable_with(t, fonts[t.font_ref as int])
            &&& (fonts[t.font_ref as int] is TrueType ==> es[k].components.transform.unwrap().layer < usize::MAX)
        }
}

/// The components of the character image `g`.
fn glyph_components(parent: EntityId, layer: usize, glyph: TextGlyph, texture_path: &String) -> (c: Components)
    ensures
        is_glyph(c, (parent, layer, glyph, texture_path@)),
{
    let mut c = Components::empty();
    c.material = Some(Material::Texture(texture_path.clone()));
    c.ui_text_image = Some(glyph);
    c.ui_component = true;
    c.transform = Some(Transform::from_layer(layer));
    c.parent = Some(parent);
    c
}

/// Appends to `to_add` the character images of the text `t` of the entity `r`,
/// written with the bitmap font `font`.
fn add_text_glyphs(
    to_add: &mut Vec<Components>,
    r: Ghost<EntityRecord>,
    parent: EntityId,
    layer: usize,
    t: &UiText,
    font: &Font,
)
    requires
        parent == r@.id,
        r@.components.transform == Some(Transform { layer, ..r@.components.transform.unwrap() }),
        r@.components.ui_text == Some(*t),
        r@.components.transform is Some,
        font is Bitmap,
        writable_with(*t, *font),
    ensures
        final(to_add)@.len() == old(to_add)@.len() + text_glyphs(r@, *font).len(),
        forall|j: int| 0 <= j < old(to_add)@.len() ==> #[trigger] final(to_add)@[j] == old(to_add)@[j],
        forall|j: int|
            0 <= j < text_glyphs(r@, *font).len() ==> is_glyph(
                #[trigger] final(to_add)@[old(to_add)@.len() + j],
                text_glyphs(r@, *font)[j],
            ),
{
    let ghost start = to_add@.len();
    let ghost gs = text_glyphs(r@, *font);
    match font {
        Font::Bitmap { texture_path, chars, width_bits, height_bits, texture_columns, texture_lines } => {
            let s = t.text.as_str();
            let len = s.unicode_len();
            let mut i: usize = 0;
            while i < len
                invariant
                    len == t.text@.len(),
                    s@ == t.text@,
                    i <= len,
                    gs.len() == len,
                    parent == r@.id,
                    layer == r@.components.transform.unwrap().layer,
                    *font == (Font::Bitmap {
                        texture_path: *texture_path,
                        chars: *chars,
                        width_bits: *width_bits,
                        height_bits: *height_bits,
                        texture_columns: *texture_columns,
                        texture_lines: *texture_lines,
                    }),
                    gs == text_glyphs(r@, *font),
                    r@.components.ui_text == Some(*t),
                    *texture_columns > 0,
                    utf8_len(chars@) <= usize::MAX,
                    forall|j: int| 0 <= j < t.text@.len() ==> chars@.contains(#[trigger] t.text@[j]),
                    to_add@.len() == start + i,
                    forall|j: int| 0 <= j < start ==> #[trigger] to_add@[j] == old(to_add)@[j],
                    forall|j: int| 0 <= j < i ==> is_glyph(#[trigger] to_add@[start + j], gs[j]),
                decreases len - i,
            {
                let ch = s.get_char(i);
                assert(chars@.contains(t.text@[i as int]));
                let (line, column) = find_line_and_column(chars, *texture_columns, ch);
                let glyph = TextGlyph { font_ref: t.font_ref, index: i, line, column };
                let c = glyph_components(parent, layer, glyph, texture_path);
                assert((parent, layer, glyph, texture_path@) == gs[i as int]);
                to_add.push(c);
                i = i + 1;
            }
        },
        Font::TrueType { .. } => {},
    }
}

/// Appends to `to_add` the character images of the text `t` of the entity `r`,
/// on layer `layer`, written with the TrueType font `font`.
fn add_true_type_glyphs(
    to_add: &mut Vec<Components>,
    r: Ghost<EntityRecord>,
    parent: EntityId,
    layer: usize,
    t: &UiText,
    font: &Font,
)
    requires
        parent == r@.id,
        r@.components.transform == Some(Transform { layer, ..r@.components.transform.unwrap() }),
        r@.components.ui_text == Some(*t),
        font is TrueType,
        layer < usize::MAX,
    ensures
        final(to_add)@.len() == old(to_add)@.len() + text_glyphs(r@, *font).len(),
        forall|j: int| 0 <= j < old(to_add)@.len() ==> #[trigger] final(to_add)@[j] == old(to_add)@[j],
        forall|j: int|
            0 <= j < text_glyphs(r@, *font).len() ==> is_glyph(
                #[trigger] final(to_add)@[old(to_add)@.len() + j],
                text_glyphs(r@, *font)[j],
            ),
{
    let ghost start = to_add@.len();
    match font {
        Font::TrueType { font_path } => {
            let color = match t.font_color {
                Some(c) => c,
                None => Color { r: 255, g: 255, b: 255, alpha_bits: OPAQUE_ALPHA_BITS },
            };
            let name = atlas_texture_name(font_path, t.font_size, color);
            let above = layer + 1;
            let ghost text = t.text@;
            let s = t.text.as_str();
            let len = s.unicode_len();
            let mut i: usize = 0;
            while i < len
                invariant
                    len == text.len(),
                    s@ == text,
                    i <= len,
                    to_add@.len() == start + true_type_glyphs(parent, above, t.font_ref, text.subrange(0, i as int), name@).len(),
                    forall|j: int| 0 <= j < start ==> #[trigger] to_add@[j] == old(to_add)@[j],
                    forall|j: int|
                        0 <= j < true_type_glyphs(parent, above, t.font_ref, text.subrange(0, i as int), name@).len()
                            ==> is_glyph(
                            #[trigger] to_add@[start + j],
                            true_type_glyphs(parent, above, t.font_ref, text.subrange(0, i as int), name@)[j],
                        ),
                decreases len - i,
            {
                let ghost pre = text.subrange(0, i as int);
                let ghost cur = text.subrange(0, i + 1);
                assert(cur.drop_last() == pre);
                assert(cur.last() == text[i as int]);
                let ghost before = to_add@;
                let ch = s.get_char(i);
                if !is_white_space(ch) {
                    let glyph = TextGlyph { font_ref: t.font_ref, index: i, line: 0, column: 0 };
                    let c = glyph_components(parent, above, glyph, &name);
                    to_add.push(c);
                    assert forall|j: int|
                        0 <= j < true_type_glyphs(parent, above, t.font_ref, cur, name@).len() implies is_glyph(
                        #[trigger] to_add@[start + j],
                        true_type_glyphs(parent, above, t.font_ref, cur, name@)[j],
                    ) by {
                        if start + j < before.len() {
                            assert(to_add@[start + j] == before[start + j]);
                        }
                    }
                }
                i = i + 1;
            }
            assert(text.subrange(0, len as int) == text);
        },
        Font::Bitmap { .. } => {},
    }
}

/// The number of character images the text `t` asks for in a TrueType font.
fn count_glyphs(t: &UiText, parent: Ghost<EntityId>, layer: Ghost<usize>, name: Ghost<Seq<char>>) -> (n: usize)
    ensures
        n == true_type_glyphs(parent@, layer@, t.font_ref, t.text@, name@).len(),
{
    let ghost text = t.text@;
    let s = t.text.as_str();
    let len = s.unicode_len();
    let mut n: usize = 0;
    let mut i: usize = 0;
    while i < len
        invariant
            len == text.len(),
            s@ == text,
            i <= len,
            n <= i,
            n == true_type_glyphs(parent@, layer@, t.font_ref, text.subrange(0, i as int), name@).len(),
        decreases len - i,
    {
        let ghost cur = text.subrange(0, i + 1);
        assert(cur.drop_last() == text.subrange(0, i as int));
        assert(cur.last() == text[i as int]);
        if !is_white_space(s.get_char(i)) {
            n = n + 1;
        }
        i = i + 1;
    }
    assert(text.subrange(0, len as int) == text);
    n
}

/// Whether the string `chars` holds the character `c`.
fn holds_char(chars: &str, c: char) -> (r: bool)
    ensures
        r == chars@.contains(c),
{
    let n = chars.unicode_len();
    let mut i: usize = 0;
    while i < n
        invariant
            n == chars@.len(),
            i <= n,
            forall|j: int| 0 <= j < i ==> chars@[j] != c,
        decreases n - i,
    {
        if chars.get_char(i) == c {
            return true;
        }
        i = i + 1;
    }
    false
}

/// Whether the UTF-8 encoding of `s` has at most `usize::MAX` bytes.
fn fits_utf8(s: &str) -> (r: bool)
    ensures
        r == (utf8_len(s@) <= usize::MAX),
{
    let n = s.unicode_len();
    let mut i: usize = 0;
    let mut b: usize = 0;
    while i < n
        invariant
            n == s@.len(),
            i <= n,
            b == utf8_len(s@.take(i as int)),
        decreases n - i,
    {
        let w = char_width(s.get_char(i));
        assert(s@.take(i + 1).drop_last() == s@.take(i as int));
        if b > usize::MAX - w {
            proof {
                crate::font::lemma_utf8_len_prefix(s@, i + 1);
            }
            return false;
        }
        b = b + w;
        i = i + 1;
    }
    assert(s@.take(n as int) == s@);
    true
}

/// Whether the text `t` can be written with the font `font`.
fn can_write_with(t: &UiText, font: &Font) -> (r: bool)
    ensures
        r == writable_with(*t, *font),
{
    match font {
        Font::Bitmap { texture_path, chars, width_bits, height_bits, texture_columns, texture_lines } => {
            if *texture_columns == 0 || !fits_utf8(chars.as_str()) {
                return false;
            }
            let s = t.text.as_str();
            let n = s.unicode_len();
            let mut i: usize = 0;
            while i < n
                invariant
                    n == t.text@.len(),
                    s@ == t.text@,
                    i <= n,
                    forall|j: int| 0 <= j < i ==> chars@.contains(#[trigger] t.text@[j]),
                    *font == (Font::Bitmap {
                        texture_path: *texture_path,
                        chars: *chars,
                        width_bits: *width_bits,
                        height_bits: *height_bits,
                        texture_columns: *texture_columns,
                        texture_lines: *texture_lines,
                    }),
                    *texture_columns > 0,
                    utf8_len(chars@) <= usize::MAX,
                decreases n - i,
            {
                let ch = s.get_char(i);
                if !holds_char(chars.as_str(), ch) {
                    assert(!chars@.contains(t.text@[i as int]));
                    return false;
                }
                i = i + 1;
            }
            true
        },
        Font::TrueType { .. } => true,
    }
}

/// Whether the changed texts of `data` can be drawn: each has its font, can be
/// written with it, and there are identifiers left for their character images.
pub fn can_draw_texts(data: &GameData) -> (r: bool)
    ensures
        r == (texts_drawable(data.entities@, data.resources.assets.fonts@) && data.next_id + glyphs_to_add(
            data.entities@,
            data.resources.assets.fonts@,
        ).len() < u64::MAX),
{
    let ghost es = data.entities@;
    let ghost fonts = data.resources.assets.fonts@;
    if data.next_id == u64::MAX {
        return false;
    }
    let mut total: u64 = data.next_id;
    let n = data.entities.len();
    let mut k: usize = 0;
    while k < n
        invariant
            n == es.len(),
            k <= n,
            es == data.entities@,
            fonts == data.resources.assets.fonts@,
            texts_drawable(es.subrange(0, k as int), fonts),
            total == data.next_id + glyphs_to_add(es.subrange(0, k as int), fonts).len(),
            total < u64::MAX,
        decreases n - k,
    {
        let ghost pre = es.subrange(0, k as int);
        let ghost cur = es.subrange(0, k + 1);
        assert(cur.drop_last() == pre);
        assert(cur.last() == es[k as int]);
        let c = &data.entities[k].components;
        match &c.ui_text {
            Some(t) => {
                if t.dirty && c.transform.is_some() {
                    if t.font_ref >= data.resources.assets.fonts.len() {
                        assert(!texts_drawable(es, fonts)) by {
                            assert(text_to_draw(es[k as int].components));
                        }
                        return false;
                    }
                    let font = data.resources.assets.get_font_for_ref(t.font_ref);
                    if !can_write_with(t, font) {
                        assert(!texts_drawable(es, fonts)) by {
                            assert(text_to_draw(es[k as int].components));
                        }
                        return false;
                    }
                    let layer = match c.transform {
                        Some(tr) => tr.layer,
                        None => 0,
                    };
                    let true_type = match font {
                        Font::TrueType { .. } => true,
                        Font::Bitmap { .. } => false,
                    };
                    if true_type && layer == usize::MAX {
                        assert(!texts_drawable(es, fonts)) by {
                            assert(text_to_draw(es[k as int].components));
                        }
                        return false;
                    }
                    let count = match font {
                        Font::Bitmap { .. } => t.text.as_str().unicode_len(),
                        Font::TrueType { font_path } => count_glyphs(
                            t,
                            Ghost(es[k as int].id),
                            Ghost((layer + 1) as usize),
                            Ghost(atlas_name(font_path@, t.font_size, text_color(*t))),
                        ),
                    };
                    assert(count == text_glyphs(es[k as int], *font).len());
                    if count as u64 >= u64::MAX - total {
                        proof {
                            lemma_glyphs_grow(es, k as int + 1, fonts);
                        }
                        return false;
                    }
                    total = total + count as u64;
                }
            },
            None => {},
        }
        assert forall|j: int| 0 <= j < cur.len() && text_to_draw(#[trigger] cur[j].components) implies {
            let t = cur[j].components.ui_text.unwrap();
            &&& t.font_ref < fonts.len()
            &&& writable_with(t, fonts[t.font_ref as int])
            &&& (fonts[t.font_ref as int] is TrueType ==> cur[j].components.transform.unwrap().layer < usize::MAX)
        } by {
            if j < pre.len() {
                assert(cur[j] == pre[j]);
            }
        }
        k = k + 1;
    }
    assert(es.subrange(0, n as int) == es);
    true
}

/// The character images of the texts of a prefix of `es` are no more than those
/// of all its texts.
proof fn lemma_glyphs_grow(es: Seq<EntityRecord>, m: int, fonts: Seq<Font>)
    requires
        0 <= m <= es.len(),
    ensures
        glyphs_to_add(es.subrange(0, m), fonts).len() <= glyphs_to_add(es, fonts).len(),
    decreases es.len() - m,
{
    if m < es.len() {
        lemma_glyphs_grow(es, m + 1, fonts);
        assert(es.subrange(0, m + 1).drop_last() == es.subrange(0, m));
    } else {
        assert(es.subrange(0, m) == es);
    }
}

/// System responsible of drawing again the texts that changed: the character
/// images of each changed text, placed on the screen, are replaced by one image
/// per character cut from its bitmap font, or by one image per character that is
/// no white space cut from the atlas texture of its TrueType font, and the text
/// is no longer dirty. Returns the changed texts written with a TrueType font,
/// whose characters the renderer puts in its font atlas.
pub fn ui_text_bitmap_update_system(data: &mut GameData) -> (true_type: Vec<EntityId>)
    requires
        old(data).wf(),
        texts_drawable(old(data).entities@, old(data).resources.assets.fonts@),
        old(data).next_id + glyphs_to_add(old(data).entities@, old(data).resources.assets.fonts@).len() < u64::MAX,
    ensures
        ({
            let es = old(data).entities@;
            let mid = texts_drawn(es);
            let kept = without_ids(mid, stale_glyphs(mid, texts_to_draw(es)));
            let gs = glyphs_to_add(es, old(data).resources.assets.fonts@);
            &&& final(data).entities@.len() == kept.len() + gs.len()
            &&& forall|k: int| 0 <= k < kept.len() ==> #[trigger] final(data).entities@[k] == kept[k]
            &&& forall|j: int|
                0 <= j < gs.len() ==> (#[trigger] final(data).entities@[kept.len() + j]).id == old(data).next_id + j
                    && is_glyph(final(data).entities@[kept.len() + j].components, gs[j])
            &&& final(data).next_id == old(data).next_id + gs.len()
        }),
        final(data).wf(),
        true_type@ == true_type_texts(old(data).entities@, old(data).resources.assets.fonts@),
        final(data).resources == old(data).resources,
{
    let ghost d0 = *data;
    let ghost es = data.entities@;
    let ghost fonts = data.resources.assets.fonts@;
    let mut texts: Vec<EntityId> = Vec::new();
    let mut to_add: Vec<Components> = Vec::new();
    let mut true_type: Vec<EntityId> = Vec::new();
    let n = data.entities.len();
    let mut k: usize = 0;
    while k < n
        invariant
            n == es.len(),
            k <= n,
            data.entities@.len() == n,
            forall|j: int| 0 <= j < k ==> #[trigger] data.entities@[j] == text_drawn(es[j]),
            forall|j: int| k <= j < n ==> #[trigger] data.entities@[j] == es[j],
            texts_drawable(es, fonts),
            fonts == data.resources.assets.fonts@,
            texts@ == texts_to_draw(es.subrange(0, k as int)),
            true_type@ == true_type_texts(es.subrange(0, k as int), fonts),
            to_add@.len() == glyphs_to_add(es.subrange(0, k as int), fonts).len(),
            forall|j: int|
                0 <= j < to_add@.len() ==> is_glyph(
                    #[trigger] to_add@[j],
                    glyphs_to_add(es.subrange(0, k as int), fonts)[j],
                ),
            data.next_id == d0.next_id,
            data.resources == d0.resources,
        decreases n - k,
    {
        let ghost pre = es.subrange(0, k as int);
        let ghost cur = es.subrange(0, k + 1);
        assert(cur.drop_last() == pre);
        assert(cur.last() == es[k as int]);
        let ghost e = es[k as int];
        let ghost before = to_add@;
        let draw = match &data.entities[k].components.ui_text {
            Some(t) => t.dirty && data.entities[k].components.transform.is_some(),
            None => false,
        };
        if draw {
            let id = data.entities[k].id;
            let layer = match data.entities[k].components.transform {
                Some(tr) => tr.layer,
                None => 0,
            };
            texts.push(id);
            let mut slot: Option<UiText> = None;
            std::mem::swap(&mut slot, &mut data.entities[k].components.ui_text);
            let mut t = match slot {
                Some(t) => t,
                None => {
                    return true_type;
                },
            };
            let font = data.resources.assets.get_font_for_ref(t.font_ref);
            match font {
                Font::Bitmap { .. } => {
                    add_text_glyphs(&mut to_add, Ghost(e), id, layer, &t, font);
                    assert forall|j: int| 0 <= j < to_add@.len() implies is_glyph(
                        #[trigger] to_add@[j],
                        glyphs_to_add(cur, fonts)[j],
                    ) by {
                        if j < before.len() {
                            assert(to_add@[j] == before[j]);
                        } else {
                            assert(to_add@[before.len() + (j - before.len())] == to_add@[j]);
                        }
                    }
                },
                Font::TrueType { .. } => {
                    add_true_type_glyphs(&mut to_add, Ghost(e), id, layer, &t, font);
                    assert forall|j: int| 0 <= j < to_add@.len() implies is_glyph(
                        #[trigger] to_add@[j],
                        glyphs_to_add(cur, fonts)[j],
                    ) by {
                        if j < before.len() {
                            assert(to_add@[j] == before[j]);
                        } else {
                            assert(to_add@[before.len() + (j - before.len())] == to_add@[j]);
                        }
                    }
                    true_type.push(id);
                },
            }
            t.dirty = false;
            data.entities[k].components.ui_text = Some(t);
            assert(data.entities@[k as int] == text_drawn(e));
        } else {
            assert(text_drawn(e) == e);
        }
        k = k + 1;
    }
    assert(es.subrange(0, n as int) == es);
    let ghost mid = data.entities@;
    assert(mid =~= texts_drawn(es));
    assert(same_ids(d0.entities@, mid));
    proof {
        lemma_wf_same_ids(&d0, &*data);
    }
    let mut stale: Vec<EntityId> = Vec::new();
    let mut m: usize = 0;
    while m < n
        invariant
            n == mid.len(),
            m <= n,
            data.entities@ == mid,
            stale@ == stale_glyphs(mid.subrange(0, m as int), texts@),
        decreases n - m,
    {
        assert(mid.subrange(0, m + 1).drop_last() == mid.subrange(0, m as int));
        assert(mid.subrange(0, m + 1).last() == mid[m as int]);
        if data.entities[m].components.ui_text_image.is_some() {
            match data.entities[m].components.parent {
                Some(p) => {
                    if contains_id(&texts, p) {
                        stale.push(data.entities[m].id);
                    }
                },
                None => {},
            }
        }
        m = m + 1;
    }
    assert(mid.subrange(0, n as int) == mid);
    remove_entities(data, &stale);
    let ghost kept = data.entities@;
    let ghost next0 = data.next_id;
    let ghost adds = to_add@;
    data.push_all(to_add);
    assert forall|j: int| 0 <= j < glyphs_to_add(es, fonts).len() implies (#[trigger] data.entities@[kept.len()
        + j]).id == d0.next_id + j && is_glyph(data.entities@[kept.len() + j].components, glyphs_to_add(es, fonts)[j]) by {
        assert(data.entities@[kept.len() + j] == appended(kept, adds, next0)[kept.len() + j]);
    }
    true_type
}

/// No entity of `s` holds a text to draw: none is left to draw.
proof fn lemma_nothing_to_draw(s: Seq<EntityRecord>)
    requires
        forall|k: int| 0 <= k < s.len() ==> !text_to_draw(#[trigger] s[k].components),
    ensures
        texts_to_draw(s).len() == 0,
    decreases s.len(),
{
    if s.len() > 0 {
        let init = s.drop_last();
        assert forall|k: int| 0 <= k < init.len() implies !text_to_draw(#[trigger] init[k].components) by {
            assert(init[k] == s[k]);
        }
        lemma_nothing_to_draw(init);
        assert(s.last() == s[s.len() - 1]);
    }
}

/// Once the texts are drawn, none is left to draw: neither among the entities
/// kept, whatever images were taken out, nor among the character images added.
pub proof fn law_texts_drawn_once(es: Seq<EntityRecord>, ids: Seq<EntityId>, g: GlyphSpec, c: Components)
    ensures
        texts_to_draw(without_ids(texts_drawn(es), ids)).len() == 0,
        is_glyph(c, g) ==> !text_to_draw(c),
{
    let kept = without_ids(texts_drawn(es), ids);
    lemma_without_ids_from(texts_drawn(es), ids);
    assert forall|k: int| 0 <= k < kept.len() implies !text_to_draw(#[trigger] kept[k].components) by {
        let j = choose|j: int| 0 <= j < texts_drawn(es).len() && #[trigger] texts_drawn(es)[j] == #[trigger] kept[k];
        assert(texts_drawn(es)[j] == text_drawn(es[j]));
    }
    lemma_nothing_to_draw(kept);
}

} // verus!
