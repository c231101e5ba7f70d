use scion::components::{Collider, ColliderMask, Material, Transform};
use scion::font::{Font, TextGlyph};
use scion::inputs::{Input, InputsController, MouseButton};
use scion::systems::collider::compute_collisions_system;
use scion::systems::hover::{compute_hover, CursorChange};
use scion::systems::ui_text::ui_text_bitmap_update_system;
use scion::time::Timers;
use scion::ui::{UiButton, UiText};
use scion::world::{AssetManager, Components, FocusManager, GameData, GlobalStorage, Resources, Window};

fn world() -> GameData {
    GameData::new(Resources {
        assets: AssetManager::new(),
        inputs: InputsController::new(),
        focus_manager: FocusManager { current: None },
        window: Window { width: 800, height: 600 },
        global_storage: GlobalStorage::new(),
        timers: Timers::new(),
    })
}

fn comps(d: &GameData, id: u64) -> &Components {
    &d.entities.iter().find(|e| e.id == id).unwrap().components
}

fn test_font(assets: &mut AssetManager) -> usize {
    assets.register_font(Font::Bitmap {
        texture_path: "test".to_string(),
        chars: "abcdefg".to_string(),
        width_bits: 5f32.to_bits(),
        height_bits: 5f32.to_bits(),
        texture_columns: 7,
        texture_lines: 1,
    })
}

fn glyphs(d: &GameData) -> Vec<(u64, TextGlyph)> {
    d.entities
        .iter()
        .filter_map(|e| e.components.ui_text_image.map(|g| (e.components.parent.unwrap(), g)))
        .collect()
}

#[test]
fn ui_text_without_transform_should_not_generate_ui_image() {
    let mut world = world();
    let font = test_font(&mut world.resources.assets);
    let mut c = Components::empty();
    c.ui_text = Some(UiText::new("abf".to_string(), font));
    let _entity = world.push(c);

    ui_text_bitmap_update_system(&mut world);

    let cpt = glyphs(&world).len();
    assert_eq!(0, cpt);
}

#[test]
fn ui_text_with_transform_should_generate_ui_image() {
    let mut world = world();
    let font = test_font(&mut world.resources.assets);
    let mut c = Components::empty();
    c.ui_text = Some(UiText::new("abf".to_string(), font));
    c.transform = Some(Transform::from_layer(0));
    let _entity = world.push(c);

    ui_text_bitmap_update_system(&mut world);

    let cpt = glyphs(&world).len();
    assert_eq!(3, cpt);
}

#[test]
fn text_images_follow_the_grid_and_are_replaced_when_the_text_changes() {
    let mut world = world();
    let mut assets = AssetManager::new();
    let font = assets.register_font(Font::Bitmap {
        texture_path: "font.png".to_string(),
        chars: "abcdef".to_string(),
        width_bits: 8f32.to_bits(),
        height_bits: 8f32.to_bits(),
        texture_columns: 3,
        texture_lines: 2,
    });
    world.resources.assets = assets;
    let mut c = Components::empty();
    c.ui_text = Some(UiText::new("fad".to_string(), font));
    c.transform = Some(Transform::from_layer(4));
    let text = world.push(c);

    let true_type = ui_text_bitmap_update_system(&mut world);
    assert!(true_type.is_empty());
    assert!(!comps(&world, text).ui_text.as_ref().unwrap().dirty);
    let first = glyphs(&world);
    assert_eq!(
        vec![
            (text, TextGlyph { font_ref: font, index: 0, line: 1, column: 2 }),
            (text, TextGlyph { font_ref: font, index: 1, line: 0, column: 0 }),
            (text, TextGlyph { font_ref: font, index: 2, line: 1, column: 0 }),
        ],
        first
    );
    let image = world.entities.iter().find(|e| e.components.ui_text_image.is_some()).unwrap();
    assert_eq!(Some(Transform::from_layer(4)), image.components.transform);
    assert!(image.components.ui_component);
    assert!(matches!(&image.components.material, Some(Material::Texture(p)) if p == "font.png"));

    // Nothing changed: nothing is drawn again.
    let count = world.entities.len();
    ui_text_bitmap_update_system(&mut world);
    assert_eq!(count, world.entities.len());

    world.entities.iter_mut().find(|e| e.id == text).unwrap().components.ui_text.as_mut().unwrap().set_text("e".to_string());
    ui_text_bitmap_update_system(&mut world);
    assert_eq!(vec![(text, TextGlyph { font_ref: font, index: 0, line: 1, column: 1 })], glyphs(&world));
}

#[test]
fn true_type_texts_get_one_image_per_visible_character() {
    let mut world = world();
    let font = world.resources.assets.register_font(Font::TrueType { font_path: "font.ttf".to_string() });
    let mut c = Components::empty();
    c.ui_text = Some(UiText::new("he lo".to_string(), font));
    c.transform = Some(Transform::from_layer(2));
    let text = world.push(c);

    let true_type = ui_text_bitmap_update_system(&mut world);

    assert_eq!(vec![text], true_type);
    let g = glyphs(&world);
    assert_eq!(
        vec![0, 1, 3, 4],
        g.iter().map(|(_, glyph)| glyph.index).collect::<Vec<_>>()
    );
    assert!(g.iter().all(|(p, glyph)| *p == text && glyph.font_ref == font));
    let image = world.entities.iter().find(|e| e.components.ui_text_image.is_some()).unwrap();
    assert_eq!(Some(Transform::from_layer(3)), image.components.transform);
    assert!(matches!(&image.components.material, Some(Material::Texture(p)) if p == "font.ttf_10_255_255_255_1065353216"));
    assert!(!comps(&world, text).ui_text.as_ref().unwrap().dirty);
}

fn collider_entity(world: &mut GameData, mask: ColliderMask, filters: Vec<ColliderMask>) -> u64 {
    let mut c = Components::empty();
    c.transform = Some(Transform::from_layer(0));
    c.collider = Some(Collider::new(mask, filters));
    world.push(c)
}

#[test]
fn compute_collision_system_test() {
    let mut world = world();

    let e = collider_entity(&mut world, ColliderMask::Bullet, vec![]);
    let e2 = collider_entity(&mut world, ColliderMask::Landscape, vec![ColliderMask::Bullet]);
    // The two squares of side 5, one unit apart, meet.
    let overlaps = vec![(e, e2), (e2, e)];

    compute_collisions_system(&mut world, &overlaps);

    assert_eq!(0, comps(&world, e).collider.as_ref().unwrap().collisions().len());
    assert_eq!(1, comps(&world, e2).collider.as_ref().unwrap().collisions().len());
}

#[test]
fn collisions_follow_filters_then_entities() {
    let mut world = world();
    let a = collider_entity(&mut world, ColliderMask::Custom("wall".to_string()), vec![]);
    let b = collider_entity(&mut world, ColliderMask::Bullet, vec![]);
    let c = collider_entity(&mut world, ColliderMask::Custom("wall".to_string()), vec![]);
    let hero = collider_entity(
        &mut world,
        ColliderMask::Character,
        vec![ColliderMask::Bullet, ColliderMask::Custom("wall".to_string()), ColliderMask::Item],
    );
    let mut far = Components::empty();
    far.collider = Some(Collider::new(ColliderMask::Bullet, vec![ColliderMask::Character]));
    let unplaced = world.push(far);
    let overlaps = vec![(hero, a), (hero, b), (hero, c), (unplaced, hero)];

    compute_collisions_system(&mut world, &overlaps);

    let hits = comps(&world, hero).collider.as_ref().unwrap().collisions();
    assert_eq!(3, hits.len());
    assert!(matches!(hits[0].mask, ColliderMask::Bullet));
    assert!(matches!(&hits[1].mask, ColliderMask::Custom(n) if n == "wall"));
    assert!(matches!(&hits[2].mask, ColliderMask::Custom(n) if n == "wall"));
    assert!(hits.iter().all(|h| h.entity == hero));
    assert_eq!(0, comps(&world, a).collider.as_ref().unwrap().collisions().len());
    assert_eq!(0, comps(&world, unplaced).collider.as_ref().unwrap().collisions().len());
}

fn button(world: &mut GameData, hover: Option<usize>, clicked: Option<usize>, background: Option<usize>) -> (u64, u64) {
    let child = world.push(Components::empty());
    let mut b = UiButton::new(100, 20, 0, "ok".to_string());
    b.hover = hover;
    b.clicked = clicked;
    b.background = background;
    let mut c = Components::empty();
    c.ui_button = Some(b);
    c.transform = Some(Transform::from_layer(0));
    c.children = Some(vec![child]);
    (world.push(c), child)
}

fn materials(world: &mut GameData) -> (usize, usize, usize) {
    let rest = world.resources.assets.register_material(Material::Texture("rest.png".to_string()));
    let hover = world.resources.assets.register_material(Material::Texture("hover.png".to_string()));
    let clicked = world.resources.assets.register_material(Material::Texture("clicked.png".to_string()));
    (rest, hover, clicked)
}

#[test]
fn hovered_button_shows_its_hover_material_and_the_pointer() {
    let mut world = world();
    let (rest, hover, clicked) = materials(&mut world);
    let (b, child) = button(&mut world, Some(hover), Some(clicked), Some(rest));

    let out = compute_hover(&mut world, &vec![b]);

    assert_eq!(CursorChange::Pointer, out.cursor);
    assert!(out.clicked.is_empty());
    assert!(comps(&world, b).ui_button.as_ref().unwrap().hovered);
    assert_eq!(Some(hover), comps(&world, child).material_ref);
    assert!(matches!(&comps(&world, child).material, Some(Material::Texture(p)) if p == "hover.png"));

    // The mouse leaves: back to rest, and to the usual cursor.
    let out = compute_hover(&mut world, &vec![]);
    assert_eq!(CursorChange::Default, out.cursor);
    assert!(!comps(&world, b).ui_button.as_ref().unwrap().hovered);
    assert_eq!(Some(rest), comps(&world, child).material_ref);

    // Still away: the cursor is left alone.
    let out = compute_hover(&mut world, &vec![]);
    assert_eq!(CursorChange::Unchanged, out.cursor);
}

#[test]
fn clicked_button_shows_its_click_material_and_reports_the_click() {
    let mut world = world();
    let (rest, hover, clicked) = materials(&mut world);
    let (b, child) = button(&mut world, Some(hover), Some(clicked), Some(rest));
    world.resources.inputs.record_input(Input::Mouse(MouseButton::Left), true);

    let out = compute_hover(&mut world, &vec![b]);

    assert_eq!(vec![b], out.clicked);
    assert_eq!(CursorChange::Pointer, out.cursor);
    assert_eq!(Some(clicked), comps(&world, child).material_ref);
    assert!(!comps(&world, b).ui_button.as_ref().unwrap().hovered);

    // Held down in the next frame: no new click.
    world.resources.inputs.reset_events();
    let out = compute_hover(&mut world, &vec![b]);
    assert!(out.clicked.is_empty());
    assert_eq!(Some(clicked), comps(&world, child).material_ref);
}

#[test]
fn hidden_button_is_not_hovered() {
    let mut world = world();
    let (rest, hover, clicked) = materials(&mut world);
    let (b, child) = button(&mut world, Some(hover), Some(clicked), Some(rest));
    world.entities.iter_mut().find(|e| e.id == b).unwrap().components.hide = true;

    let out = compute_hover(&mut world, &vec![b]);

    assert_eq!(CursorChange::Unchanged, out.cursor);
    assert_eq!(None, comps(&world, child).material_ref);
}
