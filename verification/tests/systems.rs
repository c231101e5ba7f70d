use scion::components::{Collider, ColliderMask, Collision, Color, Material, Transform, UiImage};
use scion::inputs::InputsController;
use scion::systems::assets::asset_ref_resolver_system;
use scion::systems::collider::{collider_cleaner_system, debug_colliders_system, handle_global_debug_colliders};
use scion::systems::hide_propagation::{hide_propagated_deletion_system, hide_propagation_system};
use scion::systems::hierarchy::children_manager_system;
use scion::systems::ui_components::{missing_focus_component_system, missing_ui_component_system, UiKind};
use scion::systems::ui_input::set_childs_on_inputs;
use scion::time::Timers;
use scion::ui::{UiInput, UiText};
use scion::world::{AssetManager, Components, FocusManager, GameData, GlobalStorage, Resources, Window};
use scion::inputs::{Input, KeyCode};

fn world() -> GameData {
    GameData::new(Resources {
        assets: AssetManager::new(),
        inputs: InputsController::new(),
        focus_manager: FocusManager { current: None },
        window: Window { width: 800, height: 600 },
        global_storage: GlobalStorage::new(),
        timers: Timers::new(),
    })
}

fn comps(d: &GameData, id: u64) -> Option<&Components> {
    d.entities.iter().find(|e| e.id == id).map(|e| &e.components)
}

#[test]
fn children_manager_system_test_children_delete() {
    let mut world = world();
    let parent = world.push(Components::empty());
    let mut c = Components::empty();
    c.parent = Some(parent);
    let child = world.push(c);

    assert_eq!(true, comps(&world, parent).unwrap().children.is_none());

    children_manager_system(&mut world);

    assert_eq!(true, comps(&world, parent).unwrap().children.is_some());

    let _r = world.remove(parent);
    children_manager_system(&mut world);

    assert_eq!(true, comps(&world, child).is_none());
}

#[test]
fn children_manager_system_test_parent_clean() {
    let mut world = world();
    let child = world.push(Components::empty());
    let mut p = Components::empty();
    p.children = Some(vec![child]);
    let parent = world.push(p);

    assert_eq!(true, comps(&world, parent).unwrap().children.as_ref().unwrap().contains(&child));
    let _r = world.remove(child);

    children_manager_system(&mut world);

    assert_eq!(0, comps(&world, parent).unwrap().children.as_ref().unwrap().len());
}

#[test]
fn children_manager_lists_each_child_once_in_order() {
    let mut world = world();
    let parent = world.push(Components::empty());
    let mut kids = vec![];
    for _ in 0..3 {
        let mut c = Components::empty();
        c.parent = Some(parent);
        kids.push(world.push(c));
    }
    children_manager_system(&mut world);
    children_manager_system(&mut world);
    assert_eq!(&kids, comps(&world, parent).unwrap().children.as_ref().unwrap());
}

#[test]
fn children_manager_keeps_grandchildren_of_removed_parent_for_a_frame() {
    let mut world = world();
    let grand = world.push(Components::empty());
    let mut c = Components::empty();
    c.parent = Some(grand);
    let parent = world.push(c);
    let mut c = Components::empty();
    c.parent = Some(parent);
    let child = world.push(c);
    let _r = world.remove(grand);
    children_manager_system(&mut world);
    assert!(comps(&world, parent).is_none());
    assert!(comps(&world, child).is_some());
    children_manager_system(&mut world);
    assert!(comps(&world, child).is_none());
}

#[test]
fn hide_propagation_test() {
    let mut world = world();
    let child = world.push(Components::empty());
    let mut p = Components::empty();
    p.hide = true;
    p.children = Some(vec![child]);
    let _parent = world.push(p);

    assert_eq!(false, comps(&world, child).unwrap().hide_propagated);

    hide_propagation_system(&mut world);

    assert_eq!(true, comps(&world, child).unwrap().hide_propagated);
}

#[test]
fn hide_propagated_deletion_test() {
    let mut world = world();
    let parent = world.push(Components::empty());
    let mut c = Components::empty();
    c.hide_propagated = true;
    c.parent = Some(parent);
    let child = world.push(c);

    assert_eq!(true, comps(&world, child).unwrap().hide_propagated);

    hide_propagated_deletion_system(&mut world);

    assert_eq!(false, comps(&world, child).unwrap().hide_propagated);
}

#[test]
fn clear_collision_system_test() {
    let mut world = world();
    let mut c = Components::empty();
    c.transform = Some(Transform::from_layer(0));
    c.collider = Some(Collider::new(ColliderMask::Bullet, vec![]));
    let e = world.push(c);

    {
        let entry = world.entities.iter_mut().find(|r| r.id == e).unwrap();
        let collider = entry.components.collider.as_mut().unwrap();
        collider.add_collisions(&mut vec![Collision { mask: ColliderMask::Character, entity: e }]);
        assert_eq!(1, collider.collisions().len());
    }

    collider_cleaner_system(&mut world);

    assert_eq!(0, comps(&world, e).unwrap().collider.as_ref().unwrap().collisions().len());
}

fn outlines(world: &GameData) -> usize {
    world.entities.iter().filter(|r| r.components.collider_debug && r.components.parent.is_some()).count()
}

#[test]
fn debug_colliders_system_test() {
    let mut world = world();
    let mut c = Components::empty();
    c.transform = Some(Transform::from_layer(0));
    c.collider = Some(Collider::new(ColliderMask::Empty, vec![]).with_debug_lines());
    let _collider = world.push(c);

    debug_colliders_system(&mut world);

    assert_eq!(1, outlines(&world));
}

#[test]
fn debug_outline_is_white_child_on_layer_30_and_added_once() {
    let mut world = world();
    let mut c = Components::empty();
    c.transform = Some(Transform::from_layer(0));
    c.collider = Some(Collider::new(ColliderMask::Landscape, vec![]).with_debug_lines());
    let e = world.push(c);
    debug_colliders_system(&mut world);
    debug_colliders_system(&mut world);
    assert_eq!(1, outlines(&world));
    let outline = world.entities.iter().find(|r| r.components.collider_debug).unwrap();
    assert_eq!(Some(e), outline.components.parent);
    assert_eq!(30, outline.components.transform.unwrap().layer);
    match &outline.components.material {
        Some(Material::Diffuse(color)) => assert_eq!(Color::new_rgb(255, 255, 0), *color),
        _ => panic!("outline without its color"),
    }
}

#[test]
fn debug_outline_removed_when_debug_mode_ends() {
    let mut world = world();
    let mut c = Components::empty();
    c.transform = Some(Transform::from_layer(0));
    c.collider = Some(Collider::new(ColliderMask::Bullet, vec![]).with_debug_lines());
    let e = world.push(c);
    debug_colliders_system(&mut world);
    assert_eq!(1, outlines(&world));
    world.entities.iter_mut().find(|r| r.id == e).unwrap().components.collider.as_mut().unwrap().debug_lines = false;
    debug_colliders_system(&mut world);
    assert_eq!(0, outlines(&world));
}

#[test]
fn global_debug_shortcut_switches_and_is_remembered() {
    let mut world = world();
    assert!(!handle_global_debug_colliders(&mut world));
    world.resources.inputs.pressed = vec![Input::Key(KeyCode::LShift), Input::Key(KeyCode::Char('d'))];
    world.resources.inputs.pressed_events = vec![Input::Key(KeyCode::Char('d'))];
    assert!(handle_global_debug_colliders(&mut world));
    assert_eq!(Some(true), world.resources.global_storage.flag("debug_colliders"));
    world.resources.inputs.pressed_events = vec![];
    assert!(handle_global_debug_colliders(&mut world));
    world.resources.inputs.pressed_events = vec![Input::Key(KeyCode::LShift)];
    assert!(!handle_global_debug_colliders(&mut world));
}

#[test]
fn missing_ui_comp_system_test() {
    let mut world = world();
    let mut c = Components::empty();
    c.ui_image = Some(UiImage { width: 1, height: 1 });
    let e = world.push(c);

    assert_eq!(false, comps(&world, e).unwrap().ui_component);

    missing_ui_component_system(&mut world, UiKind::Image);

    assert_eq!(true, comps(&world, e).unwrap().ui_component);
}

#[test]
fn missing_ui_comp_system_leaves_other_kinds() {
    let mut world = world();
    let mut c = Components::empty();
    c.ui_text = Some(UiText::new("a".to_string(), 0));
    let e = world.push(c);
    missing_ui_component_system(&mut world, UiKind::Image);
    assert_eq!(false, comps(&world, e).unwrap().ui_component);
    missing_ui_component_system(&mut world, UiKind::Text);
    assert_eq!(true, comps(&world, e).unwrap().ui_component);
}

#[test]
fn missing_ui_focus_system_test() {
    let mut world = world();
    let mut c = Components::empty();
    c.ui_input = Some(UiInput::new(1, 2, 0).with_tab_index(4));
    let e = world.push(c);

    assert_eq!(true, comps(&world, e).unwrap().focusable.is_none());

    missing_focus_component_system(&mut world);

    assert_eq!(true, comps(&world, e).unwrap().focusable.is_some());
    assert_eq!(4, comps(&world, e).unwrap().focusable.unwrap().rank);
}

#[test]
fn set_childs_on_inputs_tests() {
    let mut data = world();
    let asset_ref = 0;
    let mut c = Components::empty();
    c.transform = Some(Transform::from_layer(0));
    c.ui_input = Some(UiInput::new(10, 10, asset_ref));
    let e = data.push(c);

    set_childs_on_inputs(&mut data);

    comps(&data, e).unwrap();
    let text_entity = data.entities.iter().find(|r| r.components.ui_text.is_some()).unwrap();
    text_entity.components.parent.unwrap();
}

#[test]
fn input_text_child_shows_the_input_and_is_listed() {
    let mut data = world();
    let mut c = Components::empty();
    c.transform = Some(Transform::from_layer(3));
    c.ui_input = Some(UiInput::new(10, 10, 2).with_font_size(12));
    let e = data.push(c);
    set_childs_on_inputs(&mut data);
    children_manager_system(&mut data);
    let text_entity = data.entities.iter().find(|r| r.components.ui_text.is_some()).unwrap();
    let text = text_entity.components.ui_text.as_ref().unwrap();
    assert_eq!(2, text.font_ref);
    assert_eq!(12, text.font_size);
    assert_eq!(3, text_entity.components.transform.unwrap().layer);
    assert_eq!(&vec![text_entity.id], comps(&data, e).unwrap().children.as_ref().unwrap());
    set_childs_on_inputs(&mut data);
    assert_eq!(2, data.entities.len());
}

#[test]
fn asset_ref_resolver_material_system_test() {
    let mut world = world();
    let asset_ref = world.resources.assets.register_material(Material::Color(Color::new_rgb(1, 1, 1)));
    let mut c = Components::empty();
    c.material_ref = Some(asset_ref);
    let e = world.push(c);

    assert_eq!(true, comps(&world, e).unwrap().material.is_none());

    asset_ref_resolver_system(&mut world);

    assert_eq!(true, comps(&world, e).unwrap().material.is_some());
}
