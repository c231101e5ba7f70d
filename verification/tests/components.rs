use scion::animations::{Animation, AnimationModifier, AnimationStatus, Animations, ComputedKeyframeModifier};
use scion::components::{Color, Material, Sprite, Transform, UiFocusable};
use scion::font::find_line_and_column;
use scion::inputs::{Input, InputState, InputsController, KeyCode, KeyboardEvent, MouseButton, MouseEvent, WindowInput};
use scion::systems::animation::{animation_executer_system, AnimationEffect};
use scion::systems::camera::{default_camera_system, world_contains_camera};
use scion::systems::focus::{compute_action, focus_switcher_system, FocusAction};
use scion::systems::moves::dirty_transform_system;
use scion::systems::transform::dirty_child_system;
use scion::systems::ui_components::sync_text_value_system;
use scion::systems::ui_input::{register_keyboard_inputs_on_ui_input, synchronize_input_and_text};
use scion::time::{TimerType, Timers};
use scion::ui::{UiInput, UiText};
use scion::windowing::{handle_window_event, update_input_events, FrameEvent, RendererEvent, WindowingEvent};
use scion::world::{AssetManager, Components, FocusManager, GameData, GlobalStorage, Resources, Window};

fn world() -> GameData {
    GameData::new(Resources {
        assets: AssetManager::new(),
        inputs: InputsController::new(),
        focus_manager: FocusManager { current: None },
        window: Window { width: 800, height: 600 },
        global_storage: GlobalStorage::new(),
        timers: Timers::new(),
    })
}

fn comps(d: &GameData, id: u64) -> &Components {
    &d.entities.iter().find(|e| e.id == id).unwrap().components
}

fn comps_mut(d: &mut GameData, id: u64) -> &mut Components {
    &mut d.entities.iter_mut().find(|e| e.id == id).unwrap().components
}

#[test]
fn find_indexes() {
    assert_eq!((1, 0), find_line_and_column(&"abcdef".to_string(), 3, 'd'))
}

#[test]
fn find_indexes_first_occurrence_and_columns() {
    assert_eq!((0, 0), find_line_and_column(&"abcabc".to_string(), 3, 'a'));
    assert_eq!((2, 1), find_line_and_column(&"abcdefgh".to_string(), 3, 'h'));
    // Positions count bytes: 'é' takes two.
    assert_eq!((1, 0), find_line_and_column(&"aébc".to_string(), 3, 'b'));
    assert_eq!((1, 1), find_line_and_column(&"aébc".to_string(), 3, 'c'));
}

#[test]
fn any_animation_running_test() {
    let a = Animations::new(vec![("d".to_string(), Animation { duration: 0, modifiers: vec![], status: AnimationStatus::Running })]);
    assert!(a.any_animation_running());

    let a = Animations::new(vec![("d".to_string(), Animation { duration: 0, modifiers: vec![], status: AnimationStatus::Stopped })]);
    assert!(!a.any_animation_running());
}

#[test]
fn duration_divider_test() {
    let animation = Animation::new(1_000_000_000, vec![AnimationModifier::transform(2)]);
    let anim_modifier = animation.modifiers.first().unwrap();
    assert_eq!(500, anim_modifier.single_keyframe_duration.unwrap() / 1_000_000);
    assert!(matches!(anim_modifier.single_keyframe_modifier, Some(ComputedKeyframeModifier::TransformModifier)));
}

#[test]
fn short_animation_sets_nothing_up() {
    let animation = Animation::new(999_999, vec![AnimationModifier::blink(2)]);
    assert_eq!(None, animation.modifiers[0].single_keyframe_duration);
    assert_eq!(4, animation.modifiers[0].number_of_keyframes);
}

#[test]
fn run_stop_and_loop_animations() {
    let mut a = Animations::single("walk", Animation::new(1_000_000_000, vec![AnimationModifier::blink(1)]));
    assert!(!a.animation_running("walk"));
    assert!(a.run_animation("walk"));
    assert!(a.animation_running("walk"));
    assert!(!a.run_animation("walk"));
    assert!(!a.run_animation("run"));
    assert!(a.stop_animation("walk", false));
    assert!(a.animation_running("walk"));
    assert_eq!(AnimationStatus::Stopping, a.animations[0].1.status);
    assert!(!a.stop_animation("walk", true));
    a.animations[0].1.status = AnimationStatus::Stopped;
    assert!(a.loop_animation("walk"));
    a.stop_all_animation(true);
    assert_eq!(AnimationStatus::ForceStopped, a.animations[0].1.status);
    assert!(!a.any_animation_running());
}

#[test]
fn try_update_status_stops_a_finished_run() {
    let mut m = AnimationModifier::blink(1);
    m.current_keyframe = 2;
    let mut a = Animation { duration: 0, modifiers: vec![m], status: AnimationStatus::Running };
    a.try_update_status();
    assert_eq!(AnimationStatus::Stopped, a.status);
    assert_eq!(0, a.modifiers[0].current_keyframe);
    let mut m = AnimationModifier::blink(1);
    m.current_keyframe = 2;
    let mut a = Animation { duration: 0, modifiers: vec![m], status: AnimationStatus::Looping };
    a.try_update_status();
    assert_eq!(AnimationStatus::Looping, a.status);
    assert_eq!(0, a.modifiers[0].current_keyframe);
}

fn animated_world(modifier: AnimationModifier, status: AnimationStatus) -> (GameData, u64) {
    let mut data = world();
    let mut c = Components::empty();
    c.transform = Some(Transform::from_layer(0));
    c.sprite = Some(Sprite::new(9));
    c.material = Some(Material::Color(Color::new_rgb(0, 0, 0)));
    c.ui_text = Some(UiText::new("".to_string(), 0));
    let mut animation = Animation::new(1_000_000_000, vec![modifier]);
    animation.status = status;
    c.animations = Some(Animations::single("a", animation));
    let e = data.push(c);
    (data, e)
}

fn set_cycles(data: &mut GameData, cycles: usize) {
    for t in data.resources.timers.timers.iter_mut() {
        t.cycle = cycles;
    }
}

#[test]
fn sprite_animation_walks_its_tiles_then_ends() {
    let (mut data, e) = animated_world(AnimationModifier::sprite(vec![1, 2, 3], 7), AnimationStatus::Running);
    animation_executer_system(&mut data);
    assert_eq!(1, comps(&data, e).sprite.unwrap().tile_number);
    assert_eq!(1, data.resources.timers.timers.len());
    assert_eq!("0-a-AnimationModifier-SpriteModifier", data.resources.timers.timers[0].name);
    set_cycles(&mut data, 1);
    animation_executer_system(&mut data);
    assert_eq!(2, comps(&data, e).sprite.unwrap().tile_number);
    set_cycles(&mut data, 1);
    animation_executer_system(&mut data);
    assert_eq!(7, comps(&data, e).sprite.unwrap().tile_number);
    let anims = comps(&data, e).animations.as_ref().unwrap();
    assert_eq!(AnimationStatus::Stopped, anims.animations[0].1.status);
    assert_eq!(0, data.resources.timers.timers.len());
}

#[test]
fn color_animation_steps_towards_target() {
    let (mut data, e) = animated_world(AnimationModifier::color(2, Color::new_rgb(10, 255, 5)), AnimationStatus::Running);
    animation_executer_system(&mut data);
    set_cycles(&mut data, 1);
    let effects = animation_executer_system(&mut data);
    match &comps(&data, e).material {
        Some(Material::Color(c)) => assert_eq!((5, 127, 2), (c.r, c.g, c.b)),
        _ => panic!("material lost"),
    }
    assert_eq!(1, effects.len());
    assert!(matches!(effects[0], AnimationEffect::Alpha { keyframes: 1, number_of_keyframes: 2, .. }));
}

#[test]
fn blink_animation_hides_then_shows() {
    let (mut data, e) = animated_world(AnimationModifier::blink(2), AnimationStatus::Running);
    animation_executer_system(&mut data);
    assert!(!comps(&data, e).hide);
    set_cycles(&mut data, 1);
    animation_executer_system(&mut data);
    assert!(comps(&data, e).hide);
    set_cycles(&mut data, 1);
    animation_executer_system(&mut data);
    assert!(!comps(&data, e).hide);
    set_cycles(&mut data, 5);
    animation_executer_system(&mut data);
    assert!(!comps(&data, e).hide);
}

#[test]
fn text_animation_writes_one_more_character() {
    let (mut data, e) = animated_world(AnimationModifier::text("abc".to_string()), AnimationStatus::Running);
    animation_executer_system(&mut data);
    assert_eq!("", comps(&data, e).ui_text.as_ref().unwrap().text);
    set_cycles(&mut data, 1);
    animation_executer_system(&mut data);
    assert_eq!("a", comps(&data, e).ui_text.as_ref().unwrap().text);
    set_cycles(&mut data, 1);
    animation_executer_system(&mut data);
    assert_eq!("ab", comps(&data, e).ui_text.as_ref().unwrap().text);
}

#[test]
fn transform_animation_asks_the_renderer() {
    let (mut data, _e) = animated_world(AnimationModifier::transform(4), AnimationStatus::Looping);
    let effects = animation_executer_system(&mut data);
    assert!(effects.is_empty());
    set_cycles(&mut data, 3);
    let effects = animation_executer_system(&mut data);
    assert_eq!(1, effects.len());
    match &effects[0] {
        AnimationEffect::Transform { animation, modifier, keyframes, .. } => {
            assert_eq!("a", animation);
            assert_eq!(0, *modifier);
            assert_eq!(3, *keyframes);
        }
        _ => panic!("expected a transform effect"),
    }
}

#[test]
fn stopped_animation_does_nothing() {
    let (mut data, e) = animated_world(AnimationModifier::sprite(vec![1, 2], 7), AnimationStatus::Stopped);
    let effects = animation_executer_system(&mut data);
    assert!(effects.is_empty());
    assert_eq!(9, comps(&data, e).sprite.unwrap().tile_number);
    assert!(data.resources.timers.timers.is_empty());
}

#[test]
fn timers_add_read_delete() {
    let mut timers = Timers::new();
    assert!(timers.add_timer("t", TimerType::Cyclic, 10));
    assert!(!timers.add_timer("t", TimerType::Manual, 20));
    assert_eq!(Some(0), timers.timer_cycle("t"));
    assert_eq!(None, timers.timer_cycle("u"));
    assert!(timers.delete_timer("t"));
    assert!(!timers.delete_timer("t"));
}

#[test]
fn ui_text_synchronized() {
    let mut world = world();
    let text_synced = UiText::new("abf".to_string(), 0).sync_value(0);
    let mut c = Components::empty();
    c.ui_text = Some(text_synced);
    c.transform = Some(Transform::from_layer(0));
    let e = world.push(c);

    assert_eq!("abf".to_string(), comps(&world, e).ui_text.as_ref().unwrap().text);

    let score = 5usize;
    sync_text_value_system(&mut world, |_key| score.to_string());

    assert_eq!("5".to_string(), comps(&world, e).ui_text.as_ref().unwrap().text);
}

#[test]
fn set_text_marks_dirty_only_on_change() {
    let mut t = UiText::new("x".to_string(), 0);
    t.dirty = false;
    t.set_text("x".to_string());
    assert!(!t.dirty);
    t.set_text("y".to_string());
    assert!(t.dirty);
    let mut i = UiInput::new(1, 1, 0);
    i.dirty = false;
    i.set_text("".to_string());
    assert!(!i.dirty);
}

fn focusable(data: &mut GameData, rank: usize) -> u64 {
    let mut c = Components::empty();
    c.focusable = Some(UiFocusable { rank, focused: false });
    data.push(c)
}

fn press(data: &mut GameData, keys: &[KeyCode]) {
    data.resources.inputs.pressed = keys.iter().map(|k| Input::Key(*k)).collect();
    data.resources.inputs.pressed_events = keys.iter().map(|k| Input::Key(*k)).collect();
}

#[test]
fn tab_cycles_focus_by_rank() {
    let mut data = world();
    let b = focusable(&mut data, 2);
    let a = focusable(&mut data, 1);
    press(&mut data, &[KeyCode::Tab]);
    assert_eq!(FocusAction::Next, compute_action(&data));
    focus_switcher_system(&mut data);
    assert_eq!(Some((a, 1)), data.resources.focus_manager.current);
    assert!(comps(&data, a).focusable.unwrap().focused);
    focus_switcher_system(&mut data);
    assert_eq!(Some((b, 2)), data.resources.focus_manager.current);
    assert!(!comps(&data, a).focusable.unwrap().focused);
    focus_switcher_system(&mut data);
    assert_eq!(Some((a, 1)), data.resources.focus_manager.current);
    press(&mut data, &[KeyCode::LShift, KeyCode::Tab]);
    assert_eq!(FocusAction::Previous, compute_action(&data));
    focus_switcher_system(&mut data);
    assert_eq!(Some((b, 2)), data.resources.focus_manager.current);
    press(&mut data, &[KeyCode::Escape]);
    assert_eq!(FocusAction::Reset, compute_action(&data));
    focus_switcher_system(&mut data);
    assert_eq!(None, data.resources.focus_manager.current);
}

#[test]
fn typing_into_the_focused_input() {
    let mut data = world();
    let mut c = Components::empty();
    c.ui_input = Some(UiInput::new(10, 10, 0));
    let e = data.push(c);
    data.resources.focus_manager.change_focus(e, 0);
    press(&mut data, &[KeyCode::Char('a'), KeyCode::Char('b')]);
    register_keyboard_inputs_on_ui_input(&mut data);
    assert_eq!("ab", comps(&data, e).ui_input.as_ref().unwrap().text);
    data.resources.inputs.pressed = vec![Input::Key(KeyCode::LShift)];
    data.resources.inputs.pressed_events = vec![Input::Key(KeyCode::Char('c'))];
    register_keyboard_inputs_on_ui_input(&mut data);
    assert_eq!("abC", comps(&data, e).ui_input.as_ref().unwrap().text);
    press(&mut data, &[KeyCode::BackSpace]);
    register_keyboard_inputs_on_ui_input(&mut data);
    assert_eq!("ab", comps(&data, e).ui_input.as_ref().unwrap().text);
}

#[test]
fn input_text_reaches_its_text_child() {
    let mut data = world();
    let child = {
        let mut c = Components::empty();
        c.ui_text = Some(UiText::new("".to_string(), 0));
        data.push(c)
    };
    let mut c = Components::empty();
    let mut input = UiInput::new(10, 10, 0);
    input.set_text("hello".to_string());
    c.ui_input = Some(input);
    c.children = Some(vec![child]);
    let e = data.push(c);
    comps_mut(&mut data, child).ui_text.as_mut().unwrap().dirty = false;
    synchronize_input_and_text(&mut data);
    assert_eq!("hello", comps(&data, child).ui_text.as_ref().unwrap().text);
    assert!(comps(&data, child).ui_text.as_ref().unwrap().dirty);
    assert!(!comps(&data, e).ui_input.as_ref().unwrap().dirty);
}

#[test]
fn default_camera_goes_to_each_entity_asking() {
    let mut data = world();
    assert!(!world_contains_camera(&data));
    let mut c = Components::empty();
    c.default_camera = true;
    let e = data.push(c);
    let mut c = Components::empty();
    c.default_camera = true;
    let f = data.push(c);
    default_camera_system(&mut data);
    assert!(world_contains_camera(&data));
    let cam = comps(&data, e).camera.unwrap();
    assert_eq!((800, 600), (cam.width, cam.height));
    assert!(!comps(&data, e).default_camera);
    let cam = comps(&data, f).camera.unwrap();
    assert_eq!((800, 600), (cam.width, cam.height));
    assert!(!comps(&data, f).default_camera);
    assert_eq!(Some(Transform::from_layer(0)), comps(&data, f).transform);
}

/// Global x coordinates as the renderer keeps them: each dirty child takes its
/// parent's, in the plan's order, then each round of moves takes the parents'
/// values as they stood when the round began.
fn follow(
    global: &mut Vec<(u64, f32)>,
    local: &[(u64, f32)],
    plan: &[(u64, u64)],
    rounds: &[Vec<(u64, u64)>],
) {
    let x = |g: &Vec<(u64, f32)>, e: u64| g.iter().find(|(i, _)| *i == e).unwrap().1;
    for (c, p) in plan.iter() {
        let v = local.iter().find(|(e, _)| e == c).unwrap().1 + x(global, *p);
        global.iter_mut().find(|(e, _)| e == c).unwrap().1 = v;
    }
    for round in rounds.iter() {
        let start = global.clone();
        for (c, p) in round.iter() {
            let v = local.iter().find(|(e, _)| e == c).unwrap().1 + x(&start, *p);
            global.iter_mut().find(|(e, _)| e == c).unwrap().1 = v;
        }
    }
}

#[test]
fn dirty_parent_transform_test() {
    let mut world = world();
    let parent = world.push({
        let mut c = Components::empty();
        c.transform = Some(Transform::from_layer(0));
        c
    });
    let child = world.push({
        let mut c = Components::empty();
        c.transform = Some(Transform::from_layer(0));
        c.parent = Some(parent);
        c
    });
    let child_of_child = world.push({
        let mut c = Components::empty();
        c.transform = Some(Transform::from_layer(0));
        c.parent = Some(child);
        c
    });
    comps_mut(&mut world, parent).transform.as_mut().unwrap().dirty_child = false;

    for r in world.entities.iter() {
        assert_eq!(false, r.components.transform.unwrap().dirty);
    }

    scion::systems::hierarchy::children_manager_system(&mut world);
    let plan = dirty_child_system(&mut world);
    let rounds = dirty_transform_system(&mut world);

    let mut local = vec![(parent, 1.0f32), (child, 1.0f32), (child_of_child, 1.0f32)];
    let mut global: Vec<(u64, f32)> = local.clone();
    follow(&mut global, &local, &plan, &rounds);
    let x = |g: &Vec<(u64, f32)>, e: u64| g.iter().find(|(i, _)| *i == e).unwrap().1;
    assert_eq!(1., x(&global, parent));
    assert_eq!(2., x(&global, child));
    assert_eq!(3., x(&global, child_of_child));
    for r in world.entities.iter() {
        assert!(!r.components.transform.unwrap().dirty_child);
    }

    // The parent moves: its transform is dirty.
    local[0].1 += 5.0;
    global[0].1 += 5.0;
    comps_mut(&mut world, parent).transform.as_mut().unwrap().dirty = true;

    scion::systems::hierarchy::children_manager_system(&mut world);
    let plan = dirty_child_system(&mut world);
    let rounds = dirty_transform_system(&mut world);
    follow(&mut global, &local, &plan, &rounds);

    assert_eq!(6., x(&global, parent));
    assert_eq!(7., x(&global, child));
    assert_eq!(8., x(&global, child_of_child));
    assert_eq!(vec![vec![(child, parent)], vec![(child_of_child, child)]], rounds);
    for r in world.entities.iter() {
        assert!(!r.components.transform.unwrap().dirty);
    }
    // Everything is at rest: nothing is left to pass on.
    assert!(dirty_transform_system(&mut world).is_empty());
}

#[test]
fn window_events_update_the_inputs() {
    let mut data = world();
    update_input_events(WindowInput::Keyboard(KeyboardEvent { keycode: KeyCode::Tab, state: InputState::Pressed }), &mut data);
    assert!(data.resources.inputs.input_pressed(&Input::Key(KeyCode::Tab)));
    assert!(data.resources.inputs.input_pressed_event(&Input::Key(KeyCode::Tab)));
    update_input_events(WindowInput::Mouse(MouseEvent { button: MouseButton::Left, state: InputState::Pressed }), &mut data);
    assert!(data.resources.inputs.input_pressed(&Input::Mouse(MouseButton::Left)));
    data.resources.inputs.reset_events();
    update_input_events(WindowInput::Keyboard(KeyboardEvent { keycode: KeyCode::Tab, state: InputState::Released }), &mut data);
    assert!(!data.resources.inputs.input_pressed(&Input::Key(KeyCode::Tab)));
    assert!(!data.resources.inputs.input_pressed_event(&Input::Key(KeyCode::Tab)));
    update_input_events(WindowInput::Other, &mut data);
    assert!(data.resources.inputs.input_pressed(&Input::Mouse(MouseButton::Left)));
}

#[test]
fn timers_advance_with_the_clock() {
    let mut timers = Timers::new();
    timers.add_timer("cyclic", TimerType::Cyclic, 10);
    timers.add_timer("manual", TimerType::Manual, 10);
    timers.add_timer("none", TimerType::Cyclic, 0);
    timers.advance(25);
    assert_eq!((2, 5), (timers.timers[0].cycle, timers.timers[0].elapsed_nanos));
    assert_eq!((1, 10), (timers.timers[1].cycle, timers.timers[1].elapsed_nanos));
    assert_eq!(0, timers.timers[2].cycle);
    timers.advance(5);
    assert_eq!((1, 0), (timers.timers[0].cycle, timers.timers[0].elapsed_nanos));
    assert_eq!((1, 10), (timers.timers[1].cycle, timers.timers[1].elapsed_nanos));
    timers.advance(3);
    assert_eq!((0, 3), (timers.timers[0].cycle, timers.timers[0].elapsed_nanos));
    timers.timers[1].reset();
    assert_eq!((0, 0), (timers.timers[1].cycle, timers.timers[1].elapsed_nanos));
    timers.advance(4);
    assert_eq!((0, 4), (timers.timers[1].cycle, timers.timers[1].elapsed_nanos));
}

#[test]
fn window_events_of_a_frame_resize_then_redraw() {
    let mut data = world();
    let events = vec![
        WindowingEvent { window_event: Some(FrameEvent::ScaleFactorChanged), redraw: false },
        WindowingEvent {
            window_event: Some(FrameEvent::Input(WindowInput::Keyboard(KeyboardEvent { keycode: KeyCode::Tab, state: InputState::Pressed }))),
            redraw: false,
        },
        WindowingEvent { window_event: Some(FrameEvent::Resized { width: 1024, height: 768 }), redraw: false },
        WindowingEvent { window_event: Some(FrameEvent::Other), redraw: true },
    ];
    let r = handle_window_event(&events, &mut data);
    assert_eq!(
        vec![
            RendererEvent::Resize { width: 800, height: 600, scale_changed: true },
            RendererEvent::Resize { width: 1024, height: 768, scale_changed: false },
            RendererEvent::ForceRedraw,
        ],
        r
    );
    assert_eq!(1024, data.resources.window.width);
    assert_eq!(768, data.resources.window.height);
    assert!(data.resources.inputs.input_pressed(&Input::Key(KeyCode::Tab)));
    // Only a redraw asked: the frame is drawn again, nothing resized.
    let r = handle_window_event(&vec![WindowingEvent { window_event: None, redraw: true }], &mut data);
    assert_eq!(vec![RendererEvent::ForceRedraw], r);
    // Nothing asked: nothing to do.
    let r = handle_window_event(&vec![WindowingEvent { window_event: Some(FrameEvent::Other), redraw: false }], &mut data);
    assert!(r.is_empty());
}
