use scion::components::Material;
use scion::renderer::{
    read_modification_timestamp, should_try_to_hot_reload, texture_updates, try_color_update, try_texture_update, FileReaderError,
    ScionRenderer2D, TextureUpdate,
};
use scion::components::Color;
use scion::sound::{audio_format_supported, parse_ogg, AudioContext, AudioController, AudioEvent};
use std::collections::HashMap;
use scion::systems::assets::change_button_material;
use scion::systems::package::prepare_resources;
use scion::systems::ui_components::set_childs_on_buttons;
use scion::time::{TimerType, Timers};
use scion::ui::UiButton;
use scion::inputs::InputsController;
use scion::components::Transform;
use scion::world::{AssetManager, Components, FocusManager, GameData, GlobalStorage, Resources, Window};

fn world() -> GameData {
    GameData::new(Resources {
        assets: AssetManager::new(),
        inputs: InputsController::new(),
        focus_manager: FocusManager { current: None },
        window: Window { width: 800, height: 600 },
        global_storage: GlobalStorage::new(),
        timers: Timers::new(),
    })
}

#[test]
fn audio_formats_supported() {
    assert!(audio_format_supported(44100, 1));
    assert!(audio_format_supported(44100, 2));
    assert!(!audio_format_supported(48000, 2));
    assert!(!audio_format_supported(44100, 3));
}

#[test]
fn parse_ogg_refuses_what_is_no_audio() {
    assert!(parse_ogg(vec![1, 2, 3, 4]).is_err());
    assert!(parse_ogg(vec![]).is_err());
}

fn wav(rate: u32, channels: u16) -> Vec<u8> {
    let data: Vec<u8> = vec![0; 8];
    let mut v = Vec::new();
    v.extend_from_slice(b"RIFF");
    v.extend_from_slice(&(36 + data.len() as u32).to_le_bytes());
    v.extend_from_slice(b"WAVEfmt ");
    v.extend_from_slice(&16u32.to_le_bytes());
    v.extend_from_slice(&1u16.to_le_bytes());
    v.extend_from_slice(&channels.to_le_bytes());
    v.extend_from_slice(&rate.to_le_bytes());
    v.extend_from_slice(&(rate * channels as u32 * 2).to_le_bytes());
    v.extend_from_slice(&(channels * 2).to_le_bytes());
    v.extend_from_slice(&16u16.to_le_bytes());
    v.extend_from_slice(b"data");
    v.extend_from_slice(&(data.len() as u32).to_le_bytes());
    v.extend_from_slice(&data);
    v
}

#[test]
fn parse_ogg_checks_rate_and_channels() {
    let stereo = parse_ogg(wav(44100, 2)).unwrap();
    assert_eq!((44100, 2), (stereo.sample_rate, stereo.channels));
    assert_eq!(wav(44100, 2), stereo.bytes);
    let mono = parse_ogg(wav(44100, 1)).unwrap();
    assert_eq!((44100, 1), (mono.sample_rate, mono.channels));
    assert!(parse_ogg(wav(22050, 2)).is_err());
    assert!(parse_ogg(wav(44100, 4)).is_err());
}

#[test]
fn sound_ids_increase() {
    let mut c = AudioContext::new();
    assert_eq!(0, c.next_id());
    assert_eq!(1, c.next_id());
}

#[test]
fn audio_controller_plays_and_stops() {
    let mut a: AudioController<u8, u8> = AudioController::new();
    let mut lengths = HashMap::new();
    lengths.insert(3, 2);
    a.handle_events(Some(AudioEvent::PlaySound { sound_id: 3, config: 0 }));
    assert!(a.next_frame_samples(&lengths).is_empty());
    a.handle_events(Some(AudioEvent::SystemReady));
    assert_eq!(vec![(3, 0)], a.next_frame_samples(&lengths));
    assert_eq!(vec![(3, 1)], a.next_frame_samples(&lengths));
    assert!(a.next_frame_samples(&lengths).is_empty());
    a.handle_events(Some(AudioEvent::PlaySound { sound_id: 5, config: 1 }));
    assert!(a.next_frame_samples(&lengths).is_empty());
    assert!(a.currently_played_sounds.contains_key(&5));
    a.handle_events(Some(AudioEvent::StopSound { sound_id: 5 }));
    assert!(!a.currently_played_sounds.contains_key(&5));
    a.handle_events(Some(AudioEvent::AddSound { sound_id: 7, data: 9 }));
    assert!(a.sounds.contains_key(&7));
    a.handle_events(None);
    assert!(a.sounds.contains_key(&7));
}

#[test]
fn texture_timestamps_decide_reloads() {
    let mut r = ScionRenderer2D::new();
    assert!(r.missing_texture("a.png"));
    assert!(r.should_reload_texture("a.png", &None));
    assert!(try_texture_update(&mut r, "a.png", &Some(Ok(5)), 100));
    assert!(!r.missing_texture("a.png"));
    assert!(!r.should_reload_texture("a.png", &Some(Ok(5))));
    assert!(!r.should_reload_texture("a.png", &Some(Err(FileReaderError::Unreadable))));
    assert!(r.should_reload_texture("a.png", &Some(Ok(6))));
    assert!(!try_texture_update(&mut r, "a.png", &None, 100));
    assert!(try_texture_update(&mut r, "b.png", &None, 100));
    assert!(!r.should_reload_texture("b.png", &Some(Ok(100))));
}

#[test]
fn color_textures_are_built_once() {
    let mut r = ScionRenderer2D::new();
    assert!(try_color_update(&mut r, "color-1-2-3-1", 7));
    assert!(!r.should_reload_texture("color-1-2-3-1", &Some(Ok(7))));
    assert!(!try_color_update(&mut r, "color-1-2-3-1", 8));
    assert!(!r.should_reload_texture("color-1-2-3-1", &Some(Ok(7))));
    assert!(try_color_update(&mut r, "color-0-0-0-1", 8));
}

#[test]
fn modification_time_read_only_when_due() {
    let mut r = ScionRenderer2D::new();
    assert_eq!(Some(Ok(3)), read_modification_timestamp(&r, false, "a.png", || Ok(3)));
    r.upsert_texture_timestamps("a.png", 3);
    assert_eq!(None, read_modification_timestamp(&r, false, "a.png", || Ok(4)));
    assert_eq!(Some(Ok(4)), read_modification_timestamp(&r, true, "a.png", || Ok(4)));
}

#[test]
fn hot_reload_follows_its_timer() {
    let mut data = world();
    assert!(!should_try_to_hot_reload(&data, false));
    data.resources.timers.add_timer("hot-reload-timer", TimerType::Cyclic, 5_000_000_000);
    assert!(!should_try_to_hot_reload(&data, true));
    data.resources.timers.timers[0].cycle = 1;
    assert!(should_try_to_hot_reload(&data, true));
}

#[test]
fn buffers_track_live_entities() {
    let mut data = world();
    let e = data.push(Components::empty());
    let mut r = ScionRenderer2D::new();
    assert!(r.missing_vertex_buffer(e));
    r.upsert_vertex_buffer(e);
    r.upsert_vertex_buffer(e);
    r.upsert_indexes_buffer(e);
    assert_eq!(1, r.vertex_buffer.len());
    assert!(!r.missing_vertex_buffer(e));
    assert!(!r.missing_indexes_buffer(e));
    data.remove(e);
    r.clean_buffers(&data);
    assert!(r.missing_vertex_buffer(e));
    assert!(r.missing_indexes_buffer(e));
}

#[test]
fn buttons_get_a_child_with_their_material() {
    let mut data = world();
    let bg = data.resources.assets.register_material(Material::Texture("bg.png".to_string()));
    let hover = data.resources.assets.register_material(Material::Texture("hover.png".to_string()));
    let mut c = Components::empty();
    c.transform = Some(Transform::from_layer(2));
    c.ui_button = Some(UiButton::new(40, 20, 0, "ok".to_string()).with_background(bg));
    let b = data.push(c);
    set_childs_on_buttons(&mut data);
    assert_eq!(2, data.entities.len());
    let child = &data.entities[1];
    assert_eq!(Some(b), child.components.parent);
    assert_eq!("ok", child.components.ui_text.as_ref().unwrap().text);
    assert_eq!(40, child.components.ui_image.unwrap().width);
    assert!(matches!(&child.components.material, Some(Material::Texture(p)) if p == "bg.png"));
    let child_id = child.id;
    change_button_material(&mut data, &vec![(b, hover, vec![child_id])]);
    let child = &data.entities[1];
    assert_eq!(Some(hover), child.components.material_ref);
    assert!(matches!(&child.components.material, Some(Material::Texture(p)) if p == "hover.png"));
}

#[test]
fn prepared_resources_pace_hot_reloading() {
    let r = prepare_resources(Window { width: 640, height: 480 }, true);
    assert_eq!(1, r.timers.timers.len());
    assert_eq!("hot-reload-timer", r.timers.timers[0].name);
    assert_eq!(TimerType::Cyclic, r.timers.timers[0].timer_type);
    assert_eq!(5_000_000_000, r.timers.timers[0].duration_nanos);
    assert_eq!(640, r.window.width);
    let mut data = GameData::new(r);
    assert!(!should_try_to_hot_reload(&data, true));
    data.resources.timers.timers[0].cycle = 1;
    assert!(should_try_to_hot_reload(&data, true));

    let r = prepare_resources(Window { width: 640, height: 480 }, false);
    assert!(r.timers.timers.is_empty());
    assert!(r.assets.materials.is_empty());
    assert!(r.focus_manager.current.is_none());
}

#[test]
fn frame_texture_updates_follow_the_materials() {
    let mut data = world();
    let red = Color { r: 255, g: 0, b: 0, alpha_bits: 0x3f80_0000 };
    for _ in 0..2 {
        let mut c = Components::empty();
        c.material = Some(Material::Diffuse(red));
        data.push(c);
    }
    let mut c = Components::empty();
    c.material = Some(Material::Texture("a.png".to_string()));
    data.push(c);
    let mut c = Components::empty();
    c.material = Some(Material::Tileset("tiles.png".to_string()));
    data.push(c);
    data.push(Components::empty());
    let blue = Color { r: 0, g: 0, b: 255, alpha_bits: 0x3f80_0000 };
    let mut c = Components::empty();
    c.material = Some(Material::Color(blue));
    data.push(c);
    let mut c = Components::empty();
    c.material = Some(Material::Color(red));
    data.push(c);
    let mut r = ScionRenderer2D::new();
    let read = |p: &String| if p == "a.png" { Ok(5) } else { Err(FileReaderError::Unreadable) };
    let name = |c: &Color| format!("color-{}-{}-{}", c.r, c.g, c.b);
    let updates = texture_updates(&mut r, &data, false, read, name, || 100);
    assert_eq!(
        vec![
            TextureUpdate::Color { path: "color-255-0-0".to_string(), color: red },
            TextureUpdate::Texture { path: "a.png".to_string() },
            TextureUpdate::Tileset { path: "tiles.png".to_string() },
            TextureUpdate::Color { path: "color-0-0-255".to_string(), color: blue },
        ],
        updates
    );
    assert!(!r.should_reload_texture("a.png", &Some(Ok(5))));
    assert!(r.should_reload_texture("a.png", &Some(Ok(6))));
    assert!(!r.should_reload_texture("tiles.png", &Some(Ok(100))));
    // Nothing changed: nothing to load again, even when the files are read.
    data.resources.timers.add_timer("hot-reload-timer", TimerType::Cyclic, 5_000_000_000);
    data.resources.timers.timers[0].cycle = 1;
    let updates = texture_updates(&mut r, &data, true, read, name, || 200);
    assert!(updates.is_empty());
    // A file modified since: loaded again when hot reloading is due, not before.
    let read = |p: &String| if p == "a.png" { Ok(9) } else { Err(FileReaderError::Unreadable) };
    data.resources.timers.timers[0].cycle = 0;
    assert!(texture_updates(&mut r, &data, true, read, name, || 300).is_empty());
    data.resources.timers.timers[0].cycle = 1;
    assert_eq!(vec![TextureUpdate::Texture { path: "a.png".to_string() }], texture_updates(&mut r, &data, true, read, name, || 300));
}

#[test]
fn every_sound_played_gives_one_sample_per_frame() {
    let mut a: AudioController<u8, u8> = AudioController::new();
    let mut lengths = HashMap::new();
    lengths.insert(1, 3);
    lengths.insert(2, 1);
    a.handle_events(Some(AudioEvent::SystemReady));
    a.handle_events(Some(AudioEvent::PlaySound { sound_id: 1, config: 0 }));
    a.handle_events(Some(AudioEvent::PlaySound { sound_id: 2, config: 0 }));
    a.handle_events(Some(AudioEvent::PlaySound { sound_id: 4, config: 0 }));
    let mut first = a.next_frame_samples(&lengths);
    first.sort();
    assert_eq!(vec![(1, 0), (2, 0)], first);
    assert!(a.currently_played_sounds.contains_key(&4));
    assert!(!a.currently_played_sounds.contains_key(&2));
    assert_eq!(vec![(1, 1)], a.next_frame_samples(&lengths));
    assert_eq!(vec![(1, 2)], a.next_frame_samples(&lengths));
    assert!(a.next_frame_samples(&lengths).is_empty());
    assert!(!a.currently_played_sounds.contains_key(&1));
    assert_eq!(0, a.currently_played_sounds[&4].sample_cursor);
}
