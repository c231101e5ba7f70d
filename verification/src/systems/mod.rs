//! The systems: functions run on the game data at each frame.
pub mod focus;
pub mod hide_propagation;
pub mod hierarchy;
pub mod animation;
pub mod transform;
pub mod collider;
pub mod ui_input;
pub mod ui_components;
pub mod camera;
pub mod assets;
pub mod hover;
pub mod ui_text;
pub mod moves;
pub mod package;
