//! Scion: the game-logic core of a small 2D engine, with its systems,
//! components and bookkeeping verified.
pub mod components;
pub mod font;
pub mod inputs;
pub mod ui;
pub mod world;
pub mod systems;
pub mod time;
pub mod animations;
pub mod sound;
pub mod renderer;
pub mod windowing;
pub mod text;
