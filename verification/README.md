# scion

The game-logic core of a small 2D engine, written in Verus: the entities and
their components, the resources of a game (inputs, timers, assets, focus,
flags), and the systems that run on them at each frame. Every function of the
library carries a contract that Verus proves.

- `src/` — the library. `world.rs` holds the game data; `components.rs`,
  `ui.rs`, `font.rs`, `animations.rs`, `time.rs`, `inputs.rs`, `sound.rs` and
  `renderer.rs` hold the components and resources; `systems/` holds the
  systems, one file per concern. Public proof functions named `law_*` state
  properties that relate several calls.
- `tests/` — tests run against the compiled library.
- `app/` — what stands around the library: the events of the window, the
  floating-point coordinates, shapes and colors, the textures to load from
  disk, and the mixing of the audio.

Floating-point values are not held by the library: a color keeps the bit
pattern of its alpha, and the systems hand the renderer, as plain values, the
work to do on coordinates (plans of updates, animation effects), or take from
it what coordinates decide (the buttons under the mouse, the colliders whose
shapes meet).
