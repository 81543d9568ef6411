# tiefring

A small 2D rendering library and the games built on it — a turn-based
roguelike, a snake game and a falling-stars particle demo — with their logic
written in Verus and proved against its contracts.

## Layout

- `src/` — the verified library.
  - `rogue/` — the roguelike: the dungeon map and its generation from a fixed
    seed, wall-sprite selection, the per-entity rules (moving, attacking,
    health, vision, blocking), the turn state machine, the camera and what
    it draws in which order, and the grid that monsters search for a path
    on.
  - `snake.rs` — the snake, its food, the scenes of the game.
  - `timing.rs` — fixed-step timing, frame counting, averaging over a window.
  - `graphics.rs` — sizes, texture read-back rows, image decoding, the index
    buffer of rectangles, tile-set indexing, texture reference counting,
    draw-call batching.
  - `glyphs.rs` — the glyph atlas of a font at one pixel size.
  - `buffers.rs` — the cache of GPU buffers kept for reuse.
  - `particles.rs` — the particle demo's shared clock and particle lifetimes.
  - `random.rs` — random draws.
- `tests/` — tests of the library on concrete values.
- `app/` — the programs: windows and input (winit), the GPU canvas (wgpu,
  fontdue, image), the entity-component worlds (bevy_ecs), path finding and
  field of view (torchbearer). `app/main.rs` runs `rogue` (the default),
  `snake`, `particles` or `sample`, as its first argument says.
