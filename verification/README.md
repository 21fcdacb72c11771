# macroquad (verified core)

The logic of the macroquad game library, written in Verus with contracts that
Verus proves: the sprite and glyph atlas with its packing and regrowth, the
shader preprocessor, draw-call batching, uniform blocks, JPEG/PNG decoding
around the zune and image decoders, the generational and slot storages, the
executor and coroutine bookkeeping, the profiler, camera and skin stacks, the
UI tab focus, touches, gizmo lines, animations and state machines.

- `src/` is the verified library. Calls into outside crates go through a few
  trusted wrappers whose contracts say what the crates' sources show.
- `tests/` runs the library on concrete values.
- `app/` is the ordinary Rust around it: global contexts, futures and wakers,
  file I/O, floating-point colors and measurements, and the font rasterizer.
