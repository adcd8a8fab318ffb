# vitric core

The deterministic core of a glass-box 2D game engine, written in Verus. Every function in
`src/` carries a contract. All of them are proved against their contracts except a few small
trusted wrappers around outside code: PNG decoding and encoding (`png`), font parsing
(`ab_glyph`), the 8x8 glyph table (`font8x8`), and std's `{:?}` quoting and `String::push`.
Those wrappers' contracts are assumed, not proved.

- `pcg` — the PCG32 main stream and the named substreams.
- `recording`, `sim` — the tick clock, input/reply/host-event queues, recording and
  checkpoints, replay checks, snapshot and restore of the simulator state.
- `rules`, `rule_file`, `engine` — rule files (parsed and validated, every problem reported),
  which rules an event or a tick fires, the cascade guard, JSON equality, references, templates.
- `script` — the script boundary: error codes and hints, limits and the instruction budget,
  exception classification, the system registry, the random-stream handoff, float revival,
  and the operation stream a script returns.
- `tween`, `ui` — easing and UI vocabularies, tween conflict resolution and phases.
- `assets`, `render`, `font` — PNG decoding into the asset store, normal-map pairing, hot
  reload, colours, the bitmap font, PNG encoding, mounting the vector font.
- `json`, `text` — the JSON value model and the text helpers the messages are built from.

The engine's entity world (the `vitric_ecs` store and the `vitric_data` schemas) is not part
of this crate, and this crate does not depend on it. The code that reads or writes that world
stands nowhere here: rendering, lighting and shadows, particle and UI layout, world
descriptions, running rule actions and scripts against entities, and the built-in physics
systems. Its world-independent decisions are in `src/`: frame-size and scene-count limits, rule
scheduling and action decoding, the script batch check, tween phases and conflicts, and snapshot
restore.

`app/` is the host side in ordinary Rust: disk and font I/O, the embedded interpreter, serde
forms of saved data, and the floating-point formulas.

The tests under `tests/` run the library with its outside crates linked.
