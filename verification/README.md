# Frame Engine

A deterministic, fixed-timestep simulation engine whose core is written in
Verus: the functions in `src/` carry `requires`/`ensures` contracts that the
verifier proves, and the properties the engine promises as a whole stand
there as public proof functions named `law_*`. A few small wrappers, marked
`#[verifier::external_body]`, call the standard library or the script
parser; their contracts are trusted, not proved, and each says in its doc
comment what it claims.

## Layout

- `src/` — the verified library.
  - `clock` — the fixed-timestep clock with its catch-up cap.
  - `storage` — `ComponentStorage<T>`, per-component slots indexed by entity id.
  - `world`, `systems`, `physics` — marker components, and the decisions the
    systems make: which entities a system visits, which bodies the physics
    backend creates or removes.
  - `input`, `controls` — held buttons, and what the editor does with a key
    press or a mouse button.
  - `net` — length-prefixed framing of a TCP byte stream, and the input
    message a client uploads.
  - `obj` — the Wavefront OBJ reader: numbers, face corners, fan
    triangulation, index resolution.
  - `font` — the bitmap font and text drawing into a pixel buffer.
  - `script`, `editor`, `text` — the script vocabulary and warnings, the
    script editor's status line and gutter, the recent-projects list, the
    output log, scene picking, and the text helpers they share.
- `app/` — the engine binary: the floating-point components and systems,
  scenes through `serde`/RON, TCP sockets, the rapier3d physics world, and
  the Rhai script runtime, all calling into the library for their decisions.
- `tests/` — tests run against the compiled library.
