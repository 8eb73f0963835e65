# kinematic

The verified core of a kinematic animation engine: the deterministic random
generator, mesh topology of the built-in solids and of extruded text,
text-morph matching, the scene tree's attachment rules, drawing order,
shader binding names and canvas settings. Every function in `src/` carries a contract that Verus proves.

- `src/` — the library, written in Verus.
- `tests/` — ordinary Rust tests run against the compiled library.
- `app/` — the parts that stay outside verification: floating-point
  geometry and random draws, file-system font lookup, process-wide shader
  identifiers, and error types with `Display`.

Grapheme segmentation comes from `unicode-segmentation`; the library states
what it relies on from that crate in the doc comment of its one wrapper.
