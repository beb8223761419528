# oxide_engine_core

The logic of the Oxide game engine that can be stated and proved with Verus:

- `layers`, `collision_layer`, `broadphase`: render layer masks, collision
  group/mask filtering, the spatial hash's integer cells (which proxies share
  a cell and are tested against each other), which collider proxies form
  candidate pairs, and the spatial hash statistics.
- `physics`, `world_ids`, `events`, `assoc`: body/collider ids and their
  counters, which bodies and colliders a world holds (removing a body removes
  its colliders), contact ids, manifold keys, warm-start matching, orphan
  pruning, and the collision events (started, persisted, ended) generated from
  each step's manifolds.
- `mesh`, `pixels`, `gltf_import`: index buffers of the builtin primitives,
  glTF pixel conversion to RGBA, packed metallic-roughness maps and the order
  of extracted textures, and the external files a glTF document depends on.
- `material`, `scene`, `batching`, `sprite`, `sprite_sync`, `surface`: shader
  and material descriptors, scene descriptor headers, instance batching and
  frame statistics, sprite images and assets, sprite texture updates, and the
  presentation surface rules.
- `fonts`, `atlas`, `glyph_cache`, `chars`, `ui`: font registry and the
  builtin bitmap font, the shelf-packed text atlas and its glyph cache, text
  helpers, and the runtime UI model.

Collections: vstd models `HashMap` and `HashSet` only for keys of primitive
integer types, and `BTreeMap` only for keys ordered as integers, tuples and
options of them (not text). The world's ids (`world_ids`) are integers and are
kept in a `HashSet` and a `HashMap` as such. The registries keyed by text
(sprites, fonts, glyph cache, clicked buttons) and by batch keys (which carry
text) are kept as vectors of entries with an invariant that no key occurs
twice, read as maps in their contracts. The active collisions and the
candidate pairs are kept the same way so that their contracts can state an
order: end events and candidate pairs come in the order in which the pairs
were first recorded.

Every function in `src/` is verified; outside crates are reached only through
the few trusted items declared next to their callers (`fonts`, `gltf_import`).

`app/` holds what the library leaves to its caller: descriptor files (serde,
JSON, RON, TOML), glTF image and animation import, font files and glyph
rasterization (floating point), shader files, and the egui front ends.
`tests/` exercises the library from outside.
