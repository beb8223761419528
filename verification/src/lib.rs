//! Verified core logic of the Oxide game engine: render layers and collision
//! filtering, collision events and broadphase rules, mesh index generation,
//! glTF pixel conversion and dependency resolution, sprite assets, material
//! and shader selection, instance batching, the text atlas and fonts, and
//! runtime UI state.

pub mod layers;
pub mod collision_layer;
pub mod physics;
pub mod assoc;
pub mod events;
pub mod mesh;
pub mod pixels;
pub mod sprite;
pub mod chars;
pub mod material;
pub mod scene;
pub mod fonts;
pub mod ui;
pub mod atlas;
pub mod batching;
pub mod gltf_import;
pub mod broadphase;
pub mod surface;
pub mod glyph_cache;
pub mod sprite_sync;
pub mod world_ids;
