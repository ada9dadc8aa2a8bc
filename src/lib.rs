//! Core of a small frame-stepped game engine: typed handles, keyframe
//! animation, padded tile maps with auto-tiling, a load-once resource cache,
//! sprite maps, and a dense entity-component store with swap-and-relink
//! removal, double-buffered between frames.

pub mod types;
pub mod math;
pub mod slices;
pub mod animation;
pub mod tile_map;
pub mod autotile;
pub mod manager;
pub mod sprite_map;
pub mod aseprite;
pub mod export;
pub mod components;
pub mod ecs;
pub mod world;
pub mod navigation;
pub mod draw;
pub mod spawnables;
pub mod game;
