//! A retained-mode 2D scene engine: generational handles, an object
//! registry, font and shader caches, and a frame planner that orders and
//! batches draw work.
pub mod arena;
pub mod engine;
pub mod font;
pub mod render;
pub mod scene;
pub mod shader;
