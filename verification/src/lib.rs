pub mod collections;
mod chars;
pub mod compat;
pub mod experimental;
pub mod hexadecimal;
pub mod image;
pub mod input;
pub mod texture;
pub mod telemetry;
pub mod exec;
pub mod file;
pub mod gizmos;
pub mod camera;
pub mod ui;
pub mod coroutines;
pub mod text;
pub mod material;
pub mod quad_gl;
pub mod racey_cell;
pub mod scene;
pub mod scene_graph;
pub mod sprite_layer;
