//! Core of a real-time 2D sprite compositor.
//!
//! The crate contains the verified logic of the engine: the pixel-space to
//! normalized-device-coordinate transform that places each sprite's quad,
//! the resource cache that maps stable handles to GPU-resident textures with
//! lazy loading and miss tracking, the keyboard action map that derives
//! edge-triggered action states from raw per-frame key signals, and the
//! per-frame render pass that turns an entity set into an ordered list of
//! draw calls.
//!
//! Window and surface management, GPU command submission and image decoding
//! are collaborators outside this crate: the renderer here produces a frame
//! plan of plain values that a backend executes, and the cache hands out the
//! handles whose loads a backend must complete.

pub mod cache;
pub mod input_map;
pub mod keyboard;
pub mod renderer;
pub mod sprite;
pub mod transform;
