//! Spatial queries and collision for a small 2D game engine: integer vectors,
//! oriented rectangles with an exact separating-axis overlap test, line
//! segment intersection, an entity registry with camera culling, and a
//! raycaster that finds the nearest edge hit.

pub mod camera;
pub mod engine;
pub mod input;
pub mod line_seg;
pub mod matrix;
pub mod object_manager;
pub mod raycast;
pub mod transform;
pub mod vec2i;
