//! Map loading and vertex-buffer packing for a small 3D engine.

pub mod brush;
pub mod gl_wrappers;
pub mod imgui_wrappers;
pub mod map;
pub mod render;
pub mod render_vec;
pub mod vector3;
pub mod vertex;
