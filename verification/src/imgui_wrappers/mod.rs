//! What the debug UI renderer decides before it calls OpenGL.

pub mod renderer;
