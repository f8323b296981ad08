//! What the OpenGL wrappers decide before they call OpenGL.

pub mod shader;
