//! The kinds of shader.

use vstd::prelude::*;

verus! {

/// The stage of the pipeline that a shader runs in.
#[derive(Clone, Copy, Debug, PartialEq, Eq, Structural)]
pub enum ShaderType {
    /// A fragment shader.
    Fragment,
    /// A geometry shader.
    Geometry,
    /// A vertex shader.
    Vertex,
}

} // verus!
