//! The planes that bound a brush, as the renderer takes them.

use vstd::prelude::*;
use crate::vertex::{Vertex, VertexView};

verus! {

/// The vertices of a list as mathematical values, in order.
pub open spec fn vertices_view(vertices: Seq<Vertex>) -> Seq<VertexView> {
    vertices.map_values(|v: Vertex| v@)
}

/// A plane with exactly three vertices.
#[derive(Clone, Debug)]
pub struct TriPlane(pub [Vertex; 3]);

/// A plane with four or more vertices, which must be planar and convex.
#[derive(Clone, Debug)]
pub struct NGonPlane(pub Vec<Vertex>);

/// A plane on a brush.
#[derive(Clone, Debug)]
pub enum BrushPlane {
    /// A plane with 3 vertices.
    Triangle(TriPlane),
    /// A plane with 4+ vertices.
    /// Plane must be convex.
    NGon(NGonPlane),
}

impl View for BrushPlane {
    type V = Seq<VertexView>;

    open spec fn view(&self) -> Seq<VertexView> {
        match *self {
            BrushPlane::Triangle(plane) => vertices_view(plane.0@),
            BrushPlane::NGon(plane) => vertices_view(plane.0@),
        }
    }
}

impl BrushPlane {
    /// The number of vertices of the plane.
    pub fn len(&self) -> (n: usize)
        ensures
            n == self@.len(),
    {
        match self {
            BrushPlane::Triangle(_) => 3,
            BrushPlane::NGon(plane) => plane.0.len(),
        }
    }

    /// The vertex at the given position of the plane's loop.
    pub fn index(&self, index: usize) -> (vertex: &Vertex)
        requires
            index < self@.len(),
        ensures
            vertex@ == self@[index as int],
    {
        match self {
            BrushPlane::Triangle(plane) => &plane.0[index],
            BrushPlane::NGon(plane) => &plane.0[index],
        }
    }
}

/// A Brush-like object that has renderable planes.
pub trait Brush {
    /// The planes that bound the solid.
    fn planes(&self) -> &[BrushPlane];
}

/// A 3-pointed prism in the world representing static geometry
/// (walls, floor, etc.): seen top-down, a triangle.
#[derive(Clone, Debug)]
pub struct Brush3(pub [BrushPlane; 5]);

impl Brush for Brush3 {
    fn planes(&self) -> (planes: &[BrushPlane])
        ensures
            planes@ == self.0@,
    {
        self.0.as_slice()
    }
}

/// A 4-pointed prism in the world representing static geometry
/// (walls, floor, etc.): seen top-down, a square.
#[derive(Clone, Debug)]
pub struct Brush4(pub [BrushPlane; 6]);

impl Brush for Brush4 {
    fn planes(&self) -> (planes: &[BrushPlane])
        ensures
            planes@ == self.0@,
    {
        self.0.as_slice()
    }
}

} // verus!
