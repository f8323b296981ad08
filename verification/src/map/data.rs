//! What a map file holds once it is parsed.

use vstd::prelude::*;
use crate::brush::{vertices_view, BrushPlane, NGonPlane, TriPlane};
use crate::vertex::{Vertex, VertexView};

verus! {

/// One bounding face of a brush: an ordered loop of vertices.
///
/// It is guaranteed that all `PlaneData`s have 3+ vertices.
#[derive(Debug, PartialEq, Eq)]
pub struct PlaneData {
    verts: Vec<Vertex>,
}

impl View for PlaneData {
    type V = Seq<VertexView>;

    closed spec fn view(&self) -> Seq<VertexView> {
        vertices_view(self.verts@)
    }
}

impl PlaneData {
    #[verifier::type_invariant]
    spec fn well_formed(self) -> bool {
        self.verts@.len() >= 3
    }

    /// Closes a plane over the given vertices; a plane has three or more.
    pub fn new(verts: Vec<Vertex>) -> (plane: Option<PlaneData>)
        ensures
            plane is Some <==> verts@.len() >= 3,
            plane matches Some(p) ==> p@ == vertices_view(verts@),
    {
        if verts.len() >= 3 {
            Some(PlaneData { verts })
        } else {
            None
        }
    }

    /// The vertices of the plane, in order.
    pub fn verts(&self) -> (verts: &Vec<Vertex>)
        ensures
            vertices_view(verts@) == self@,
            verts@.len() >= 3,
    {
        proof {
            use_type_invariant(self);
        }
        &self.verts
    }

    /// The number of vertices of the plane, which is at least three.
    pub fn len(&self) -> (n: usize)
        ensures
            n == self@.len(),
            n >= 3,
    {
        proof {
            use_type_invariant(self);
        }
        self.verts.len()
    }

    /// Whether the plane is a triangle; otherwise it is an N-gon.
    pub fn is_triangle(&self) -> (triangle: bool)
        ensures
            triangle == (self@.len() == 3),
    {
        self.verts.len() == 3
    }

    /// The plane tagged by its shape: a triangle for exactly three vertices,
    /// an N-gon for four or more.
    pub fn into_brush_plane(self) -> (plane: BrushPlane)
        ensures
            plane@ == self@,
            plane is Triangle <==> self@.len() == 3,
    {
        proof {
            use_type_invariant(&self);
        }
        let mut verts = self.verts;
        if verts.len() == 3 {
            let ghost before = verts@;
            let c = verts.pop().unwrap();
            let b = verts.pop().unwrap();
            let a = verts.pop().unwrap();
            let tri = TriPlane([a, b, c]);
            assert(vertices_view(tri.0@) =~= vertices_view(before));
            BrushPlane::Triangle(tri)
        } else {
            BrushPlane::NGon(NGonPlane(verts))
        }
    }
}

/// A convex solid: the ordered planes that bound it.
#[derive(Debug, PartialEq, Eq)]
pub struct BrushData {
    pub planes: Vec<PlaneData>,
}

/// The planes of a list as mathematical values, in order.
pub open spec fn planes_view(planes: Seq<PlaneData>) -> Seq<Seq<VertexView>> {
    planes.map_values(|p: PlaneData| p@)
}

impl View for BrushData {
    type V = Seq<Seq<VertexView>>;

    open spec fn view(&self) -> Seq<Seq<VertexView>> {
        planes_view(self.planes@)
    }
}

/// The brushes of a list as mathematical values, in order.
pub open spec fn brushes_view(brushes: Seq<BrushData>) -> Seq<Seq<Seq<VertexView>>> {
    brushes.map_values(|b: BrushData| b@)
}

/// A placeholder for point data (spawn points, lights): the format defines
/// nothing to read into it yet.
#[derive(Clone, Copy, Debug, PartialEq, Eq, Structural)]
pub struct EntityData;

/// A parsed map: its entities and its brushes, each in file order.
#[derive(Debug, PartialEq, Eq)]
pub struct MapData {
    entities: Vec<EntityData>,
    brushes: Vec<BrushData>,
}

/// A parsed map as a mathematical value.
pub struct MapView {
    /// The brushes; each is a list of planes, each plane a list of vertices.
    pub brushes: Seq<Seq<Seq<VertexView>>>,
    /// The entities.
    pub entities: Seq<EntityData>,
}

/// Whether a plane has three or more vertices, all with numerals for coordinates.
pub open spec fn plane_well_formed(plane: Seq<VertexView>) -> bool {
    plane.len() >= 3 && forall|v: int| 0 <= v < plane.len() ==> (#[trigger] plane[v]).well_formed()
}

/// Whether a brush has one or more planes, all well-formed.
pub open spec fn brush_well_formed(brush: Seq<Seq<VertexView>>) -> bool {
    brush.len() >= 1 && forall|p: int|
        0 <= p < brush.len() ==> plane_well_formed(#[trigger] brush[p])
}

/// Whether all the brushes are well-formed.
pub open spec fn brushes_well_formed(brushes: Seq<Seq<Seq<VertexView>>>) -> bool {
    forall|b: int| 0 <= b < brushes.len() ==> brush_well_formed(#[trigger] brushes[b])
}

impl MapView {
    /// Whether every brush of the map has a plane, every plane three or
    /// more vertices, and every vertex numerals for coordinates.
    pub open spec fn well_formed(self) -> bool {
        brushes_well_formed(self.brushes)
    }
}

impl View for MapData {
    type V = MapView;

    closed spec fn view(&self) -> MapView {
        MapView { brushes: brushes_view(self.brushes@), entities: self.entities@ }
    }
}

impl MapData {
    /// A map of the given entities and brushes.
    pub fn new(entities: Vec<EntityData>, brushes: Vec<BrushData>) -> (map: Self)
        ensures
            map@ == (MapView { brushes: brushes_view(brushes@), entities: entities@ }),
    {
        Self { entities, brushes }
    }

    /// The entities of the map, in file order.
    pub fn entities(&self) -> (entities: &Vec<EntityData>)
        ensures
            entities@ == self@.entities,
    {
        &self.entities
    }

    /// The brushes of the map, in file order.
    pub fn brushes(&self) -> (brushes: &Vec<BrushData>)
        ensures
            brushes_view(brushes@) == self@.brushes,
    {
        &self.brushes
    }
}

} // verus!
