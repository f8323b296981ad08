//! The planes that are handed to the renderer.

use vstd::prelude::*;
use crate::brush::{BrushPlane, NGonPlane, TriPlane};
use crate::vertex::{digits_len, Number, Vertex, VertexView};

verus! {

/// The planes of a list as mathematical values, in order.
pub open spec fn mesh_view(planes: Seq<BrushPlane>) -> Seq<Seq<VertexView>> {
    planes.map_values(|p: BrushPlane| p@)
}

/// A corner of the simple triangle: half a unit from the origin along
/// the first two axes, on the side that the signs give.
pub open spec fn simple_corner(x_sign: u8, y_sign: u8) -> VertexView {
    VertexView {
        x: seq![x_sign, 0x30u8, 0x2eu8, 0x35u8],
        y: seq![y_sign, 0x30u8, 0x2eu8, 0x35u8],
        z: seq![0x2bu8, 0x30u8, 0x2eu8, 0x30u8],
    }
}

/// The numeral with the given sign, digit before the point and digit after it.
fn short_numeral(sign: u8, whole: u8, fraction: u8) -> (number: Number)
    requires
        sign == 0x2b || sign == 0x2d,
        0x30 <= whole <= 0x39,
        0x30 <= fraction <= 0x39,
    ensures
        number@ == seq![sign, whole, 0x2eu8, fraction],
{
    let text: [u8; 4] = [sign, whole, 0x2e, fraction];
    proof {
        reveal_with_fuel(digits_len, 3);
        assert(text@ =~= seq![sign, whole, 0x2eu8, fraction]);
    }
    match Number::parse(text.as_slice()) {
        Some(number) => number,
        None => vstd::pervasive::unreached(),
    }
}

/// A corner of the simple triangle.
fn corner(x_sign: u8, y_sign: u8) -> (vertex: Vertex)
    requires
        x_sign == 0x2b || x_sign == 0x2d,
        y_sign == 0x2b || y_sign == 0x2d,
    ensures
        vertex@ == simple_corner(x_sign, y_sign),
{
    Vertex {
        x: short_numeral(x_sign, 0x30, 0x35),
        y: short_numeral(y_sign, 0x30, 0x35),
        z: short_numeral(0x2b, 0x30, 0x30),
    }
}

/// The actual planes rendered to the screen.
#[derive(Debug)]
pub struct ScreenSpaceMesh {
    /// Internal vector of planes to be rendered.
    planes: Vec<BrushPlane>,
}

impl View for ScreenSpaceMesh {
    type V = Seq<Seq<VertexView>>;

    closed spec fn view(&self) -> Seq<Seq<VertexView>> {
        mesh_view(self.planes@)
    }
}

impl ScreenSpaceMesh {
    /// Create a new mesh.
    pub fn new() -> (mesh: Self)
        ensures
            mesh@ == Seq::<Seq<VertexView>>::empty(),
    {
        let mesh = Self { planes: Vec::new() };
        assert(mesh@ =~= Seq::<Seq<VertexView>>::empty());
        mesh
    }

    /// Add a triangle to the internal vector.
    pub fn add_tri(&mut self, tri: TriPlane)
        ensures
            final(self)@ == old(self)@.push(BrushPlane::Triangle(tri)@),
    {
        self.planes.push(BrushPlane::Triangle(tri));
        assert(self@ =~= old(self)@.push(BrushPlane::Triangle(tri)@));
    }

    /// Add an N-gon to the internal vector.
    pub fn add_ngon(&mut self, ngon: NGonPlane)
        ensures
            final(self)@ == old(self)@.push(BrushPlane::NGon(ngon)@),
    {
        self.planes.push(BrushPlane::NGon(ngon));
        assert(self@ =~= old(self)@.push(BrushPlane::NGon(ngon)@));
    }

    /// Clears the internal vector, removing all polys.
    pub fn clear(&mut self)
        ensures
            final(self)@ == Seq::<Seq<VertexView>>::empty(),
    {
        self.planes.clear();
        assert(self@ =~= Seq::<Seq<VertexView>>::empty());
    }

    /// Create a mesh with one triangle: its corners are at (-0.5, -0.5, 0),
    /// (0.5, -0.5, 0) and (-0.5, 0.5, 0).
    pub fn simple() -> (mesh: Self)
        ensures
            mesh@.len() == 1,
            mesh@[0].len() == 3,
            mesh@[0][0] == simple_corner(0x2d, 0x2d),
            mesh@[0][1] == simple_corner(0x2b, 0x2d),
            mesh@[0][2] == simple_corner(0x2d, 0x2b),
    {
        let mut ret = Self::new();
        // Left, right, up
        let tri = TriPlane([corner(0x2d, 0x2d), corner(0x2b, 0x2d), corner(0x2d, 0x2b)]);
        ret.add_tri(tri);
        ret
    }

    /// The planes of the mesh, in the order in which they were added.
    pub fn planes(&self) -> (planes: &Vec<BrushPlane>)
        ensures
            mesh_view(planes@) == self@,
    {
        &self.planes
    }
}

} // verus!
