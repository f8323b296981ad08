//! A vector of three floats in the form in which it goes into a buffer.

use vstd::prelude::*;
use crate::render_vec::{layout_size, DynamicGlLayout, GlType, GlTypeList, StaticGlLayout};

verus! {

/// The bytes of three 32-bit floats, in memory order.
#[derive(Clone, Copy, Debug)]
pub struct PackedVec3(pub [u8; 12]);

/// The layout of three floats.
pub open spec fn three_floats() -> Seq<GlType> {
    seq![GlType::Float, GlType::Float, GlType::Float]
}

/// Three floats take up twelve bytes.
pub proof fn lemma_three_floats_size()
    ensures
        layout_size(three_floats()) == 12,
{
    let layout = three_floats();
    assert(layout.drop_last() =~= seq![GlType::Float, GlType::Float]);
    assert(layout.drop_last().drop_last() =~= seq![GlType::Float]);
    assert(layout.drop_last().drop_last().drop_last() =~= Seq::<GlType>::empty());
    reveal_with_fuel(layout_size, 4);
}

impl StaticGlLayout<3> for PackedVec3 {
    fn gl_type_layout() -> (list: GlTypeList<3>)
        ensures
            list.0@ == three_floats(),
    {
        let list = GlTypeList::new([GlType::Float, GlType::Float, GlType::Float]);
        assert(list.0@ =~= three_floats());
        list
    }

    fn as_gl_bytes(&self) -> (bytes: &[u8])
        ensures
            bytes@ == self.0@,
            bytes@.len() == layout_size(three_floats()),
    {
        proof {
            lemma_three_floats_size();
        }
        self.0.as_slice()
    }
}

impl DynamicGlLayout for PackedVec3 {
    fn dyn_gl_type_layout(&self) -> (layout: Vec<GlType>)
        ensures
            layout@ == three_floats(),
    {
        let mut layout: Vec<GlType> = Vec::new();
        layout.push(GlType::Float);
        layout.push(GlType::Float);
        layout.push(GlType::Float);
        assert(layout@ =~= three_floats());
        layout
    }

    fn dyn_gl_bytes(&self) -> (bytes: Vec<u8>)
        ensures
            bytes@ == self.0@,
            bytes@.len() == layout_size(three_floats()),
    {
        proof {
            lemma_three_floats_size();
        }
        vstd::slice::slice_to_vec(self.0.as_slice())
    }
}

} // verus!
