//! Byte-packed vertex buffers, laid out as a list of GL scalar types says.

use std::marker::PhantomData;
use vstd::prelude::*;

verus! {

/// A scalar type that a vertex attribute can be made of.
#[derive(Clone, Copy, Debug, PartialEq, Eq, Structural)]
pub enum GlType {
    /// A 32-bit float.
    Float,
    /// A 64-bit float.
    Double,
}

impl GlType {
    /// The width of the type in bytes.
    pub open spec fn size(self) -> nat {
        match self {
            GlType::Float => 4,
            GlType::Double => 8,
        }
    }

    /// The number of bytes that one value of this type takes up in a buffer.
    pub fn get_size(&self) -> (n: usize)
        ensures
            n == self.size(),
    {
        match *self {
            GlType::Double => 8,
            GlType::Float => 4,
        }
    }
}

/// The number of bytes that one element of the given layout takes up.
pub open spec fn layout_size(layout: Seq<GlType>) -> nat
    decreases layout.len(),
{
    if layout.len() == 0 {
        0
    } else {
        layout_size(layout.drop_last()) + layout.last().size()
    }
}

/// A layout takes up no fewer bytes than any of its beginnings, and
/// eight bytes for each type at most.
pub proof fn lemma_layout_size_grows(layout: Seq<GlType>, k: int)
    requires
        0 <= k <= layout.len(),
    ensures
        layout_size(layout.take(k)) <= layout_size(layout) <= 8 * layout.len(),
    decreases layout.len(),
{
    if k < layout.len() {
        lemma_layout_size_grows(layout.drop_last(), k);
        assert(layout.drop_last().take(k) =~= layout.take(k));
    } else {
        assert(layout.take(k) =~= layout);
        if layout.len() > 0 {
            lemma_layout_size_grows(layout.drop_last(), k - 1);
        }
    }
}

/// A list of GL types whose length is known at compile time.
#[derive(Clone, Copy)]
pub struct GlTypeList<const LEN: usize>(pub [GlType; LEN]);

impl<const LEN: usize> GlTypeList<LEN> {
    /// Wraps the list.
    pub fn new(list: [GlType; LEN]) -> (wrapped: Self)
        ensures
            wrapped.0 == list,
    {
        Self(list)
    }
}

impl<const LEN: usize> std::ops::Deref for GlTypeList<LEN> {
    type Target = [GlType; LEN];

    fn deref(&self) -> (list: &[GlType; LEN])
        ensures
            *list == self.0,
    {
        &self.0
    }
}

/// A type whose values go into a GL buffer, with a layout that is known
/// at compile time.
///
/// An implementation has to make `as_gl_bytes` and `gl_type_layout` match
/// each other in terms of byte layout: if `gl_type_layout()` returns
/// Float, Float, Float, then `as_gl_bytes` must return the bytes of three
/// 32-bit floats. Nothing here depends on it: a [`RenderVec`] takes the
/// bytes as they come.
pub trait StaticGlLayout<const LEN: usize>: Sized {
    /// Returns the GL types that the bytes returned from calling
    /// `as_gl_bytes` on a value will map to.
    fn gl_type_layout() -> GlTypeList<LEN>;

    /// Returns the bytes of the value for use in OpenGL rendering.
    fn as_gl_bytes(&self) -> &[u8];
}

/// A type whose values go into a GL buffer, with a layout that each
/// value tells of itself.
///
/// An implementation has to make `dyn_gl_bytes` and `dyn_gl_type_layout`
/// match each other in terms of byte layout.
pub trait DynamicGlLayout {
    /// Returns the GL types that the bytes returned from calling
    /// `dyn_gl_bytes` on this value will map to.
    fn dyn_gl_type_layout(&self) -> Vec<GlType>;

    /// Returns the bytes of the value for use in OpenGL rendering.
    fn dyn_gl_bytes(&self) -> Vec<u8>;
}

/// A type whose values go into a GL buffer, with a layout and bytes that
/// are allocated for each call.
///
/// An implementation has to make `as_gl_bytes` and `gl_type_layout` match
/// each other in terms of byte layout.
pub trait GlLayout: Sized {
    /// Returns the GL types that the bytes of a value map to.
    fn gl_type_layout() -> Vec<GlType>;

    /// Returns the bytes of the value for use in OpenGL rendering.
    fn as_gl_bytes(&self) -> Vec<u8>;
}

/// A growable buffer of values packed for OpenGL.
pub struct RenderVec<LayoutT: StaticGlLayout<LEN>, const LEN: usize> {
    inner: Vec<u8>,
    layout: GlTypeList<LEN>,
    stride: usize,
    _phantom: PhantomData<LayoutT>,
}

impl<const LEN: usize, LayoutT: StaticGlLayout<LEN>> View for RenderVec<LayoutT, LEN> {
    type V = Seq<u8>;

    closed spec fn view(&self) -> Seq<u8> {
        self.inner@
    }
}

impl<const LEN: usize, LayoutT: StaticGlLayout<LEN>> Clone for RenderVec<LayoutT, LEN> {
    fn clone(&self) -> (copy: Self)
        ensures
            copy@ == self@,
            copy.layout_spec() == self.layout_spec(),
            copy.stride_spec() == self.stride_spec(),
    {
        Self {
            inner: vstd::slice::slice_to_vec(self.inner.as_slice()),
            layout: self.layout,
            stride: self.stride,
            _phantom: PhantomData,
        }
    }
}

/// The sum of the sizes of the types of `layout`.
pub fn stride_of<const LEN: usize>(layout: &GlTypeList<LEN>) -> (stride: usize)
    requires
        LEN <= usize::MAX / 8,
    ensures
        stride == layout_size(layout.0@),
{
    let mut stride: usize = 0;
    let mut i: usize = 0;
    proof {
        assert(layout.0@.take(0) =~= Seq::<GlType>::empty());
    }
    while i < LEN
        invariant
            i <= LEN <= usize::MAX / 8,
            layout.0@.len() == LEN,
            stride == layout_size(layout.0@.take(i as int)),
        decreases LEN - i,
    {
        proof {
            assert(layout.0@.take(i + 1).drop_last() =~= layout.0@.take(i as int));
            lemma_layout_size_grows(layout.0@, i + 1);
        }
        stride += layout.0[i].get_size();
        i += 1;
    }
    proof {
        assert(layout.0@.take(LEN as int) =~= layout.0@);
    }
    stride
}

impl<const LEN: usize, LayoutT: StaticGlLayout<LEN>> RenderVec<LayoutT, LEN> {
    /// The number of bytes that one element is taken to have.
    pub closed spec fn stride_spec(&self) -> nat {
        self.stride as nat
    }

    /// The layout that the element type gave when the buffer was made.
    pub closed spec fn layout_spec(&self) -> Seq<GlType> {
        self.layout.0@
    }

    /// An empty buffer. Its stride is the sum of the sizes of the types
    /// of the layout that the element type gives.
    pub fn new() -> (buffer: Self)
        requires
            LEN <= usize::MAX / 8,
        ensures
            buffer@ == Seq::<u8>::empty(),
            buffer.layout_spec().len() == LEN,
            buffer.stride_spec() == layout_size(buffer.layout_spec()),
    {
        let layout = LayoutT::gl_type_layout();
        let stride = stride_of(&layout);
        Self { inner: Vec::new(), layout, stride, _phantom: PhantomData }
    }

    /// The layout that the element type gave when the buffer was made.
    pub fn layout(&self) -> (layout: &GlTypeList<LEN>)
        ensures
            layout.0@ == self.layout_spec(),
    {
        &self.layout
    }

    /// Appends the bytes that `value` gives of itself: the buffer goes on
    /// as it was, and ends with what `as_gl_bytes` returned for `value`.
    pub fn push(&mut self, value: LayoutT)
        ensures
            final(self).stride_spec() == old(self).stride_spec(),
            final(self).layout_spec() == old(self).layout_spec(),
            old(self)@.is_prefix_of(final(self)@),
            gives::<LayoutT, LEN>(value, final(self)@.skip(old(self)@.len() as int)),
    {
        let bytes = value.as_gl_bytes();
        self.push_bytes(bytes);
        assert(self@.skip(old(self)@.len() as int) =~= bytes@);
    }

    /// Appends the given bytes.
    pub fn push_bytes(&mut self, bytes: &[u8])
        ensures
            final(self).stride_spec() == old(self).stride_spec(),
            final(self).layout_spec() == old(self).layout_spec(),
            final(self)@ == old(self)@ + bytes@,
            old(self)@.is_prefix_of(final(self)@),
    {
        let mut i: usize = 0;
        while i < bytes.len()
            invariant
                i <= bytes.len(),
                self.stride == old(self).stride,
                self.layout == old(self).layout,
                self.inner@ == old(self).inner@ + bytes@.take(i as int),
            decreases bytes.len() - i,
        {
            self.inner.push(bytes[i]);
            i += 1;
            proof {
                assert(self.inner@ =~= old(self).inner@ + bytes@.take(i as int));
            }
        }
        assert(bytes@.take(bytes@.len() as int) =~= bytes@);
    }

    /// Appends, for each value of `slice` in order, what `as_gl_bytes`
    /// returns for it: the buffer goes on as it was, and ends with them.
    pub fn extend_from_slice(&mut self, slice: &[LayoutT])
        ensures
            final(self).stride_spec() == old(self).stride_spec(),
            final(self).layout_spec() == old(self).layout_spec(),
            old(self)@.is_prefix_of(final(self)@),
            packs::<LayoutT, LEN>(slice@, final(self)@.skip(old(self)@.len() as int)),
    {
        let ghost start = self@.len() as int;
        let mut i: usize = 0;
        proof {
            assert(self@.skip(start).len() == 0);
        }
        while i < slice.len()
            invariant
                i <= slice.len(),
                start == old(self)@.len(),
                self.stride_spec() == old(self).stride_spec(),
                self.layout_spec() == old(self).layout_spec(),
                old(self)@.is_prefix_of(self@),
                packs::<LayoutT, LEN>(slice@.take(i as int), self@.skip(start)),
            decreases slice.len() - i,
        {
            let ghost before = self@.skip(start);
            let bytes = slice[i].as_gl_bytes();
            self.push_bytes(bytes);
            i += 1;
            proof {
                let after = self@.skip(start);
                let values = slice@.take(i as int);
                assert(after =~= before + bytes@);
                assert(after.take(before.len() as int) =~= before);
                assert(after.skip(before.len() as int) =~= bytes@);
                assert(values.drop_last() =~= slice@.take(i - 1));
                assert(values.last() == slice@[i - 1]);
                assert(gives::<LayoutT, LEN>(values.last(), bytes@));
            }
        }
        proof {
            assert(slice@.take(slice@.len() as int) =~= slice@);
        }
    }

    /// The number of bytes that one element is taken to have.
    pub fn stride(&self) -> (stride: usize)
        ensures
            stride == self.stride_spec(),
    {
        self.stride
    }

    /// The length of the buffer in bytes, as OpenGL takes it.
    pub fn gl_byte_size(&self) -> (size: isize)
        requires
            self@.len() <= isize::MAX,
        ensures
            size == self@.len(),
    {
        self.inner.len() as isize
    }

    /// The length of the buffer in bytes, as OpenGL takes it.
    pub fn gl_size(&self) -> (size: isize)
        requires
            self@.len() <= isize::MAX,
        ensures
            size == self@.len(),
    {
        self.gl_byte_size()
    }

    /// The number of whole elements of the buffer, as OpenGL takes it.
    pub fn gl_len(&self) -> (len: i32)
        requires
            self.stride_spec() > 0,
            self@.len() / self.stride_spec() <= i32::MAX,
        ensures
            len == self@.len() / self.stride_spec(),
    {
        (self.inner.len() / self.stride) as i32
    }

    /// The bytes of the buffer.
    pub fn gl_data(&self) -> (data: &[u8])
        ensures
            data@ == self@,
    {
        self.inner.as_slice()
    }
}

/// Whether `bytes` are what a call of `as_gl_bytes` on `value` may return.
pub open spec fn gives<LayoutT: StaticGlLayout<LEN>, const LEN: usize>(
    value: LayoutT,
    bytes: Seq<u8>,
) -> bool {
    exists|given: &[u8]| #[trigger]
        call_ensures(LayoutT::as_gl_bytes, (&value,), given) && given@ == bytes
}

/// Whether `bytes` are what calls of `as_gl_bytes` on the values may
/// return, one value after the other.
pub open spec fn packs<LayoutT: StaticGlLayout<LEN>, const LEN: usize>(
    values: Seq<LayoutT>,
    bytes: Seq<u8>,
) -> bool
    decreases values.len(),
{
    if values.len() == 0 {
        bytes.len() == 0
    } else {
        exists|cut: int|
            0 <= cut <= bytes.len() && packs::<LayoutT, LEN>(
                values.drop_last(),
                #[trigger] bytes.take(cut),
            ) && gives::<LayoutT, LEN>(values.last(), bytes.skip(cut))
    }
}

} // verus!
