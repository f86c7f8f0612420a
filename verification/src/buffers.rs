//! Sizes and layouts of the vertex data handed to OpenGL buffers.

use vstd::prelude::*;

verus! {

/// The number of bytes that `len` values of `T` take.
pub open spec fn bytes_of<T>(len: nat) -> nat {
    len * vstd::layout::size_of::<T>()
}

/// The size of a slice in bytes, as OpenGL takes buffer sizes.
pub fn byte_size_of_array<T>(val: &[T]) -> (n: isize)
    requires
        bytes_of::<T>(val@.len()) <= isize::MAX,
    ensures
        n == bytes_of::<T>(val@.len()),
{
    let len = val.len();
    let size = core::mem::size_of::<T>();
    (len * size) as isize
}

/// The size of a value of `T` in bytes, as an OpenGL stride or size.
pub fn size_of<T>() -> (n: i32)
    ensures
        n == vstd::layout::size_of::<T>() as i32,
{
    core::mem::size_of::<T>() as i32
}

/// The offset in bytes of the `n`-th value of `T` in a buffer.
pub fn offset_bytes<T>(n: u32) -> (off: u32)
    requires
        n * (vstd::layout::size_of::<T>() as u32) <= u32::MAX,
    ensures
        off == n * (vstd::layout::size_of::<T>() as u32),
{
    let size = core::mem::size_of::<T>() as u32;
    n * size
}

/// The vertex data of a mesh that is handed to a vertex attribute.
#[derive(Clone, Copy, PartialEq, Eq, Structural, Debug)]
pub enum VertexStream {
    Positions,
    Normals,
    Colors,
}

/// Where a stream is bound: the attribute location the shaders read it
/// from and how many components each vertex has in it.
#[derive(Clone, Copy, PartialEq, Eq, Structural, Debug)]
pub struct AttributeLayout {
    pub location: u32,
    pub components: i32,
}

/// Positions at location 0 and normals at location 1, three components
/// each; colors at location 2, with four components (alpha included).
pub open spec fn spec_attribute_layout(stream: VertexStream) -> AttributeLayout {
    match stream {
        VertexStream::Positions => AttributeLayout { location: 0, components: 3 },
        VertexStream::Normals => AttributeLayout { location: 1, components: 3 },
        VertexStream::Colors => AttributeLayout { location: 2, components: 4 },
    }
}

/// The attribute layout of a stream.
pub fn attribute_layout(stream: VertexStream) -> (l: AttributeLayout)
    ensures
        l == spec_attribute_layout(stream),
{
    match stream {
        VertexStream::Positions => AttributeLayout { location: 0, components: 3 },
        VertexStream::Normals => AttributeLayout { location: 1, components: 3 },
        VertexStream::Colors => AttributeLayout { location: 2, components: 4 },
    }
}

/// The streams of a vertex array object, in the order they are uploaded.
pub fn vertex_streams() -> (s: Vec<VertexStream>)
    ensures
        s@ == seq![VertexStream::Positions, VertexStream::Normals, VertexStream::Colors],
{
    let mut s = Vec::new();
    s.push(VertexStream::Positions);
    s.push(VertexStream::Normals);
    s.push(VertexStream::Colors);
    s
}

/// The stride in bytes of tightly packed vertices of `components` values
/// of `T`.
pub fn attribute_stride<T>(components: i32) -> (stride: i32)
    requires
        0 <= components,
        components * vstd::layout::size_of::<T>() <= i32::MAX,
    ensures
        stride == components * vstd::layout::size_of::<T>(),
{
    let size = core::mem::size_of::<T>();
    proof {
        if components > 0 {
            assert(components * vstd::layout::size_of::<T>() >= vstd::layout::size_of::<T>()) by (nonlinear_arith)
                requires components > 0;
        }
    }
    if components == 0 {
        0
    } else {
        components * (size as i32)
    }
}

} // verus!
