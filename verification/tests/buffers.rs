use gloom_rs::buffers::{
    attribute_layout, attribute_stride, byte_size_of_array, offset_bytes, size_of, vertex_streams,
    AttributeLayout, VertexStream,
};

#[test]
fn slice_sizes_in_bytes() {
    let v: [f32; 3] = [1.0, 2.0, 3.0];
    assert_eq!(byte_size_of_array(&v), 12);
    let i: [u32; 5] = [0, 1, 2, 3, 4];
    assert_eq!(byte_size_of_array(&i), 20);
    let e: [u64; 0] = [];
    assert_eq!(byte_size_of_array(&e), 0);
    let b: [u8; 7] = [0; 7];
    assert_eq!(byte_size_of_array(&b), 7);
}

#[test]
fn type_sizes() {
    assert_eq!(size_of::<f32>(), 4);
    assert_eq!(size_of::<u64>(), 8);
    assert_eq!(size_of::<u8>(), 1);
    assert_eq!(size_of::<[f32; 4]>(), 16);
}

#[test]
fn offsets_in_bytes() {
    assert_eq!(offset_bytes::<u64>(4), 32);
    assert_eq!(offset_bytes::<f32>(3), 12);
    assert_eq!(offset_bytes::<u8>(0), 0);
}

#[test]
fn attribute_layouts() {
    assert_eq!(attribute_layout(VertexStream::Positions), AttributeLayout { location: 0, components: 3 });
    assert_eq!(attribute_layout(VertexStream::Normals), AttributeLayout { location: 1, components: 3 });
    assert_eq!(attribute_layout(VertexStream::Colors), AttributeLayout { location: 2, components: 4 });
    assert_eq!(
        vertex_streams(),
        vec![VertexStream::Positions, VertexStream::Normals, VertexStream::Colors]
    );
}

#[test]
fn strides() {
    assert_eq!(attribute_stride::<f32>(3), 12);
    assert_eq!(attribute_stride::<f32>(4), 16);
    assert_eq!(attribute_stride::<f32>(0), 0);
    assert_eq!(attribute_stride::<u16>(3), 6);
}
