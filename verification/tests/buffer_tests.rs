use mpi_two_sided::buffer::{DynamicBuffer, ElementKind};
use mpi_two_sided::header::MessageHeader;

#[test]
fn len_and_type_id_of_each_variant() {
    let f32s = DynamicBuffer::F32(vec![1.0f32.to_bits(), 2.0f32.to_bits(), 3.0f32.to_bits()]);
    let f64s = DynamicBuffer::F64(vec![4.0f64.to_bits(), 5.0f64.to_bits()]);
    let i32s = DynamicBuffer::I32(vec![6, 7, 8, 9]);
    let i64s = DynamicBuffer::I64(vec![10, 11]);
    assert_eq!((f32s.len(), f32s.type_id()), (3, 0));
    assert_eq!((f64s.len(), f64s.type_id()), (2, 1));
    assert_eq!((i32s.len(), i32s.type_id()), (4, 2));
    assert_eq!((i64s.len(), i64s.type_id()), (2, 3));
}

#[test]
fn header_announces_type_and_length() {
    let d = DynamicBuffer::I32(vec![6, 7, 8, 9]);
    assert_eq!(d.header(), MessageHeader { data_type: 2, count: 4 });
    let e = DynamicBuffer::F64(Vec::new());
    assert_eq!(e.header(), MessageHeader { data_type: 1, count: 0 });
}

#[test]
fn native_bytes_are_the_elements_in_memory_order() {
    let d = DynamicBuffer::I32(vec![-1, 0x0102_0304]);
    let mut expected = Vec::new();
    expected.extend_from_slice(&(-1i32).to_ne_bytes());
    expected.extend_from_slice(&0x0102_0304i32.to_ne_bytes());
    assert_eq!(d.to_native_bytes(), expected);

    let f = DynamicBuffer::F32(vec![1.5f32.to_bits()]);
    assert_eq!(f.to_native_bytes(), 1.5f32.to_ne_bytes().to_vec());

    let g = DynamicBuffer::F64(vec![(-2.25f64).to_bits()]);
    assert_eq!(g.to_native_bytes(), (-2.25f64).to_ne_bytes().to_vec());

    let h = DynamicBuffer::I64(vec![i64::MIN, 5]);
    let mut expected = i64::MIN.to_ne_bytes().to_vec();
    expected.extend_from_slice(&5i64.to_ne_bytes());
    assert_eq!(h.to_native_bytes(), expected);
}

#[test]
fn payload_length_is_count_times_width() {
    let d = DynamicBuffer::I64(vec![1, 2, 3]);
    assert_eq!(d.to_native_bytes().len(), 24);
    let f = DynamicBuffer::F32(vec![0, 0, 0, 0, 0]);
    assert_eq!(f.to_native_bytes().len(), 20);
}

#[test]
fn element_kind_type_ids() {
    assert_eq!(ElementKind::from_type_id(0), Some(ElementKind::F32));
    assert_eq!(ElementKind::from_type_id(1), Some(ElementKind::F64));
    assert_eq!(ElementKind::from_type_id(2), Some(ElementKind::I32));
    assert_eq!(ElementKind::from_type_id(3), Some(ElementKind::I64));
    assert_eq!(ElementKind::from_type_id(4), None);
    assert_eq!(ElementKind::from_type_id(255), None);
}
