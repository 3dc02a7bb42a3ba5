use mpi_two_sided::segmented::SegmentedBuffer;

#[test]
fn extract_all_returns_items_in_push_order() {
    let mut s = SegmentedBuffer::new(4);
    for i in 0..10 {
        s.push(i * 3);
    }
    assert_eq!(s.extract_all(), (0..10).map(|i| i * 3).collect::<Vec<_>>());
}

#[test]
fn extract_all_of_new_buffer_is_empty() {
    let s: SegmentedBuffer<String> = SegmentedBuffer::new(4);
    assert!(s.extract_all().is_empty());
}
