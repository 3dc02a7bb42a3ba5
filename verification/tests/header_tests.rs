use mpi_two_sided::header::MessageHeader;

#[test]
fn to_bytes_puts_type_then_little_endian_count() {
    let h = MessageHeader { data_type: 2, count: 0x0102_0304_0506_0708 };
    assert_eq!(h.to_bytes(), vec![2, 8, 7, 6, 5, 4, 3, 2, 1]);
}

#[test]
fn to_bytes_of_default_header_is_nine_zeros() {
    let h = MessageHeader::default();
    assert_eq!(h.data_type, 0);
    assert_eq!(h.count, 0);
    assert_eq!(h.to_bytes(), vec![0u8; 9]);
}

#[test]
fn from_bytes_reads_type_and_count() {
    let h = MessageHeader::from_bytes(&[3, 0xff, 0, 0, 0, 0, 0, 0, 0x80]).unwrap();
    assert_eq!(h.data_type, 3);
    assert_eq!(h.count, 0x8000_0000_0000_00ff);
}

#[test]
fn header_roundtrip_on_concrete_values() {
    for &(t, c) in &[(0u8, 0u64), (1, 3), (3, u64::MAX), (255, 1 << 40)] {
        let h = MessageHeader { data_type: t, count: c };
        let back = MessageHeader::from_bytes(&h.to_bytes()).unwrap();
        assert_eq!(back, h);
    }
}

#[test]
fn bytes_roundtrip_on_concrete_values() {
    let b = [7u8, 1, 2, 3, 4, 5, 6, 7, 8];
    assert_eq!(MessageHeader::from_bytes(&b).unwrap().to_bytes(), b.to_vec());
}

#[test]
fn from_bytes_rejects_short_input() {
    let e = MessageHeader::from_bytes(&[1, 2, 3]).unwrap_err();
    assert_eq!(e, "Invalid header length: expected 9, got 3");
}

#[test]
fn from_bytes_rejects_empty_input() {
    let e = MessageHeader::from_bytes(&[]).unwrap_err();
    assert_eq!(e, "Invalid header length: expected 9, got 0");
}

#[test]
fn from_bytes_rejects_long_input_with_multi_digit_length() {
    let e = MessageHeader::from_bytes(&[0u8; 120]).unwrap_err();
    assert_eq!(e, "Invalid header length: expected 9, got 120");
    let e = MessageHeader::from_bytes(&[0u8; 10]).unwrap_err();
    assert_eq!(e, "Invalid header length: expected 9, got 10");
}
