use mpi_two_sided::codec::{push_decimal, push_u64_le, read_u64_le};

#[test]
fn push_u64_le_matches_std() {
    for &x in &[0u64, 1, 255, 256, 0xdead_beef, u64::MAX] {
        let mut out = vec![9u8];
        push_u64_le(&mut out, x);
        let mut expected = vec![9u8];
        expected.extend_from_slice(&x.to_le_bytes());
        assert_eq!(out, expected);
    }
}

#[test]
fn read_u64_le_matches_std() {
    let bytes = [0xaau8, 1, 2, 3, 4, 5, 6, 7, 8, 0xbb];
    let mut eight = [0u8; 8];
    eight.copy_from_slice(&bytes[1..9]);
    assert_eq!(read_u64_le(&bytes, 1), u64::from_le_bytes(eight));
}

#[test]
fn push_decimal_matches_format() {
    for &n in &[0usize, 7, 9, 10, 99, 100, 12345, usize::MAX] {
        let mut s = String::from("n=");
        push_decimal(&mut s, n);
        assert_eq!(s, format!("n={}", n));
    }
}
