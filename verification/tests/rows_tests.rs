use mpi_two_sided::rows::{fill_rows, flatten_rows_vec};
use mpi_two_sided::typed::{Route, TypedCommunicator};

#[test]
fn flatten_rows_is_row_major() {
    let data = [[1u32, 2], [3, 4], [5, 6]];
    assert_eq!(flatten_rows_vec(&data), vec![1, 2, 3, 4, 5, 6]);
    let empty: [[u8; 4]; 0] = [];
    assert!(flatten_rows_vec(&empty).is_empty());
}

#[test]
fn fill_rows_writes_row_major_and_keeps_the_rest() {
    let mut rows = [[0i32; 3]; 2];
    fill_rows(&mut rows, &[1, 2, 3, 4]);
    assert_eq!(rows, [[1, 2, 3], [4, 0, 0]]);
}

#[test]
fn rows_arrive_intact() {
    let sent = [[1.5f32, 2.5], [3.5, 4.5], [5.5, 6.5]];
    let mut received = [[0.0f32; 2]; 3];
    fill_rows(&mut received, &flatten_rows_vec(&sent));
    assert_eq!(received, sent);
}

#[test]
fn send_rows_sends_the_flattened_elements() {
    let c: TypedCommunicator<f32> = TypedCommunicator::new(0, 2, true);
    let data = [[1.0f32, 2.0], [3.0, 4.0], [5.0, 6.0]];
    let (route, elements) = c.send_rows(&data, 1, 0);
    assert_eq!(route, Route { peer: 1, tag: 0 });
    assert_eq!(elements, vec![1.0, 2.0, 3.0, 4.0, 5.0, 6.0]);
}

#[test]
fn send_value_sends_one_element() {
    let c: TypedCommunicator<f32> = TypedCommunicator::new(1, 2, true);
    let (route, elements) = c.send_value(&42.5, 0, 0);
    assert_eq!(route, Route { peer: 0, tag: 0 });
    assert_eq!(elements, vec![42.5]);
}

#[test]
fn receive_value_hands_back_the_value() {
    let c: TypedCommunicator<f32> = TypedCommunicator::new(1, 2, true);
    let mut v = 0.0f32;
    {
        let (route, slot) = c.receive_value(&mut v, 0, 0);
        assert_eq!(route, Route { peer: 0, tag: 0 });
        *slot = 42.5;
    }
    assert_eq!(v, 42.5);
}

#[test]
fn receive_rows_stages_then_fills() {
    let c: TypedCommunicator<f32> = TypedCommunicator::new(1, 2, true);
    let mut buffer = [[0.0f32; 3]; 2];
    let (route, mut staging) = c.receive_rows(&buffer, 0, 0);
    assert_eq!(route, Route { peer: 0, tag: 0 });
    assert_eq!(staging, vec![0.0; 6]);
    staging.copy_from_slice(&[1.0, 2.0, 3.0, 4.0, 5.0, 6.0]);
    fill_rows(&mut buffer, &staging);
    assert_eq!(buffer, [[1.0, 2.0, 3.0], [4.0, 5.0, 6.0]]);
}
