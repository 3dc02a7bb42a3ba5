use mpi_two_sided::typed::{
    broadcast_seed, matches_root, type_check_outcome, Route, TypeCheck, MyTypeId,
    TypedCommunicator,
};

#[test]
fn root_broadcasts_its_own_type() {
    let k = MyTypeId(5, 6);
    assert_eq!(broadcast_seed(0, k), k);
    assert_eq!(broadcast_seed(2, k), MyTypeId(0, 0));
    assert_eq!(MyTypeId::default(), MyTypeId(0, 0));
}

#[test]
fn comparison_with_root_type() {
    assert!(matches_root(MyTypeId(1, 2), MyTypeId(1, 2)));
    assert!(!matches_root(MyTypeId(1, 2), MyTypeId(1, 3)));
    assert!(!matches_root(MyTypeId(0, 2), MyTypeId(1, 2)));
}

#[test]
fn check_accepts_only_when_all_ranks_agree() {
    let types = [MyTypeId(7, 7), MyTypeId(7, 7), MyTypeId(7, 8)];
    let root = broadcast_seed(0, types[0]);
    let all = types.iter().all(|t| matches_root(*t, root));
    assert!(!all);
    assert_eq!(type_check_outcome(1, all), TypeCheck::Mismatch);
    let same = [MyTypeId(7, 7); 3];
    let all = same.iter().all(|t| matches_root(*t, root));
    assert!(all);
    assert_eq!(type_check_outcome(0, all), TypeCheck::AcceptedAndReport);
    assert_eq!(type_check_outcome(2, all), TypeCheck::Accepted);
}

#[test]
fn routes_of_send_and_receive() {
    let c: TypedCommunicator<f32> = TypedCommunicator::new(0, 2, true);
    assert_eq!((c.rank(), c.size()), (0, 2));
    let data = [1.0f32, 2.0, 3.0];
    let (route, sent) = c.send(&data, 1, 0);
    assert_eq!(route, Route { peer: 1, tag: 0 });
    assert_eq!(sent, &data[..]);
    let mut buffer = [0.0f32; 3];
    {
        let (route, slot) = c.receive(&mut buffer, 0, 1);
        assert_eq!(route, Route { peer: 0, tag: 1 });
        slot[2] = 4.5;
    }
    assert_eq!(buffer, [0.0, 0.0, 4.5]);
}
