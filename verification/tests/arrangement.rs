use commit_race::arrangement::stable_positions;

#[test]
fn no_keys_no_positions() {
    assert_eq!(stable_positions(&vec![]), Vec::<usize>::new());
}

#[test]
fn positions_ascend_by_key() {
    assert_eq!(stable_positions(&vec![30, 10, 20]), vec![1, 2, 0]);
    assert_eq!(stable_positions(&vec![1, 2, 3]), vec![0, 1, 2]);
    assert_eq!(stable_positions(&vec![3, 2, 1]), vec![2, 1, 0]);
    assert_eq!(stable_positions(&vec![-5, i64::MAX, i64::MIN, 0]), vec![2, 0, 3, 1]);
}

#[test]
fn equal_keys_keep_their_order() {
    assert_eq!(stable_positions(&vec![2, 1, 2, 1, 2]), vec![1, 3, 0, 2, 4]);
    assert_eq!(stable_positions(&vec![7, 7, 7]), vec![0, 1, 2]);
}
