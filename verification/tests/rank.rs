use cortex::rank::top_by_key;

#[test]
fn best_first_ties_in_input_order() {
    let keys = vec![5, 9, 5, 1, 9];
    assert_eq!(top_by_key(&keys, 10), vec![1, 4, 0, 2, 3]);
    assert_eq!(top_by_key(&keys, 3), vec![1, 4, 0]);
}

#[test]
fn limit_zero_and_empty() {
    assert_eq!(top_by_key(&vec![3, 2, 1], 0), Vec::<usize>::new());
    assert_eq!(top_by_key(&vec![], 5), Vec::<usize>::new());
}

#[test]
fn same_as_stable_sort_then_truncate() {
    let keys: Vec<u64> = vec![3, 7, 7, 0, 12, 3, 3, 8, 1, 7];
    for limit in 0..12 {
        let mut idx: Vec<usize> = (0..keys.len()).collect();
        idx.sort_by(|a, b| keys[*b].cmp(&keys[*a]));
        idx.truncate(limit);
        assert_eq!(top_by_key(&keys, limit), idx);
    }
}
