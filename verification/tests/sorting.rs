use icn_economics::sorting::sort_indices_desc;

#[test]
fn indices_follow_decreasing_keys_stably() {
    assert_eq!(sort_indices_desc(&vec![3, 9, 3, 1, 9]), vec![1, 4, 0, 2, 3]);
    assert_eq!(sort_indices_desc(&vec![]), Vec::<usize>::new());
}
