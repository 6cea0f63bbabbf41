use flugs::utils::group_indices;

#[test]
fn test_group_indices() {
    let input = vec![0, 1, 2, 6, 11, 12, 13, 21];
    let res = group_indices(input);
    assert_eq!(vec![0..=2, 6..=6, 11..=13, 21..=21], res);
    let input = vec![4, 6, 7, 8, 9, 10, 11, 12, 13, 21];
    let res = group_indices(input);
    assert_eq!(vec![4..=4, 6..=13, 21..=21], res);
    let input = vec![4, 6, 7, 8, 9, 10, 11, 13, 21, 22];
    let res = group_indices(input);
    assert_eq!(vec![4..=4, 6..=11, 13..=13, 21..=22], res);
}

#[test]
fn group_indices_empty_and_unsorted() {
    assert_eq!(group_indices(vec![]), Vec::<std::ops::RangeInclusive<usize>>::new());
    assert_eq!(group_indices(vec![5]), vec![5..=5]);
    assert_eq!(group_indices(vec![5, 3, 4]), vec![5..=5, 3..=4]);
    assert_eq!(group_indices(vec![2, 2]), vec![2..=2, 2..=2]);
}
