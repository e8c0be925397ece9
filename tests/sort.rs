use zkplmt::sort::{copy, joint_quicksort, shuffle};

#[test]
fn lib_test_joint_quicksort() {
    let mut array = [1, 5, 2, 3, 1, 5];
    let mut conj = [0, 1, 2, 3, 4, 5];
    joint_quicksort(&mut array, &mut conj);
    assert_eq!(array, [1, 1, 2, 3, 5, 5]);
}

#[test]
fn lib_test_joint_quicksort_2() {
    let mut array = [5, 1, 4, 3, 2];
    let mut conj = [0, 1, 2, 3, 4];
    let index_of_first = joint_quicksort(&mut array, &mut conj);
    assert_eq!(array, [1, 2, 3, 4, 5]);
    assert_eq!(conj, [1, 4, 3, 2, 0]);
    assert_eq!(index_of_first, 4);
}

#[test]
fn zkplmt_const_size_test_joint_quicksort() {
    let mut array = [1, 5, 2, 3, 1, 5];
    let mut conj = [0, 1, 2, 3, 4, 5];
    joint_quicksort(&mut array, &mut conj);
    assert_eq!(array, [1, 1, 2, 3, 5, 5]);
}

#[test]
fn zkplmt_const_size_test_joint_quicksort_2() {
    let mut array = [5, 1, 4, 3, 2];
    let mut conj = [0, 1, 2, 3, 4];
    let index_of_first = joint_quicksort(&mut array, &mut conj);
    assert_eq!(array, [1, 2, 3, 4, 5]);
    assert_eq!(conj, [1, 4, 3, 2, 0]);
    assert_eq!(index_of_first, 4);
}

#[test]
fn joint_quicksort_keeps_equal_keys_in_order() {
    let mut array = [3, 1, 3, 1];
    let mut conj = ['a', 'b', 'c', 'd'];
    let index_of_first = joint_quicksort(&mut array, &mut conj);
    assert_eq!(array, [1, 1, 3, 3]);
    assert_eq!(conj, ['b', 'd', 'a', 'c']);
    assert_eq!(index_of_first, 2);
}

#[test]
fn joint_quicksort_single_item() {
    let mut array = [7];
    let mut conj = ["x"];
    assert_eq!(joint_quicksort(&mut array, &mut conj), 0);
    assert_eq!(array, [7]);
}

#[test]
fn shuffle_is_a_permutation() {
    let mut items = [10u32, 11, 12, 13, 14, 15, 16, 17];
    let first = shuffle(&mut items);
    assert_eq!(items[first], 10);
    let mut sorted = items;
    sorted.sort();
    assert_eq!(sorted, [10, 11, 12, 13, 14, 15, 16, 17]);
}

#[test]
fn copy_fills_the_front() {
    let mut target = [0u8; 5];
    copy(&mut target, &[1, 2, 3]);
    assert_eq!(target, [1, 2, 3, 0, 0]);
}
