use containers::array::Array;

fn drain_forward(array: Array<i32>) -> Vec<i32> {
    let mut it = array.into_iter();
    let mut out = Vec::new();
    while let Some(x) = it.next() {
        out.push(x);
    }
    out
}

#[test]
fn new_array_is_zero_filled() {
    let array: Array<i32> = Array::new(10);
    assert_eq!(array.size(), 10);
    for i in 0..10 {
        assert_eq!(array.get(i), Some(0));
    }
    assert_eq!(array.get(10), None);
}

#[test]
fn empty_array_has_no_slots() {
    let array: Array<i32> = Array::new(0);
    assert_eq!(array.size(), 0);
    assert_eq!(array.get(0), None);
    assert_eq!(drain_forward(array), Vec::<i32>::new());
}

#[test]
fn array_set_then_get() {
    let mut array: Array<i32> = Array::new(10);
    array.set(0, 15);
    assert_eq!(array.size(), 10);
    assert_eq!(array.get(0), Some(15));
    assert_eq!(array.get(1), Some(0));
}

#[test]
fn array_set_out_of_range_writes_nothing() {
    let mut array: Array<i32> = Array::new(3);
    array.set(3, 7);
    array.set(usize::MAX, 7);
    assert_eq!(array.size(), 3);
    assert_eq!(drain_forward(array), vec![0, 0, 0]);
}

#[test]
fn array_copy_expanded_keeps_prefix() {
    let mut array: Array<i32> = Array::new(3);
    array.set(0, 1);
    array.set(1, 2);
    array.set(2, 3);
    let bigger = array.copy_expanded(5);
    assert_eq!(bigger.size(), 5);
    assert_eq!(array.size(), 3);
    assert_eq!(drain_forward(bigger), vec![1, 2, 3, 0, 0]);
    let same = array.copy_expanded(3);
    assert_eq!(drain_forward(same), vec![1, 2, 3]);
}

#[test]
fn array_copy_takes_a_range() {
    let mut array: Array<i32> = Array::new(5);
    for i in 0..5 {
        array.set(i, (i as i32) * 10);
    }
    assert_eq!(drain_forward(array.copy(1, 4)), vec![10, 20, 30]);
    assert_eq!(drain_forward(array.copy(2, 2)), Vec::<i32>::new());
    assert_eq!(drain_forward(array.copy(0, 5)), vec![0, 10, 20, 30, 40]);
    assert_eq!(drain_forward(array.copy(5, 5)), Vec::<i32>::new());
}

#[test]
fn array_merge_concatenates_and_pads() {
    let mut left: Array<i32> = Array::new(2);
    left.set(0, 1);
    left.set(1, 2);
    let mut right: Array<i32> = Array::new(3);
    right.set(0, 3);
    right.set(1, 4);
    right.set(2, 5);
    assert_eq!(drain_forward(left.merge(&right, 5)), vec![1, 2, 3, 4, 5]);
    assert_eq!(drain_forward(left.merge(&right, 7)), vec![1, 2, 3, 4, 5, 0, 0]);
    assert_eq!(drain_forward(right.merge(&left, 5)), vec![3, 4, 5, 1, 2]);
}

#[test]
fn array_iterates_from_both_ends() {
    let mut array: Array<i32> = Array::new(4);
    for i in 0..4 {
        array.set(i, i as i32 + 1);
    }
    let mut it = array.into_iter();
    assert_eq!(it.next(), Some(1));
    assert_eq!(it.next_back(), Some(4));
    assert_eq!(it.next_back(), Some(3));
    assert_eq!(it.next(), Some(2));
    assert_eq!(it.next(), None);
    assert_eq!(it.next_back(), None);
}

#[test]
fn array_iteration_count_equals_size() {
    let array: Array<u8> = Array::new(6);
    let size = array.size();
    let mut it = array.into_iter();
    let mut count = 0;
    while it.next().is_some() {
        count += 1;
    }
    assert_eq!(count, size);
}
