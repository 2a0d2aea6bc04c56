use containers::array_list::{ArrayList, MIN_CAPACITY};

fn contents(list: &ArrayList<i32>) -> Vec<i32> {
    let mut it = list.into_iter();
    let mut out = Vec::new();
    while let Some(x) = it.next() {
        out.push(x);
    }
    out
}

fn list_of(items: &[i32]) -> ArrayList<i32> {
    let mut list = ArrayList::new();
    for &x in items {
        list.add(x);
    }
    list
}

#[test]
fn new_list_is_empty_with_minimum_capacity() {
    let list: ArrayList<i32> = ArrayList::new();
    assert_eq!(list.size(), 0);
    assert_eq!(list.capacity(), 4);
    assert_eq!(MIN_CAPACITY, 4);
    assert_eq!(list.get(0), None);
    assert_eq!(contents(&list), Vec::<i32>::new());
}

#[test]
fn list_add_insert_set_remove() {
    let mut list: ArrayList<i32> = ArrayList::new();
    list.add(1);
    list.add(2);
    list.add(3);
    list.add(4);
    list.add(5);
    assert_eq!(list.size(), 5);
    assert_eq!(list.get(3).unwrap(), 4);

    list.insert(0, 11);
    assert_eq!(list.get(0).unwrap(), 11);
    assert_eq!(list.size(), 6);
    assert_eq!(list.get(5).unwrap(), 5);

    list.set(3, 10);
    assert_eq!(list.get(3).unwrap(), 10);

    assert_eq!(list.remove(3).unwrap(), 10);
    assert_eq!(list.size(), 5);

    assert_eq!(list.remove(0).unwrap(), 11);
    assert_eq!(list.size(), 4);

    assert_eq!(list.remove_item(2).unwrap(), 2);
    assert_eq!(list.size(), 3);
    assert_eq!(contents(&list), vec![1, 4, 5]);

    list.clear();
    assert_eq!(list.size(), 0);
}

#[test]
fn fifth_element_doubles_capacity_once() {
    let mut list = list_of(&[1, 2, 3, 4]);
    assert_eq!(list.capacity(), 4);
    list.add(5);
    assert_eq!(list.capacity(), 8);
    list.add(6);
    list.add(7);
    list.add(8);
    assert_eq!(list.capacity(), 8);
    list.add(9);
    assert_eq!(list.capacity(), 16);
    assert_eq!(contents(&list), vec![1, 2, 3, 4, 5, 6, 7, 8, 9]);
}

#[test]
fn removing_down_to_a_quarter_halves_capacity_once() {
    let mut list = list_of(&[1, 2, 3, 4, 5]);
    assert_eq!(list.capacity(), 8);
    assert_eq!(list.remove(4), Some(5));
    assert_eq!(list.capacity(), 8);
    assert_eq!(list.remove(3), Some(4));
    assert_eq!(list.capacity(), 8);
    assert_eq!(list.remove(0), Some(1));
    assert_eq!(list.size(), 2);
    assert_eq!(list.capacity(), 4);
    assert_eq!(contents(&list), vec![2, 3]);
    assert_eq!(list.remove(0), Some(2));
    assert_eq!(list.remove(0), Some(3));
    assert_eq!(list.capacity(), 4);
    assert_eq!(list.size(), 0);
}

#[test]
fn shrink_keeps_the_element_being_removed() {
    let mut list = list_of(&[1, 2, 3]);
    for x in 4..=9 {
        list.add(x);
    }
    assert_eq!(list.capacity(), 16);
    while list.size() > 5 {
        let last = list.size() - 1;
        list.remove(last);
    }
    assert_eq!(list.capacity(), 16);
    assert_eq!(list.remove(4), Some(5));
    assert_eq!(list.capacity(), 8);
    assert_eq!(contents(&list), vec![1, 2, 3, 4]);
    assert_eq!(list.remove(1), Some(2));
    assert_eq!(list.capacity(), 8);
    assert_eq!(list.remove(1), Some(3));
    assert_eq!(list.capacity(), 4);
    assert_eq!(contents(&list), vec![1, 4]);
}

#[test]
fn insert_into_full_list_grows_first() {
    let mut list = list_of(&[1, 2, 3, 4]);
    list.insert(2, 9);
    assert_eq!(list.capacity(), 8);
    assert_eq!(contents(&list), vec![1, 2, 9, 3, 4]);
}

#[test]
fn insert_shifts_later_elements() {
    let mut list = list_of(&[10, 20, 30]);
    list.insert(1, 15);
    assert_eq!(contents(&list), vec![10, 15, 20, 30]);
    list.insert(3, 25);
    assert_eq!(contents(&list), vec![10, 15, 20, 25, 30]);
    list.insert(0, 5);
    assert_eq!(contents(&list), vec![5, 10, 15, 20, 25, 30]);
}

#[test]
fn insert_at_size_or_beyond_changes_nothing() {
    let mut list = list_of(&[1, 2, 3]);
    list.insert(3, 9);
    list.insert(100, 9);
    assert_eq!(list.size(), 3);
    assert_eq!(list.capacity(), 4);
    assert_eq!(contents(&list), vec![1, 2, 3]);
    let mut empty: ArrayList<i32> = ArrayList::new();
    empty.insert(0, 1);
    assert_eq!(empty.size(), 0);
}

#[test]
fn get_and_set_outside_the_elements() {
    let mut list = list_of(&[1, 2]);
    assert_eq!(list.get(2), None);
    assert_eq!(list.get(3), None);
    assert_eq!(list.get(usize::MAX), None);
    list.set(2, 7);
    list.set(9, 7);
    assert_eq!(contents(&list), vec![1, 2]);
    list.add(3);
    assert_eq!(list.get(2), Some(3));
}

#[test]
fn remove_outside_the_elements_changes_nothing() {
    let mut list = list_of(&[1, 2]);
    assert_eq!(list.remove(2), None);
    assert_eq!(list.remove(usize::MAX), None);
    assert_eq!(contents(&list), vec![1, 2]);
    let mut empty: ArrayList<i32> = ArrayList::new();
    assert_eq!(empty.remove(0), None);
    assert_eq!(empty.size(), 0);
}

#[test]
fn remove_first_middle_last() {
    let mut list = list_of(&[1, 2, 3, 4, 5, 6, 7]);
    assert_eq!(list.remove(0), Some(1));
    assert_eq!(contents(&list), vec![2, 3, 4, 5, 6, 7]);
    assert_eq!(list.remove(5), Some(7));
    assert_eq!(contents(&list), vec![2, 3, 4, 5, 6]);
    assert_eq!(list.remove(2), Some(4));
    assert_eq!(contents(&list), vec![2, 3, 5, 6]);
    assert_eq!(list.size(), 4);
}

#[test]
fn remove_sole_element() {
    let mut list = list_of(&[42]);
    assert_eq!(list.remove(0), Some(42));
    assert_eq!(list.size(), 0);
    assert_eq!(contents(&list), Vec::<i32>::new());
    list.add(7);
    assert_eq!(contents(&list), vec![7]);
}

#[test]
fn index_of_finds_first_match_or_sentinel() {
    let list = list_of(&[5, 7, 5, 9]);
    assert_eq!(list.index_of(5), 0);
    assert_eq!(list.index_of(7), 1);
    assert_eq!(list.index_of(9), 3);
    assert_eq!(list.index_of(8), usize::MAX);
    let empty: ArrayList<i32> = ArrayList::new();
    assert_eq!(empty.index_of(0), usize::MAX);
}

#[test]
fn index_of_ignores_stale_slots() {
    let mut list = list_of(&[1, 2, 3]);
    assert_eq!(list.remove(2), Some(3));
    assert_eq!(list.index_of(3), usize::MAX);
    assert_eq!(list.index_of(0), usize::MAX);
    assert_eq!(list.remove_item(3), None);
}

#[test]
fn remove_item_takes_first_occurrence_only() {
    let mut list = list_of(&[5, 7, 5, 9]);
    assert_eq!(list.remove_item(5), Some(5));
    assert_eq!(contents(&list), vec![7, 5, 9]);
    assert_eq!(list.remove_item(8), None);
    assert_eq!(contents(&list), vec![7, 5, 9]);
}

#[test]
fn add_then_remove_found_restores_size() {
    let mut list = list_of(&[3, 1, 4]);
    let before = list.size();
    list.add(1);
    let at = list.index_of(1);
    assert_eq!(at, 1);
    assert_eq!(list.remove(at), Some(1));
    assert_eq!(list.size(), before);
    assert_eq!(contents(&list), vec![3, 4, 1]);
}

#[test]
fn insert_then_remove_restores_sequence() {
    let mut list = list_of(&[3, 1, 4, 1, 5]);
    list.insert(2, 99);
    assert_eq!(list.remove(2), Some(99));
    assert_eq!(contents(&list), vec![3, 1, 4, 1, 5]);
}

#[test]
fn clear_returns_to_minimum_capacity() {
    let mut list = list_of(&[1, 2, 3, 4, 5, 6, 7, 8, 9]);
    assert_eq!(list.capacity(), 16);
    list.clear();
    assert_eq!(list.size(), 0);
    assert_eq!(list.capacity(), 4);
    assert_eq!(list.get(0), None);
    list.add(1);
    assert_eq!(contents(&list), vec![1]);
}

#[test]
fn swap_exchanges_or_does_nothing() {
    let mut list = list_of(&[1, 2, 3]);
    list.swap(0, 2);
    assert_eq!(contents(&list), vec![3, 2, 1]);
    list.swap(1, 1);
    assert_eq!(contents(&list), vec![3, 2, 1]);
    list.swap(0, 3);
    assert_eq!(contents(&list), vec![3, 2, 1]);
}

#[test]
fn size_equals_iteration_count_after_mixed_operations() {
    let mut list: ArrayList<i32> = ArrayList::new();
    for x in 0..20 {
        list.add(x);
        assert_eq!(contents(&list).len(), list.size());
    }
    for _ in 0..7 {
        list.remove(3);
        assert_eq!(contents(&list).len(), list.size());
    }
    list.insert(5, 100);
    assert_eq!(contents(&list).len(), list.size());
    assert_eq!(list.size(), 14);
    list.clear();
    assert_eq!(contents(&list).len(), list.size());
}

#[test]
fn list_iterator_is_a_double_ended_snapshot() {
    let mut list = list_of(&[1, 2, 3, 4]);
    let mut it = list.into_iter();
    list.set(0, 100);
    list.add(5);
    assert_eq!(it.next(), Some(1));
    assert_eq!(it.next_back(), Some(4));
    assert_eq!(it.next_back(), Some(3));
    assert_eq!(it.next(), Some(2));
    assert_eq!(it.next(), None);
    assert_eq!(it.next_back(), None);
    assert_eq!(contents(&list), vec![100, 2, 3, 4, 5]);
}
