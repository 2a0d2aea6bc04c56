use containers::linked_list::LinkedList;

fn contents(list: &LinkedList<i32>) -> Vec<i32> {
    let mut it = list.into_iter();
    let mut out = Vec::new();
    while let Some(x) = it.next() {
        out.push(x);
    }
    out
}

fn linked(items: &[i32]) -> LinkedList<i32> {
    let mut list = LinkedList::new();
    for &x in items {
        list.add(x);
    }
    list
}

#[test]
fn linked_add_get_insert_remove_item() {
    let mut list: LinkedList<i32> = LinkedList::new();
    list.add(0);
    list.add(1);
    assert_eq!(2, list.size());
    assert_eq!(0, list.get(0).unwrap());
    assert_eq!(1, list.get(1).unwrap());
    list.insert(0, 55);
    assert_eq!(55, list.get(0).unwrap());
    assert_eq!(3, list.size());
    assert_eq!(list.remove_item(55), Some(55));
    assert_eq!(2, list.size());
    assert_eq!(contents(&list), vec![0, 1]);
}

#[test]
fn new_linked_list_is_empty() {
    let mut list: LinkedList<i32> = LinkedList::new();
    assert_eq!(list.size(), 0);
    assert_eq!(list.get(0), None);
    assert_eq!(list.remove(0), None);
    assert_eq!(list.remove_item(1), None);
    list.insert(0, 1);
    list.set(0, 1);
    assert_eq!(list.size(), 0);
    assert_eq!(contents(&list), Vec::<i32>::new());
}

#[test]
fn linked_get_reaches_every_position() {
    let list = linked(&[10, 11, 12, 13, 14, 15, 16]);
    for i in 0..7 {
        assert_eq!(list.get(i), Some(10 + i as i32));
    }
    assert_eq!(list.get(7), None);
    assert_eq!(list.get(usize::MAX), None);
}

#[test]
fn linked_set_overwrites_in_place() {
    let mut list = linked(&[1, 2, 3, 4]);
    list.set(0, 10);
    list.set(3, 40);
    list.set(4, 50);
    assert_eq!(contents(&list), vec![10, 2, 3, 40]);
    assert_eq!(list.size(), 4);
}

#[test]
fn linked_insert_goes_before_the_position() {
    let mut list = linked(&[1, 2, 3, 4, 5]);
    list.insert(1, 15);
    assert_eq!(contents(&list), vec![1, 15, 2, 3, 4, 5]);
    list.insert(5, 45);
    assert_eq!(contents(&list), vec![1, 15, 2, 3, 4, 45, 5]);
    list.insert(0, 0);
    assert_eq!(contents(&list), vec![0, 1, 15, 2, 3, 4, 45, 5]);
    assert_eq!(list.size(), 8);
    list.insert(8, 99);
    assert_eq!(list.size(), 8);
}

#[test]
fn linked_remove_head_tail_middle_and_sole() {
    let mut list = linked(&[1, 2, 3, 4, 5]);
    assert_eq!(list.remove(0), Some(1));
    assert_eq!(contents(&list), vec![2, 3, 4, 5]);
    assert_eq!(list.remove(3), Some(5));
    assert_eq!(contents(&list), vec![2, 3, 4]);
    assert_eq!(list.remove(1), Some(3));
    assert_eq!(contents(&list), vec![2, 4]);
    assert_eq!(list.remove(2), None);
    assert_eq!(list.remove(1), Some(4));
    assert_eq!(list.remove(0), Some(2));
    assert_eq!(list.size(), 0);
    assert_eq!(contents(&list), Vec::<i32>::new());
    list.add(9);
    assert_eq!(contents(&list), vec![9]);
}

#[test]
fn linked_remove_item_takes_first_occurrence() {
    let mut list = linked(&[7, 8, 7, 9]);
    assert_eq!(list.remove_item(7), Some(7));
    assert_eq!(contents(&list), vec![8, 7, 9]);
    assert_eq!(list.remove_item(9), Some(9));
    assert_eq!(contents(&list), vec![8, 7]);
    assert_eq!(list.remove_item(1), None);
    assert_eq!(list.size(), 2);
}

#[test]
fn linked_insert_then_remove_restores_sequence() {
    let mut list = linked(&[3, 1, 4, 1, 5]);
    list.insert(3, 99);
    assert_eq!(list.get(3), Some(99));
    assert_eq!(list.get(4), Some(1));
    assert_eq!(list.remove(3), Some(99));
    assert_eq!(contents(&list), vec![3, 1, 4, 1, 5]);
}

#[test]
fn linked_slots_are_reused_after_removal() {
    let mut list = linked(&[1, 2, 3]);
    for round in 0..50 {
        assert_eq!(list.remove(1), Some(if round == 0 { 2 } else { 100 + round - 1 }));
        list.insert(1, 100 + round);
        assert_eq!(list.size(), 3);
    }
    assert_eq!(contents(&list), vec![1, 149, 3]);
    list.add(4);
    assert_eq!(contents(&list), vec![1, 149, 3, 4]);
}

#[test]
fn linked_clear_releases_everything() {
    let mut list = linked(&[1, 2, 3]);
    list.clear();
    assert_eq!(list.size(), 0);
    assert_eq!(list.get(0), None);
    assert_eq!(contents(&list), Vec::<i32>::new());
    list.add(5);
    list.add(6);
    assert_eq!(contents(&list), vec![5, 6]);
}

#[test]
fn linked_size_equals_iteration_count() {
    let mut list: LinkedList<i32> = LinkedList::new();
    for x in 0..10 {
        list.add(x);
        assert_eq!(contents(&list).len(), list.size());
    }
    list.insert(4, 40);
    list.remove(0);
    list.remove(8);
    list.remove_item(5);
    assert_eq!(contents(&list).len(), list.size());
    assert_eq!(list.size(), 8);
}

#[test]
fn linked_iterator_is_a_double_ended_snapshot() {
    let mut list = linked(&[1, 2, 3, 4]);
    let mut it = list.into_iter();
    list.set(0, 100);
    list.remove(3);
    assert_eq!(it.next_back(), Some(4));
    assert_eq!(it.next(), Some(1));
    assert_eq!(it.next(), Some(2));
    assert_eq!(it.next_back(), Some(3));
    assert_eq!(it.next(), None);
    assert_eq!(it.next_back(), None);
    assert_eq!(contents(&list), vec![100, 2, 3]);
}
