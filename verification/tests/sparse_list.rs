use keyed_arena::sparse_list::SparseList;

fn values_of(list: &SparseList<usize, &'static str>) -> Vec<&'static str> {
    let mut iter = list.iter();
    let mut values = Vec::new();
    while let Some(value) = iter.next() {
        values.push(*value);
    }
    values
}

fn keys_of(list: &SparseList<usize, &'static str>) -> Vec<usize> {
    let mut iter = list.iter_keys();
    let mut keys = Vec::new();
    while let Some(key) = iter.next() {
        keys.push(key);
    }
    keys
}

#[test]
fn sparse_list_removal_keeps_order_and_positions() {
    let mut list: SparseList<usize, &str> = SparseList::new();
    assert_eq!(list.push("a"), 0);
    assert_eq!(list.push("b"), 1);
    assert_eq!(list.push("c"), 2);
    assert_eq!(list.remove(1), Some("b"));
    assert_eq!(values_of(&list), vec!["a", "c"]);
    assert_eq!(keys_of(&list), vec![0, 2]);
    assert_eq!(list.used_count(), 2);
    assert_eq!(list.slot_count(), 3);
}

#[test]
fn sparse_list_pop_after_removing_the_last_value() {
    let mut list: SparseList<usize, &str> = SparseList::new();
    list.push("a");
    list.push("b");
    assert_eq!(list.remove(1), Some("b"));
    assert_eq!(list.slot_count(), 2);
    assert_eq!(list.used_count(), 1);
    assert_eq!(list.pop(), None);
    assert_eq!(list.slot_count(), 1);
    assert_eq!(list.used_count(), 1);
    assert_eq!(list.pop(), Some("a"));
    assert_eq!(list.slot_count(), 0);
    assert_eq!(list.used_count(), 0);
}

#[test]
fn sparse_list_pop_on_an_empty_list_changes_nothing() {
    let mut list: SparseList<usize, &str> = SparseList::new();
    assert_eq!(list.pop(), None);
    assert_eq!(list.slot_count(), 0);
    assert_eq!(list.used_count(), 0);
    assert_eq!(list.push("a"), 0);
    assert_eq!(list.used_count(), 1);
}

#[test]
fn sparse_list_removing_twice_counts_once() {
    let mut list: SparseList<usize, &str> = SparseList::new();
    list.push("a");
    list.push("b");
    assert_eq!(list.remove(0), Some("a"));
    assert_eq!(list.remove(0), None);
    assert_eq!(list.used_count(), 1);
    assert_eq!(list.slot_count(), 2);
    assert_eq!(values_of(&list), vec!["b"]);
}

#[test]
fn sparse_list_positions_are_not_given_out_again() {
    let mut list: SparseList<usize, &str> = SparseList::new();
    list.push("a");
    list.push("b");
    assert_eq!(list.remove(0), Some("a"));
    assert_eq!(list.push("c"), 2);
    assert_eq!(list.pop(), Some("c"));
    assert_eq!(list.push("d"), 2);
    assert_eq!(keys_of(&list), vec![1, 2]);
    assert_eq!(list[0], None);
    assert_eq!(list[1], Some("b"));
    assert_eq!(list[2], Some("d"));
}

#[test]
fn sparse_list_extend_appends_in_order() {
    let mut list: SparseList<usize, &str> = SparseList::new();
    list.push("a");
    assert_eq!(list.remove(0), Some("a"));
    list.extend(vec!["b", "c", "d"]);
    assert_eq!(list.slot_count(), 4);
    assert_eq!(list.used_count(), 3);
    assert_eq!(values_of(&list), vec!["b", "c", "d"]);
    assert_eq!(keys_of(&list), vec![1, 2, 3]);
    list.extend(Vec::new());
    assert_eq!(list.slot_count(), 4);
    assert_eq!(list.used_count(), 3);
}

#[test]
fn sparse_list_iter_mut_reaches_every_value() {
    let mut list: SparseList<usize, String> = SparseList::new();
    list.push(String::from("a"));
    list.push(String::from("b"));
    list.push(String::from("c"));
    list.remove(1);
    let mut seen = Vec::new();
    let mut iter = list.iter_mut();
    while let Some(value) = iter.next() {
        seen.push(value.clone());
        value.push('!');
    }
    assert_eq!(seen, vec!["a", "c"]);
    assert_eq!(list[0].as_deref(), Some("a!"));
    assert_eq!(list[1], None);
    assert_eq!(list[2].as_deref(), Some("c!"));
    assert_eq!(list.used_count(), 2);
    assert_eq!(list.slot_count(), 3);
}

#[test]
fn sparse_list_iter_mut_with_keys_pairs_keys_and_values() {
    let mut list: SparseList<usize, u32> = SparseList::new();
    list.extend(vec![10, 20, 30, 40]);
    list.remove(0);
    list.remove(2);
    let mut keys = Vec::new();
    let mut iter = list.iter_mut_with_keys();
    while let Some((key, value)) = iter.next() {
        keys.push(key);
        *value += key as u32;
    }
    assert_eq!(keys, vec![1, 3]);
    assert_eq!(list[1], Some(21));
    assert_eq!(list[3], Some(43));
    assert_eq!(list.used_count(), 2);
}

#[test]
fn sparse_list_into_iter_gives_the_values_away() {
    let mut list: SparseList<usize, String> = SparseList::new();
    list.push(String::from("a"));
    list.push(String::from("b"));
    list.push(String::from("c"));
    list.remove(0);
    let mut iter = list.into_iter();
    assert_eq!(iter.next().as_deref(), Some("b"));
    assert_eq!(iter.next().as_deref(), Some("c"));
    assert_eq!(iter.next(), None);
    assert_eq!(iter.next(), None);
}

#[test]
fn sparse_list_walks_of_an_empty_list_end_at_once() {
    let mut list: SparseList<usize, &str> = SparseList::new();
    assert!(list.iter().next().is_none());
    assert!(list.iter_keys().next().is_none());
    assert!(list.iter_mut().next().is_none());
    assert!(list.iter_mut_with_keys().next().is_none());
    list.push("a");
    list.remove(0);
    assert!(list.iter().next().is_none());
    assert!(list.iter_keys().next().is_none());
    assert!(list.iter_mut().next().is_none());
    assert!(list.into_iter().next().is_none());
}
