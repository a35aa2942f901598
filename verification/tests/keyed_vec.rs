use keyed_arena::keyed_vec::KeyedVec;
use keyed_arena::{Key, INVALID_ID};

#[derive(Debug, PartialEq, Eq, Hash, Copy, Clone)]
struct NodeKey(usize);

impl Key for NodeKey {
    fn from_id(id: usize) -> Self {
        NodeKey(id)
    }

    fn id(&self) -> usize {
        self.0
    }
}

#[test]
fn usize_is_its_own_key() {
    assert_eq!(<usize as Key>::from_id(7), 7);
    assert_eq!(7usize.id(), 7);
    assert_eq!(<usize as Key>::from_id(usize::MAX).id(), usize::MAX);
}

#[test]
fn keyed_vec_keys_count_up_from_zero() {
    let mut list: KeyedVec<usize, &str> = KeyedVec::new();
    let a = list.insert("a");
    let b = list.insert("b");
    assert_eq!(a.id(), 0);
    assert_eq!(b.id(), 1);
    assert_eq!(*list.get(a), "a");
    assert_eq!(*list.get(b), "b");
}

#[test]
fn keyed_vec_takes_a_key_type_of_the_caller() {
    let mut list: KeyedVec<NodeKey, u32> = KeyedVec::new();
    let a = list.insert(10);
    let b = list.insert(20);
    assert_eq!(a, NodeKey(0));
    assert_eq!(b, NodeKey(1));
    assert_eq!(*list.get(b), 20);
    assert_eq!(list[a], 10);
}

#[test]
fn keyed_vec_every_key_keeps_its_value() {
    let mut list: KeyedVec<usize, u64> = KeyedVec::new();
    let mut keys = Vec::new();
    for value in 0..100u64 {
        let key = list.insert(value * 3);
        assert_eq!(key, keys.len());
        keys.push(key);
        for (index, earlier) in keys.iter().enumerate() {
            assert_eq!(*list.get(*earlier), index as u64 * 3);
        }
    }
    assert_eq!(list.into_vec().len(), 100);
}

#[test]
fn keyed_vec_get_mut_changes_one_value() {
    let mut list: KeyedVec<usize, String> = KeyedVec::new();
    let a = list.insert(String::from("one"));
    let b = list.insert(String::from("two"));
    list.get_mut(b).push_str("!!");
    assert_eq!(list.get(a), "one");
    assert_eq!(list.get(b), "two!!");
    *list.get_mut(a) = String::from("uno");
    assert_eq!(list[a], "uno");
    assert_eq!(list[b], "two!!");
}

#[test]
fn keyed_vec_round_trips_through_a_vec() {
    let list: KeyedVec<usize, i32> = KeyedVec::from_vec(vec![4, 5, 6]);
    assert_eq!(*list.get(0), 4);
    assert_eq!(*list.get(2), 6);
    let mut list = list;
    assert_eq!(list.insert(7), 3);
    assert_eq!(list.into_vec(), vec![4, 5, 6, 7]);
}

#[test]
fn keyed_vec_clone_is_a_list_of_its_own() {
    let mut list: KeyedVec<usize, i32> = KeyedVec::new();
    let a = list.insert(1);
    let mut copy = list.clone();
    *copy.get_mut(a) = 9;
    let b = copy.insert(2);
    assert_eq!(*list.get(a), 1);
    assert_eq!(*copy.get(a), 9);
    assert_eq!(*copy.get(b), 2);
    assert_eq!(list.into_vec(), vec![1]);
}

#[test]
fn invalid_id_is_the_largest_integer() {
    assert_eq!(INVALID_ID, usize::MAX);
    let mut list: KeyedVec<NodeKey, u8> = KeyedVec::new();
    for value in 0..10 {
        assert_ne!(list.insert(value).id(), INVALID_ID);
    }
}
