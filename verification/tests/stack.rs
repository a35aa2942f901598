use keyed_arena::stack::Stack;

#[test]
fn stack_pops_what_was_pushed_last() {
    let mut stack: Stack<i32> = Stack::new();
    assert_eq!(stack.len(), 0);
    assert_eq!(stack.pop(), None);
    assert_eq!(stack.last(), None);
    stack.push(1);
    stack.push(2);
    stack.push(3);
    assert_eq!(stack.len(), 3);
    assert_eq!(stack.last(), Some(&3));
    assert_eq!(stack.pop(), Some(3));
    assert_eq!(stack.pop(), Some(2));
    assert_eq!(stack.len(), 1);
    assert_eq!(stack.last(), Some(&1));
    assert_eq!(stack.pop(), Some(1));
    assert_eq!(stack.pop(), None);
}

#[test]
fn stack_index_counts_from_the_top() {
    let stack = Stack::from_vec(vec!['a', 'b', 'c']);
    assert_eq!(stack[0], 'c');
    assert_eq!(stack[1], 'b');
    assert_eq!(stack[2], 'a');
    assert_eq!(stack[3], 'a');
    assert_eq!(stack[100], 'a');
}

#[test]
fn stack_iter_goes_from_the_top_down() {
    let mut stack: Stack<i32> = Stack::with_capacity(16);
    stack.push(1);
    stack.push(2);
    stack.push(3);
    let seen: Vec<i32> = stack.iter().copied().collect();
    assert_eq!(seen, vec![3, 2, 1]);
    assert_eq!(Stack::<i32>::new().iter().next(), None);
}

#[test]
fn stack_iter_mut_goes_from_the_top_down() {
    let mut stack = Stack::from_vec(vec![1, 2, 3]);
    let mut seen = Vec::new();
    let mut iter = stack.iter_mut();
    while let Some(item) = iter.next() {
        seen.push(*item);
        *item *= 10;
    }
    assert_eq!(seen, vec![3, 2, 1]);
    assert_eq!(stack.into_vec(), vec![10, 20, 30]);
    assert!(Stack::<i32>::new().iter_mut().next().is_none());
}

#[test]
fn stack_last_mut_changes_the_top() {
    let mut stack = Stack::from_vec(vec![1, 2]);
    *stack.last_mut().unwrap() = 7;
    assert_eq!(stack.into_vec(), vec![1, 7]);
    assert!(Stack::<i32>::new().last_mut().is_none());
}

#[test]
fn stack_clear_empties_it() {
    let mut stack = Stack::from_vec(vec![1, 2]);
    stack.clear();
    assert_eq!(stack.len(), 0);
    assert_eq!(stack.pop(), None);
    stack.push(5);
    assert_eq!(stack[0], 5);
}

#[test]
fn stack_equality_and_clone() {
    let stack = Stack::from_vec(vec![1, 2]);
    let mut copy = stack.clone();
    assert_eq!(stack, copy);
    copy.push(3);
    assert_ne!(stack, copy);
    assert_eq!(Stack::<i32>::new(), Stack::with_capacity(0));
    assert_eq!(stack.into_vec(), vec![1, 2]);
}
