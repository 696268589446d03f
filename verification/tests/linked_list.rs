use linked_lists::linked_list::{LinkedList, Node};

#[test]
fn test_push_back() {
    let mut list = LinkedList::new();
    list.push_back(1);
    list.push_back(2);
    assert_eq!(list.len(), 2);
    assert!(!list.is_empty());
}

#[test]
fn test_pop_back() {
    let mut list = LinkedList::new();
    list.push_back(1);
    list.push_back(2);
    assert_eq!(list.pop_back(), Some(2));
    assert_eq!(list.pop_back(), Some(1));
    assert_eq!(list.pop_back(), None);
    assert!(list.is_empty());
}

#[test]
fn test_push_front() {
    let mut list = LinkedList::new();
    list.push_front(2);
    list.push_front(1);
    assert_eq!(list.pop_back(), Some(2));
    assert_eq!(list.pop_back(), Some(1));
    assert_eq!(list.pop_back(), None);
    assert!(list.is_empty());
}

#[test]
fn test_pop_front() {
    let mut list = LinkedList::new();
    list.push_front(2);
    list.push_front(1);
    list.push_back(3);
    assert_eq!(list.pop_back(), Some(3));
    assert_eq!(list.pop_front(), Some(1));
    assert_eq!(list.pop_front(), Some(2));
    assert_eq!(list.pop_front(), None);
    assert!(list.is_empty());
}

#[test]
fn linked_list_test_into_iter() {
    let list = LinkedList::<usize>::from([0, 1, 2, 3]);
    let mut iter = list.into_iter();
    let mut i: usize = 0;
    while let Some(v) = iter.next() {
        assert_eq!(i, v);
        i += 1;
    }
    assert_eq!(i, 4);
}

#[test]
fn new_list_is_empty() {
    let mut list = LinkedList::<u8>::new();
    assert_eq!(list.len(), 0);
    assert!(list.is_empty());
    assert_eq!(list.pop_front(), None);
    assert_eq!(list.pop_back(), None);
}

#[test]
fn new_node_has_no_neighbours() {
    let node = Node::new(7);
    assert_eq!(node.value, 7);
    assert_eq!(node.next, None);
    assert_eq!(node.prev, None);
}

#[test]
fn single_element_leaves_at_either_end() {
    let mut list = LinkedList::new();
    list.push_back(5);
    assert_eq!(list.len(), 1);
    assert_eq!(list.pop_front(), Some(5));
    assert!(list.is_empty());
    list.push_front(6);
    assert_eq!(list.len(), 1);
    assert_eq!(list.pop_back(), Some(6));
    assert!(list.is_empty());
    assert_eq!(list.pop_back(), None);
    assert_eq!(list.pop_front(), None);
}

#[test]
fn len_is_pushes_less_pops_and_never_below_zero() {
    let mut list = LinkedList::new();
    for i in 0..7 {
        if i % 2 == 0 {
            list.push_back(i);
        } else {
            list.push_front(i);
        }
        assert_eq!(list.len(), i + 1);
        assert!(!list.is_empty());
    }
    for k in 1..=10 {
        if k % 3 == 0 {
            list.pop_front();
        } else {
            list.pop_back();
        }
        let expected = if k < 7 { 7 - k } else { 0 };
        assert_eq!(list.len(), expected);
        assert_eq!(list.is_empty(), expected == 0);
    }
}

#[test]
fn pop_on_empty_list_changes_nothing() {
    let mut list = LinkedList::<i32>::new();
    for _ in 0..5 {
        assert_eq!(list.pop_back(), None);
        assert_eq!(list.len(), 0);
        assert_eq!(list.pop_front(), None);
        assert_eq!(list.len(), 0);
        assert!(list.is_empty());
    }
    list.push_back(1);
    assert_eq!(list.pop_front(), Some(1));
    for _ in 0..3 {
        assert_eq!(list.pop_front(), None);
        assert_eq!(list.pop_back(), None);
        assert_eq!(list.len(), 0);
    }
}

#[test]
fn emptied_slots_are_used_again_in_order() {
    let mut list = LinkedList::new();
    for round in 0..4 {
        for i in 0..5 {
            list.push_back(10 * round + i);
        }
        assert_eq!(list.pop_front(), Some(10 * round));
        assert_eq!(list.pop_back(), Some(10 * round + 4));
        list.push_front(100 + round);
        assert_eq!(list.pop_front(), Some(100 + round));
        assert_eq!(list.pop_front(), Some(10 * round + 1));
        assert_eq!(list.pop_back(), Some(10 * round + 3));
        assert_eq!(list.pop_back(), Some(10 * round + 2));
        assert_eq!(list.pop_back(), None);
        assert!(list.is_empty());
    }
}

#[test]
fn interleaved_pushes_and_pops_keep_the_order() {
    let mut list = LinkedList::new();
    list.push_back('c');
    list.push_front('b');
    assert_eq!(list.pop_back(), Some('c'));
    list.push_back('d');
    list.push_front('a');
    list.push_back('e');
    assert_eq!(list.len(), 4);
    let mut iter = list.into_iter();
    assert_eq!(iter.next(), Some('a'));
    assert_eq!(iter.next(), Some('b'));
    assert_eq!(iter.next(), Some('d'));
    assert_eq!(iter.next(), Some('e'));
    assert_eq!(iter.next(), None);
    assert_eq!(iter.next(), None);
}

#[test]
fn from_an_array_keeps_length_and_both_ends() {
    let mut list = LinkedList::from(["x", "y", "z"]);
    assert_eq!(list.len(), 3);
    assert_eq!(list.pop_back(), Some("z"));
    assert_eq!(list.pop_front(), Some("x"));
    assert_eq!(list.pop_front(), Some("y"));
    assert!(list.is_empty());
}

#[test]
fn from_an_empty_array_is_empty() {
    let empty: [u64; 0] = [];
    let list = LinkedList::from(empty);
    assert!(list.is_empty());
    let mut iter = list.into_iter();
    assert_eq!(iter.next(), None);
}

#[test]
fn an_array_converts_into_a_list() {
    let list: LinkedList<u8> = [9, 8].into();
    let mut iter = list.into_iter();
    assert_eq!(iter.next(), Some(9));
    assert_eq!(iter.next(), Some(8));
    assert_eq!(iter.next(), None);
}

#[test]
fn elements_need_not_be_copyable() {
    let mut list = LinkedList::new();
    list.push_back(String::from("one"));
    list.push_front(String::from("zero"));
    assert_eq!(list.pop_back(), Some(String::from("one")));
    assert_eq!(list.pop_back(), Some(String::from("zero")));
    assert_eq!(list.pop_back(), None);
}
