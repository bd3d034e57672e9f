use blueos::list::doubly_linked_list::{LinkedList, ListArena, ListHead, Node};
use blueos::list::typed_ilist;
use blueos::list::typed_atomic_ilist::{AtomicListHead, AtomicListIterator, AtomicListReverseIterator};
use blueos::intrusive::Adapter;

fn new_double_list(arena: &mut ListArena) -> usize {
    ListHead::new(arena)
}

fn new_list_node(arena: &mut ListArena) -> usize {
    ListHead::new(arena)
}

#[test]
fn test_empty_list() {
    let mut arena = ListArena::new();
    let list = new_double_list(&mut arena);
    assert!(ListHead::is_empty(&arena, list));
    assert_eq!(ListHead::size(&arena, list), 0);
    assert!(ListHead::next(&arena, list).is_none());
    assert!(ListHead::prev(&arena, list).is_none());
}

#[test]
fn test_insert_next() {
    let mut arena = ListArena::new();
    let list = new_double_list(&mut arena);
    let node1 = new_list_node(&mut arena);
    let node2 = new_list_node(&mut arena);

    ListHead::push_back(&mut arena, list, node1);
    assert!(!ListHead::is_empty(&arena, list));
    assert_eq!(ListHead::size(&arena, list), 1);

    ListHead::push_back(&mut arena, list, node2);
    assert_eq!(ListHead::size(&arena, list), 2);

    let first = ListHead::next(&arena, list).unwrap();
    let second = ListHead::next(&arena, first).unwrap();
    let third = ListHead::next(&arena, second).unwrap();
    assert_eq!(ListHead::as_ptr(third), ListHead::as_ptr(list));
}

#[test]
fn test_insert_prev() {
    let mut arena = ListArena::new();
    let list = new_double_list(&mut arena);
    let node1 = new_list_node(&mut arena);
    let node2 = new_list_node(&mut arena);

    ListHead::push_front(&mut arena, list, node1);
    assert!(!ListHead::is_empty(&arena, list));
    assert_eq!(ListHead::size(&arena, list), 1);

    ListHead::push_front(&mut arena, list, node2);
    assert_eq!(ListHead::size(&arena, list), 2);

    let last = ListHead::prev(&arena, list).unwrap();
    let second_last = ListHead::prev(&arena, last).unwrap();
    let third_last = ListHead::prev(&arena, second_last).unwrap();
    assert_eq!(ListHead::as_ptr(third_last), ListHead::as_ptr(list));
}

#[test]
fn test_remove() {
    let mut arena = ListArena::new();
    let list = new_double_list(&mut arena);
    let node1 = new_list_node(&mut arena);
    let node2 = new_list_node(&mut arena);

    ListHead::push_back(&mut arena, list, node1);
    ListHead::push_back(&mut arena, list, node2);
    assert_eq!(ListHead::size(&arena, list), 2);

    ListHead::remove_from_list(&mut arena, node2);
    assert_eq!(ListHead::size(&arena, list), 1);

    let next = ListHead::next(&arena, list).unwrap();
    assert_eq!(ListHead::as_ptr(next), ListHead::as_ptr(node1));

    ListHead::remove_from_list(&mut arena, node1);
    assert!(ListHead::is_empty(&arena, list));
    assert_eq!(ListHead::size(&arena, list), 0);
}

#[test]
fn test_circular_operations() {
    let mut arena = ListArena::new();
    let list = new_double_list(&mut arena);
    let node1 = new_list_node(&mut arena);
    let node2 = new_list_node(&mut arena);

    ListHead::push_back(&mut arena, list, node1);
    ListHead::push_back(&mut arena, list, node2);

    let first = ListHead::next(&arena, list).unwrap();
    let second = ListHead::next(&arena, first).unwrap();
    let third = ListHead::next(&arena, second).unwrap();

    assert_eq!(ListHead::as_ptr(third), ListHead::as_ptr(list));
}

#[test]
fn test_multiple_operations() {
    let mut arena = ListArena::new();
    let list = new_double_list(&mut arena);
    let node1 = new_list_node(&mut arena);
    let node2 = new_list_node(&mut arena);
    let node3 = new_list_node(&mut arena);

    ListHead::push_back(&mut arena, list, node1);
    ListHead::push_front(&mut arena, list, node2);
    ListHead::push_back(&mut arena, list, node3);
    assert_eq!(ListHead::size(&arena, list), 3);
    ListHead::remove_from_list(&mut arena, node3);
    assert_eq!(ListHead::size(&arena, list), 2);
    ListHead::remove_from_list(&mut arena, node2);
    assert_eq!(ListHead::size(&arena, list), 1);
    assert!(!ListHead::is_empty(&arena, list));
    assert!(ListHead::next(&arena, list).is_some());
    assert!(ListHead::prev(&arena, list).is_some());
}

#[test]
fn test_remove_next_prev() {
    let mut arena = ListArena::new();
    let list = new_double_list(&mut arena);
    let node1 = new_list_node(&mut arena);
    let node2 = new_list_node(&mut arena);
    let node3 = new_list_node(&mut arena);

    ListHead::push_back(&mut arena, list, node1);
    ListHead::push_back(&mut arena, list, node2);
    ListHead::push_back(&mut arena, list, node3);
    assert_eq!(ListHead::size(&arena, list), 3);

    let removed = ListHead::pop_front(&mut arena, list).unwrap();
    assert_eq!(ListHead::as_ptr(removed), ListHead::as_ptr(node1));
    assert_eq!(ListHead::size(&arena, list), 2);

    let removed = ListHead::pop_back(&mut arena, list).unwrap();
    assert_eq!(ListHead::as_ptr(removed), ListHead::as_ptr(node3));
    assert_eq!(ListHead::size(&arena, list), 1);

    let remaining = ListHead::next(&arena, list).unwrap();
    assert_eq!(ListHead::as_ptr(remaining), ListHead::as_ptr(node2));
}

#[test]
fn list_head_insert_after_and_before() {
    let mut arena = ListArena::new();
    let list = new_double_list(&mut arena);
    let a = new_list_node(&mut arena);
    let b = new_list_node(&mut arena);
    let c = new_list_node(&mut arena);
    ListHead::insert_after(&mut arena, a, list);
    ListHead::insert_after(&mut arena, c, a);
    ListHead::insert_before(&mut arena, b, c);
    assert_eq!(ListHead::next(&arena, list), Some(a));
    assert_eq!(ListHead::next(&arena, a), Some(b));
    assert_eq!(ListHead::next(&arena, b), Some(c));
    assert_eq!(ListHead::prev(&arena, list), Some(c));
    assert_eq!(ListHead::size(&arena, list), 3);
}

#[test]
fn test_basic_operations() {
    let mut list = LinkedList::new();
    assert!(list.is_empty());
    assert_eq!(list.len(), 0);

    list.push_back(1);
    list.push_back(2);
    list.push_front(0);
    assert_eq!(list.len(), 3);

    let mut iter = list.iter();
    assert_eq!(*iter.next().unwrap(), 0);
    assert_eq!(*iter.next().unwrap(), 1);
    assert_eq!(*iter.next().unwrap(), 2);
    assert_eq!(iter.next(), None);

    assert_eq!(list.pop_back(), Some(2));
    assert_eq!(list.pop_front(), Some(0));
    assert_eq!(list.pop_back(), Some(1));
    assert!(list.is_empty());
}

#[test]
fn test_mutable_iteration() {
    let mut list = LinkedList::new();
    list.push_back(1);
    list.push_back(2);
    list.push_back(3);

    let mut it = list.iter_mut();
    while let Some(x) = it.next() {
        *x *= 2;
    }

    let mut values: Vec<i32> = Vec::new();
    let mut it = list.iter();
    while let Some(x) = it.next() {
        values.push(*x);
    }
    assert_eq!(values, vec![2, 4, 6]);
}

#[test]
fn test_memory_management() {
    let mut list = LinkedList::new();

    for i in 0..1000 {
        list.push_back(i);
        list.push_front(-i);
    }
    assert_eq!(list.len(), 2000);
    for _ in 0..1000 {
        list.pop_back();
    }
    assert_eq!(list.len(), 1000);
    drop(list);
}

#[test]
fn test_clear() {
    let mut list = LinkedList::new();
    for i in 0..10 {
        list.push_back(i);
    }
    assert_eq!(list.len(), 10);
    list.clear();
    assert!(list.is_empty());
    assert_eq!(list.len(), 0);
    assert!(list.iter().next().is_none());
}

#[test]
fn test_push_pop_alternating() {
    let mut list = LinkedList::new();
    for i in 0..100 {
        list.push_back(i);
        list.push_front(-i);
        assert_eq!(list.pop_back(), Some(i));
        assert_eq!(list.pop_front(), Some(-i));
        assert!(list.is_empty());
    }
}

#[test]
fn test_iterator_count() {
    let mut list = LinkedList::new();
    let test_len = 100;

    for i in 0..test_len {
        list.push_back(i);
    }
    let mut iter = list.iter();
    assert_eq!(iter.size_hint(), (test_len, Some(test_len)));

    let mut count = 0;
    while iter.next().is_some() {
        count += 1;
    }
    assert_eq!(count, test_len);
}

#[test]
fn test_double_ended_iteration() {
    let mut list = LinkedList::new();

    for i in 0..5 {
        list.push_back(i);
    }

    let mut values: Vec<i32> = Vec::new();
    let mut front = true;
    while values.len() < 5 {
        if front {
            if let Some(value) = list.pop_front() {
                values.push(value);
            }
        } else {
            if let Some(value) = list.pop_back() {
                values.push(value);
            }
        }
        front = !front;
    }

    assert_eq!(values, vec![0, 4, 1, 3, 2]);
    assert!(list.is_empty());
}

#[test]
fn test_stress() {
    let mut list = LinkedList::new();
    let operations = 10000;

    for i in 0..operations {
        match i % 4 {
            0 => list.push_back(i),
            1 => list.push_front(i),
            2 => {
                let _ = list.pop_back();
            }
            3 => {
                let _ = list.pop_front();
            }
            _ => unreachable!(),
        }
    }

    list.clear();
    assert!(list.is_empty());
}

#[test]
fn test_iterator_mut_modifications() {
    let mut list = LinkedList::new();

    for i in 0..5 {
        list.push_back(i);
    }

    let mut it = list.iter_mut();
    while let Some(x) = it.next() {
        *x *= 2;
    }

    let mut iter = list.iter();
    for i in 0..5 {
        assert_eq!(*iter.next().unwrap(), i * 2);
    }
    assert!(iter.next().is_none());
}

struct OffsetOfLh;

impl Adapter for OffsetOfLh {
    fn offset() -> usize {
        8
    }
}

struct Foo;

type Ty = typed_ilist::ListHead<Foo, OffsetOfLh>;

#[test]
fn typed_ilist_test_insert_and_detach() {
    let mut arena: Vec<Ty> = vec![Ty::new(), Ty::new()];
    let (a, b) = (0usize, 1usize);
    assert!(arena[a].is_detached());
    assert!(arena[b].is_detached());
    assert!(Ty::insert_after(&mut arena, a, b));
    assert!(!arena[a].is_detached());
    assert!(!arena[b].is_detached());
    Ty::detach(&mut arena, b);
    assert!(arena[a].is_detached());
    assert!(arena[b].is_detached());
}

#[test]
fn typed_ilist_walks_both_ways() {
    let mut arena: Vec<Ty> = vec![Ty::const_new(), Ty::new(), Ty::new(), Ty::new()];
    let (head, x, y, tail) = (0usize, 1usize, 2usize, 3usize);
    assert!(Ty::insert_after(&mut arena, head, tail));
    assert!(Ty::insert_before(&mut arena, tail, x));
    assert!(Ty::insert_after(&mut arena, x, y));
    assert!(!Ty::insert_after(&mut arena, head, y));
    let mut it = typed_ilist::ListIterator::new(&arena[head], Some(tail));
    let mut seen = Vec::new();
    while let Some(n) = it.next(&arena) {
        seen.push(n);
    }
    assert_eq!(seen, vec![x, y]);
    let mut it = typed_ilist::ListReverseIterator::new(&arena[tail], Some(head));
    let mut seen = Vec::new();
    while let Some(n) = it.next(&arena) {
        seen.push(n);
    }
    assert_eq!(seen, vec![y, x]);
    assert!(Ty::detach(&mut arena, x));
    assert!(!Ty::detach(&mut arena, x));
    assert_eq!(arena[head].next, Some(y));
    assert_eq!(arena[y].prev, Some(head));
}

type ATy = AtomicListHead<Foo, OffsetOfLh>;

#[test]
fn typed_atomic_ilist_test_insert_and_detach() {
    let mut arena: Vec<ATy> = vec![ATy::new(), ATy::new(), ATy::new()];
    let (head, a, b) = (0usize, 1usize, 2usize);
    assert!(arena[head].is_detached());
    assert!(ATy::insert_after(&mut arena, head, a));
    assert_eq!(arena[head].next(), Some(a));
    assert_eq!(arena[a].prev(), Some(head));
    assert!(ATy::insert_before(&mut arena, a, b));
    assert_eq!(arena[head].next(), Some(b));
    assert_eq!(arena[b].next(), Some(a));
    assert_eq!(arena[a].prev(), Some(b));
    let mut it = AtomicListIterator::new(&arena[head], None);
    let mut seen = Vec::new();
    while let Some(n) = it.next(&arena) {
        seen.push(n);
    }
    assert_eq!(seen, vec![b, a]);
    let mut it = AtomicListReverseIterator::new(&arena[a], Some(head));
    let mut seen = Vec::new();
    while let Some(n) = it.next(&arena) {
        seen.push(n);
    }
    assert_eq!(seen, vec![b]);
    assert!(ATy::detach(&mut arena, b));
    assert!(arena[b].is_detached());
    assert_eq!(arena[head].next(), Some(a));
    assert!(!ATy::detach(&mut arena, b));
    arena[a].locked = true;
    assert!(!ATy::detach(&mut arena, a));
}

#[test]
fn test_node_holds_value_and_link() {
    let mut arena = ListArena::new();
    let list = new_double_list(&mut arena);
    let mut node = Node::new(&mut arena, 41u32);
    assert_eq!(*node.deref(), 41);
    *node.deref_mut() += 1;
    assert_eq!(*node.deref(), 42);
    assert!(ListHead::is_empty(&arena, node.as_ptr()));
    ListHead::push_back(&mut arena, list, node.as_ptr());
    assert_eq!(ListHead::size(&arena, list), 1);
    assert_eq!(node.take_data(), 42);
}

#[test]
fn atomic_list_head_lock_bit() {
    let mut t: AtomicListHead<u8, OffsetOfLh> = AtomicListHead::new();
    assert!(t.try_lock());
    assert!(!t.try_lock());
    assert!(!t.try_lock());
    t.unlock();
    assert!(t.try_lock());
    assert!(!t.try_lock());
    // a held node cannot be put on a list
    let mut arena = vec![AtomicListHead::<u8, OffsetOfLh>::new(), t];
    assert!(!AtomicListHead::insert_after(&mut arena, 0, 1));
    arena[1].unlock();
    assert!(AtomicListHead::insert_after(&mut arena, 0, 1));
}
