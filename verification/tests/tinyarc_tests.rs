use blueos::intrusive::Adapter;
use blueos::tinyarc::{Slot, TinyArc, TinyArcList, TinyArcListIterator, TinyArcListReverseIterator, TinyArcPool};
use blueos::list::typed_atomic_ilist::AtomicListHead;

struct OffsetOfCsl;
impl Adapter for OffsetOfCsl {
    fn offset() -> usize {
        0
    }
}

#[derive(Default, Debug)]
struct Thread {
    id: usize,
}

impl Thread {
    fn new(id: usize) -> Self {
        Thread { id }
    }
}

type Pool = TinyArcPool<Thread, OffsetOfCsl>;
type Ty = TinyArc<Thread>;
type CslList = TinyArcList<Thread, OffsetOfCsl>;

/// A lone link node of the pool, standing for a list head kept on its own.
fn lone_node(pool: &mut Pool) -> usize {
    pool.slots.push(Slot::Sentinel);
    pool.links.push(AtomicListHead::new());
    pool.slots.len() - 1
}

#[test]
fn tinyarc_test_insert_and_detach() {
    let mut pool = Pool::new();
    let head = lone_node(&mut pool);
    let n = 4;
    for i in 0..n {
        let t = Ty::new(&mut pool, Thread::new(i));
        assert_eq!(Ty::strong_count(&t, &pool), 1);
        let c = t.clone(&mut pool);
        CslList::insert_after(head, c, &mut pool);
        assert_eq!(Ty::strong_count(&t, &pool), 2);
        t.drop(&mut pool);
    }
    let mut counter = (n - 1) as isize;
    let mut it = TinyArcListIterator::new(&pool.links[head], None);
    while let Some(i) = it.next(&mut pool) {
        assert_eq!(i.deref(&pool).id, counter as usize);
        assert_eq!(Ty::strong_count(&i, &pool), 2);
        counter -= 1;
        assert!(CslList::detach(&i, &mut pool));
        assert_eq!(Ty::strong_count(&i, &pool), 1);
        i.drop(&mut pool);
    }
    assert_eq!(counter, -1);
}

#[test]
fn test_insert_before_and_detach() {
    let mut pool = Pool::new();
    let tail = lone_node(&mut pool);
    let n = 4;
    for i in 0..n {
        let t = Ty::new(&mut pool, Thread::new(i));
        assert_eq!(Ty::strong_count(&t, &pool), 1);
        let c = t.clone(&mut pool);
        CslList::insert_before(tail, c, &mut pool);
        assert_eq!(Ty::strong_count(&t, &pool), 2);
        t.drop(&mut pool);
    }
    let mut counter = (n - 1) as isize;
    let mut it = TinyArcListReverseIterator::new(&pool.links[tail], None);
    while let Some(i) = it.next(&mut pool) {
        assert_eq!(i.deref(&pool).id, counter as usize);
        assert_eq!(Ty::strong_count(&i, &pool), 2);
        counter -= 1;
        assert!(CslList::detach(&i, &mut pool));
        assert_eq!(Ty::strong_count(&i, &pool), 1);
        i.drop(&mut pool);
    }
    assert_eq!(counter, -1);
}

#[test]
fn test_push_and_pop() {
    let mut pool = Pool::new();
    let n = 16;
    let mut l = CslList::new(&mut pool);
    assert!(l.init(&mut pool));
    for i in 0..n {
        let t = Ty::new(&mut pool, Thread::new(i));
        assert_eq!(Ty::strong_count(&t, &pool), 1);
        assert!(pool.links[Ty::get_handle(&t)].is_detached());
        let c = t.clone(&mut pool);
        assert!(l.push_back(&mut pool, c));
        let c = t.clone(&mut pool);
        assert!(!l.push_back(&mut pool, c));
        assert_eq!(Ty::strong_count(&t, &pool), 2);
        t.drop(&mut pool);
    }
    for i in 0..n {
        let t = l.pop_front(&mut pool);
        assert!(t.is_some());
        let t = t.unwrap();
        assert_eq!(t.deref(&pool).id, i);
        assert_eq!(Ty::strong_count(&t, &pool), 1);
    }
    assert!(l.pop_front(&mut pool).is_none());
    assert!(l.is_empty(&pool));
}

#[test]
fn test_push_and_drop() {
    let mut pool = Pool::new();
    let n = 16;
    let mut l = CslList::new(&mut pool);
    l.init(&mut pool);
    let mut places = Vec::new();
    for i in 0..n {
        let t = Ty::new(&mut pool, Thread::new(i));
        let c = t.clone(&mut pool);
        assert!(l.push_back(&mut pool, c));
        assert_eq!(Ty::strong_count(&t, &pool), 2);
        places.push(Ty::into_raw(t));
    }
    assert_eq!(l.clear(&mut pool), n);
    assert!(l.is_empty(&pool));
    for p in places {
        assert!(pool.links[p].is_detached());
        let t = Ty::from_raw(p);
        assert_eq!(Ty::strong_count(&t, &pool), 1);
        t.drop(&mut pool);
        assert!(matches!(pool.slots[p], Slot::Free));
    }
}

#[test]
fn test_clear_gives_memory_back() {
    let mut pool = Pool::new();
    let mut l = CslList::new(&mut pool);
    l.init(&mut pool);
    let t = Ty::new(&mut pool, Thread::new(7));
    let p = Ty::get_handle(&t);
    assert!(l.push_back(&mut pool, t));
    assert_eq!(l.clear(&mut pool), 1);
    assert!(matches!(pool.slots[p], Slot::Free));
    assert_eq!(l.clear(&mut pool), 0);
}

#[test]
fn test_detach_during_iter_2() {
    let mut pool = Pool::new();
    let mut l = CslList::new(&mut pool);
    l.init(&mut pool);
    let mut n = 16;
    for i in 0..n {
        let t = Ty::new(&mut pool, Thread::new(i));
        assert_eq!(Ty::strong_count(&t, &pool), 1);
        let c = t.clone(&mut pool);
        assert!(l.push_back(&mut pool, c));
        t.drop(&mut pool);
    }
    loop {
        let mut iter = l.iter(&pool);
        if let Some(t) = iter.next(&mut pool) {
            assert_eq!(Ty::strong_count(&t, &pool), 2);
            assert!(CslList::detach(&t, &mut pool));
            assert_eq!(Ty::strong_count(&t, &pool), 1);
            t.drop(&mut pool);
            n -= 1;
        } else {
            break;
        }
    }
    assert_eq!(n, 0);
}

#[test]
fn test_detach_and_insert_during_iter() {
    let mut pool = Pool::new();
    let mut l = CslList::new(&mut pool);
    l.init(&mut pool);
    let n = 16;
    for i in 0..n {
        let t = Ty::new(&mut pool, Thread::new(i));
        let c = t.clone(&mut pool);
        assert!(l.push_back(&mut pool, c));
        t.drop(&mut pool);
    }
    for _ in 0..n {
        let mut iter = l.iter(&pool);
        if let Some(t) = iter.next(&mut pool) {
            assert_eq!(Ty::strong_count(&t, &pool), 2);
            assert!(CslList::detach(&t, &mut pool));
            assert_eq!(Ty::strong_count(&t, &pool), 1);
            let c = t.clone(&mut pool);
            assert!(l.push_back(&mut pool, c));
            t.drop(&mut pool);
        }
    }
    // the values come round in the same order
    let front = l.front(&mut pool).unwrap();
    assert_eq!(front.deref(&pool).id, 0);
    let back = l.back(&mut pool).unwrap();
    assert_eq!(back.deref(&pool).id, n - 1);
    front.drop(&mut pool);
    back.drop(&mut pool);
    assert_eq!(l.clear(&mut pool), n);
}

#[test]
fn test_into_raw_and_from_raw() {
    let mut pool = Pool::new();
    let t = Ty::new(&mut pool, Thread::default());
    assert_eq!(Ty::strong_count(&t, &pool), 1);
    let ptr = Ty::into_raw(t);
    let t2 = Ty::from_raw(ptr);
    assert_eq!(Ty::strong_count(&t2, &pool), 1);
}

#[test]
fn test_is_and_counts() {
    let mut pool = Pool::new();
    let a = Ty::new(&mut pool, Thread::new(1));
    let b = Ty::new(&mut pool, Thread::new(2));
    let a2 = a.clone(&mut pool);
    assert!(a.is(&a2));
    assert!(!a.is(&b));
    assert_eq!(Ty::strong_count(&a, &pool), 2);
    Ty::increment_strong_count(&a, &mut pool);
    assert_eq!(Ty::strong_count(&a, &pool), 3);
    Ty::decrement_strong_count(&a, &mut pool);
    a2.drop(&mut pool);
    assert_eq!(Ty::strong_count(&a, &pool), 1);
    let p = Ty::get_handle(&a);
    a.drop(&mut pool);
    assert!(matches!(pool.slots[p], Slot::Free));
    assert_eq!(b.deref(&pool).id, 2);
}

#[test]
fn test_detach_during_iter() {
    let mut pool = Pool::new();
    let head = lone_node(&mut pool);
    let t = Ty::new(&mut pool, Thread::default());
    CslList::insert_after(head, t, &mut pool);
    let mut it = TinyArcListIterator::new(&pool.links[head], None);
    let mut seen = 0;
    while let Some(e) = it.next(&mut pool) {
        assert!(CslList::detach(&e, &mut pool));
        e.drop(&mut pool);
        seen += 1;
    }
    assert_eq!(seen, 1);
    assert!(pool.links[head].is_detached());
}
