use vstd::prelude::*;
use crate::intrusive::Adapter;
use core::marker::PhantomData;

verus! {

/// A link of an intrusive list that is not circular and whose nodes can be
/// claimed one at a time: besides its neighbours (places in the arena of
/// nodes, none at the ends and none for a node on no list) each node has a
/// lock bit, set while an operation works on it.
pub struct AtomicListHead<T, A: Adapter> {
    pub prev: Option<usize>,
    pub locked: bool,
    pub next: Option<usize>,
    pub _t: PhantomData<T>,
    pub _a: PhantomData<A>,
}

/// A node with the given links, unlocked.
pub open spec fn alinked<T, A: Adapter>(n: AtomicListHead<T, A>, prev: Option<usize>, next: Option<usize>) -> AtomicListHead<T, A> {
    AtomicListHead { prev, next, locked: false, ..n }
}

/// Every link of the arena `a` names a node of it.
pub open spec fn alinks_in<T, A: Adapter>(a: Seq<AtomicListHead<T, A>>) -> bool {
    forall|i: int| 0 <= i < a.len() ==> {
        &&& (#[trigger] a[i]).prev matches Some(p) ==> p < a.len()
        &&& a[i].next matches Some(n) ==> n < a.len()
    }
}

/// The arena after node `me` is put right after node `head`.
pub open spec fn inserted_after<T, A: Adapter>(a0: Seq<AtomicListHead<T, A>>, head: usize, me: usize) -> Seq<AtomicListHead<T, A>> {
    let next = a0[head as int].next;
    let a1 = a0.update(head as int, AtomicListHead { next: Some(me), ..a0[head as int] });
    let a2 = match next {
        Some(v) => a1.update(v as int, AtomicListHead { prev: Some(me), ..a1[v as int] }),
        None => a1,
    };
    a2.update(me as int, alinked(a2[me as int], Some(head), next))
}

/// The arena after node `me` is put right before node `tail`.
pub open spec fn inserted_before<T, A: Adapter>(a0: Seq<AtomicListHead<T, A>>, tail: usize, me: usize) -> Seq<AtomicListHead<T, A>> {
    let prev = a0[tail as int].prev;
    let a1 = a0.update(tail as int, AtomicListHead { prev: Some(me), ..a0[tail as int] });
    let a2 = match prev {
        Some(v) => a1.update(v as int, AtomicListHead { next: Some(me), ..a1[v as int] }),
        None => a1,
    };
    a2.update(me as int, alinked(a2[me as int], prev, Some(tail)))
}

/// The arena after node `me` is taken off its list.
pub open spec fn detached<T, A: Adapter>(a0: Seq<AtomicListHead<T, A>>, me: usize) -> Seq<AtomicListHead<T, A>> {
    let m = a0[me as int];
    let a1 = match m.prev {
        Some(p) => a0.update(p as int, AtomicListHead { next: m.next, ..a0[p as int] }),
        None => a0,
    };
    let a2 = match m.next {
        Some(n) => a1.update(n as int, AtomicListHead { prev: m.prev, ..a1[n as int] }),
        None => a1,
    };
    a2.update(me as int, alinked(a2[me as int], None, None))
}

impl<T, A: Adapter> AtomicListHead<T, A> {
    /// A link on no list, unlocked.
    pub fn new() -> (l: Self)
        ensures
            l.prev is None && l.next is None && !l.locked,
    {
        AtomicListHead { prev: None, locked: false, next: None, _t: PhantomData, _a: PhantomData }
    }

    /// Sets the lock bit; true when it was clear, so that the caller now
    /// holds the node.
    pub fn try_lock(&mut self) -> (b: bool)
        ensures
            b == !old(self).locked,
            final(self).locked,
            final(self).prev == old(self).prev,
            final(self).next == old(self).next,
    {
        let was = self.locked;
        self.locked = true;
        !was
    }

    /// Clears the lock bit.
    pub fn unlock(&mut self)
        ensures
            !final(self).locked,
            final(self).prev == old(self).prev,
            final(self).next == old(self).next,
    {
        self.locked = false;
    }

    /// The node before this one.
    pub fn prev(&self) -> (r: Option<usize>)
        ensures
            r == self.prev,
    {
        self.prev
    }

    /// The node after this one.
    pub fn next(&self) -> (r: Option<usize>)
        ensures
            r == self.next,
    {
        self.next
    }

    /// Whether the link is on no list.
    pub fn is_detached(&self) -> (b: bool)
        ensures
            b <==> self.prev is None && self.next is None,
    {
        self.prev.is_none() && self.next.is_none()
    }

    /// Puts the node `me` right after the node `head`. Fails, changing
    /// nothing, when `me` is locked or on a list. The node that followed
    /// `head`, if any, now follows `me` (it must have had `head` before it),
    /// and `me` is left unlocked.
    pub fn insert_after(arena: &mut Vec<AtomicListHead<T, A>>, head: usize, me: usize) -> (b: bool)
        requires
            head < old(arena)@.len(),
            me < old(arena)@.len(),
            alinks_in(old(arena)@),
            old(arena)@[head as int].next matches Some(v) ==> old(arena)@[v as int].prev == Some(head),
        ensures
            alinks_in(final(arena)@),
            final(arena)@.len() == old(arena)@.len(),
            b <==> !old(arena)@[me as int].locked && old(arena)@[me as int].prev is None
                && old(arena)@[me as int].next is None,
            !b ==> final(arena)@ == old(arena)@,
            b ==> final(arena)@ == inserted_after(old(arena)@, head, me),
    {
        if arena[me].locked {
            return false;
        }
        if !arena[me].is_detached() {
            return false;
        }
        let next = arena[head].next;
        let h = AtomicListHead { prev: arena[head].prev, locked: arena[head].locked, next: Some(me),
            _t: PhantomData, _a: PhantomData };
        arena.set(head, h);
        match next {
            Some(v) => {
                let nv = AtomicListHead { prev: Some(me), locked: arena[v].locked, next: arena[v].next,
                    _t: PhantomData, _a: PhantomData };
                arena.set(v, nv);
            },
            None => {},
        }
        let m = AtomicListHead { prev: Some(head), locked: false, next, _t: PhantomData, _a: PhantomData };
        arena.set(me, m);
        true
    }

    /// Puts the node `me` right before the node `tail`. Fails, changing
    /// nothing, when `me` is locked or on a list. The node that preceded
    /// `tail`, if any, now precedes `me`, `tail` follows `me`, and `me` is
    /// left unlocked.
    pub fn insert_before(arena: &mut Vec<AtomicListHead<T, A>>, tail: usize, me: usize) -> (b: bool)
        requires
            tail < old(arena)@.len(),
            me < old(arena)@.len(),
            alinks_in(old(arena)@),
        ensures
            alinks_in(final(arena)@),
            final(arena)@.len() == old(arena)@.len(),
            b <==> !old(arena)@[me as int].locked && old(arena)@[me as int].prev is None
                && old(arena)@[me as int].next is None,
            !b ==> final(arena)@ == old(arena)@,
            b ==> final(arena)@ == inserted_before(old(arena)@, tail, me),
    {
        if arena[me].locked {
            return false;
        }
        if !arena[me].is_detached() {
            return false;
        }
        let prev = arena[tail].prev;
        let t = AtomicListHead { prev: Some(me), locked: arena[tail].locked, next: arena[tail].next,
            _t: PhantomData, _a: PhantomData };
        arena.set(tail, t);
        match prev {
            Some(v) => {
                let pv = AtomicListHead { prev: arena[v].prev, locked: arena[v].locked, next: Some(me),
                    _t: PhantomData, _a: PhantomData };
                arena.set(v, pv);
            },
            None => {},
        }
        let m = AtomicListHead { prev, locked: false, next: Some(tail), _t: PhantomData, _a: PhantomData };
        arena.set(me, m);
        true
    }

    /// Takes the node `me` off its list, joining its neighbours. Fails,
    /// changing nothing, when `me` is locked or on no list; `me` is left
    /// unlocked.
    pub fn detach(arena: &mut Vec<AtomicListHead<T, A>>, me: usize) -> (b: bool)
        requires
            me < old(arena)@.len(),
            alinks_in(old(arena)@),
        ensures
            alinks_in(final(arena)@),
            final(arena)@.len() == old(arena)@.len(),
            b <==> !old(arena)@[me as int].locked
                && !(old(arena)@[me as int].prev is None && old(arena)@[me as int].next is None),
            !b ==> final(arena)@ == old(arena)@,
            b ==> final(arena)@ == detached(old(arena)@, me),
    {
        if arena[me].locked {
            return false;
        }
        if arena[me].is_detached() {
            return false;
        }
        let mp = arena[me].prev;
        let mn = arena[me].next;
        match mp {
            Some(p) => {
                let np = AtomicListHead { prev: arena[p].prev, locked: arena[p].locked, next: mn,
                    _t: PhantomData, _a: PhantomData };
                arena.set(p, np);
            },
            None => {},
        }
        match mn {
            Some(n) => {
                let nn = AtomicListHead { prev: mp, locked: arena[n].locked, next: arena[n].next,
                    _t: PhantomData, _a: PhantomData };
                arena.set(n, nn);
            },
            None => {},
        }
        let m = AtomicListHead { prev: None, locked: false, next: None, _t: PhantomData, _a: PhantomData };
        arena.set(me, m);
        true
    }
}

/// Walks a list forwards, from the node after a head up to (not
/// including) a given tail.
pub struct AtomicListIterator<T, A: Adapter> {
    next: Option<usize>,
    tail: Option<usize>,
    _t: PhantomData<T>,
    _a: PhantomData<A>,
}

impl<T, A: Adapter> AtomicListIterator<T, A> {
    /// The node to be given next.
    pub closed spec fn next_spec(&self) -> Option<usize> {
        self.next
    }

    /// Where the walk stops.
    pub closed spec fn tail_spec(&self) -> Option<usize> {
        self.tail
    }

    /// Starts after `head`, stopping at `tail`.
    pub fn new(head: &AtomicListHead<T, A>, tail: Option<usize>) -> (it: Self)
        ensures
            it.next_spec() == head.next,
            it.tail_spec() == tail,
    {
        AtomicListIterator { next: head.next, tail, _t: PhantomData, _a: PhantomData }
    }

    /// The next node, none at the tail. The walk must not run off the end
    /// of the list before the tail.
    pub fn next(&mut self, arena: &Vec<AtomicListHead<T, A>>) -> (r: Option<usize>)
        requires
            old(self).next_spec() != old(self).tail_spec() ==> (old(self).next_spec() matches Some(c)
                && c < arena@.len()),
        ensures
            final(self).tail_spec() == old(self).tail_spec(),
            old(self).next_spec() == old(self).tail_spec() ==> r is None && *final(self) == *old(self),
            old(self).next_spec() != old(self).tail_spec() ==> r == old(self).next_spec()
                && final(self).next_spec() == arena@[old(self).next_spec().unwrap() as int].next,
    {
        if self.next == self.tail {
            return None;
        }
        let current = self.next.unwrap();
        self.next = arena[current].next;
        Some(current)
    }
}

/// Walks a list backwards, from the node before a tail down to (not
/// including) a given head.
pub struct AtomicListReverseIterator<T, A: Adapter> {
    prev: Option<usize>,
    head: Option<usize>,
    _t: PhantomData<T>,
    _a: PhantomData<A>,
}

impl<T, A: Adapter> AtomicListReverseIterator<T, A> {
    /// The node to be given next.
    pub closed spec fn prev_spec(&self) -> Option<usize> {
        self.prev
    }

    /// Where the walk stops.
    pub closed spec fn head_spec(&self) -> Option<usize> {
        self.head
    }

    /// Starts before `tail`, stopping at `head`.
    pub fn new(tail: &AtomicListHead<T, A>, head: Option<usize>) -> (it: Self)
        ensures
            it.prev_spec() == tail.prev,
            it.head_spec() == head,
    {
        AtomicListReverseIterator { prev: tail.prev, head, _t: PhantomData, _a: PhantomData }
    }

    /// The next node backwards, none at the head. The walk must not run
    /// off the start of the list before the head.
    pub fn next(&mut self, arena: &Vec<AtomicListHead<T, A>>) -> (r: Option<usize>)
        requires
            old(self).prev_spec() != old(self).head_spec() ==> (old(self).prev_spec() matches Some(c)
                && c < arena@.len()),
        ensures
            final(self).head_spec() == old(self).head_spec(),
            old(self).prev_spec() == old(self).head_spec() ==> r is None && *final(self) == *old(self),
            old(self).prev_spec() != old(self).head_spec() ==> r == old(self).prev_spec()
                && final(self).prev_spec() == arena@[old(self).prev_spec().unwrap() as int].prev,
    {
        if self.prev == self.head {
            return None;
        }
        let current = self.prev.unwrap();
        self.prev = arena[current].prev;
        Some(current)
    }
}

} // verus!
